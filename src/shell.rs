use crate::command::{Command, CommandView};
use crate::config::{Callback, Config, ReturnCode};
use crate::context::Context;
use crate::error::CliError;
use crate::parser::{parse, parse_line, parse_result, ParseFailure};
use crate::text::{char_string, same_text, scan, split_words, words};
use vstd::prelude::*;

verus! {

/// The prompt shown where the context sets none.
pub const DEFAULT_PROMPT: &'static str = "#";

/// The context key whose value replaces the default prompt.
pub const CONTEXT_PROMPT_STRING: &'static str = "prompt";

/// The context key whose value is a command line run once, before the first prompt.
pub const CONTEXT_ON_RUN_COMMAND: &'static str = "on_run";

/// What the shell does with one input line.
pub enum LineOutcome<C> {
    /// The line holds no word: the prompt is shown again.
    Empty,
    /// The first word names no registered command.
    UnknownCommand(Seq<char>),
    /// The line does not fit the command's flags.
    Invalid(ParseFailure),
    /// The command's callback runs on this parsed line.
    Runs(Config<C>, CommandView),
}

/// The prompt for a context: its prompt entry, or the default, followed by `>`.
pub open spec fn prompt_text(context: Map<Seq<char>, Seq<char>>) -> Seq<char> {
    (if context.contains_key(CONTEXT_PROMPT_STRING@) {
        context[CONTEXT_PROMPT_STRING@]
    } else {
        DEFAULT_PROMPT@
    }) + seq!['>']
}

/// The line to run at startup: the context's on-run entry, or the empty line.
pub open spec fn startup_text(context: Map<Seq<char>, Seq<char>>) -> Seq<char> {
    if context.contains_key(CONTEXT_ON_RUN_COMMAND@) {
        context[CONTEXT_ON_RUN_COMMAND@]
    } else {
        Seq::empty()
    }
}

/// The line to run at startup: the context's on-run entry, or the empty line, which does nothing.
pub fn startup_line(context: &Context) -> (r: String)
    requires
        context.wf(),
    ensures
        r@ == startup_text(context@),
{
    match context.get(CONTEXT_ON_RUN_COMMAND) {
        Some(s) => s.clone(),
        None => String::new(),
    }
}

/// A command line named a command that is not registered.
#[derive(Clone, Debug, PartialEq, Eq)]
pub struct UnknownCommandError(pub String);

impl UnknownCommandError {
    pub open spec fn text(&self) -> Seq<char> {
        "Error: unknown command "@ + self.0@
    }

    pub fn message(&self) -> (r: String)
        ensures
            r@ == self.text(),
    {
        let mut r = String::from_str("Error: unknown command ");
        r.append(self.0.as_str());
        r
    }
}

/// Whether no two configurations share a name.
pub open spec fn names_unique<C>(cs: Seq<Config<C>>) -> bool {
    forall|i: int, j: int|
        0 <= i < cs.len() && 0 <= j < cs.len() && #[trigger] cs[i]@.name == #[trigger] cs[j]@.name ==> i == j
}

/// The registry of a shell's commands, at most one for each name.
#[derive(Clone, Debug)]
pub struct CommandSet<C> {
    configs: Vec<Config<C>>,
}

impl<C> View for CommandSet<C> {
    type V = Seq<Config<C>>;

    closed spec fn view(&self) -> Seq<Config<C>> {
        self.configs@
    }
}

/// `cs` with `c` in place of the configuration of the same name, or with `c` added at the end.
pub open spec fn put_config<C>(cs: Seq<Config<C>>, c: Config<C>) -> Seq<Config<C>> {
    if exists|i: int| 0 <= i < cs.len() && cs[i]@.name == c@.name {
        cs.update(choose|i: int| 0 <= i < cs.len() && cs[i]@.name == c@.name, c)
    } else {
        cs.push(c)
    }
}

impl<C> CommandSet<C> {
    pub open spec fn wf(&self) -> bool {
        names_unique(self@)
    }

    pub fn new() -> (r: CommandSet<C>)
        ensures
            r@ == Seq::<Config<C>>::empty(),
            r.wf(),
    {
        CommandSet { configs: Vec::new() }
    }

    pub fn len(&self) -> (r: usize)
        ensures
            r == self@.len(),
    {
        self.configs.len()
    }

    pub fn get(&self, i: usize) -> (r: &Config<C>)
        requires
            i < self@.len(),
        ensures
            *r == self@[i as int],
    {
        &self.configs[i]
    }

    pub fn get_mut(&mut self, i: usize) -> (r: &mut Config<C>)
        requires
            i < old(self)@.len(),
        ensures
            *r == old(self)@[i as int],
            final(self)@ == old(self)@.update(i as int, *final(r)),
    {
        &mut self.configs[i]
    }

    /// Registers `config` under its name, handing back the configuration it replaces.
    pub fn insert(&mut self, config: Config<C>) -> (r: Option<Config<C>>)
        requires
            old(self).wf(),
        ensures
            final(self).wf(),
            final(self)@ == put_config(old(self)@, config),
            match r {
                Some(p) => exists|i: int| 0 <= i < old(self)@.len() && old(self)@[i] == p && p@.name == config@.name,
                None => !(exists|i: int| 0 <= i < old(self)@.len() && old(self)@[i]@.name == config@.name),
            },
    {
        let ghost before = self@;
        let mut i: usize = 0;
        while i < self.configs.len()
            invariant
                self@ == before,
                before == old(self)@,
                names_unique(before),
                0 <= i <= self@.len(),
                forall|j: int| 0 <= j < i ==> self@[j]@.name != config@.name,
            decreases self@.len() - i,
        {
            if same_text(self.configs[i].name(), config.name()) {
                let ghost k = i as int;
                let ghost cv = config;
                let mut prev = config;
                self.configs.set_and_swap(i, &mut prev);
                proof {
                    assert(self@ =~= before.update(k, cv));
                    let c = choose|c: int| 0 <= c < before.len() && before[c]@.name == cv@.name;
                    assert(before[c]@.name == before[k]@.name);
                    assert forall|a: int, b: int|
                        0 <= a < self@.len() && 0 <= b < self@.len() && #[trigger] self@[a]@.name
                            == #[trigger] self@[b]@.name implies a == b by {
                        if a != k && b == k {
                            assert(before[a]@.name == before[k]@.name);
                        }
                        if a == k && b != k {
                            assert(before[b]@.name == before[k]@.name);
                        }
                    }
                }
                return Some(prev);
            }
            i = i + 1;
        }
        self.configs.push(config);
        assert(self@ =~= before.push(config));
        None
    }
}

/// The configuration registered under `name`, if any.
pub open spec fn resolve<C>(cs: Seq<Config<C>>, name: Seq<char>) -> Option<Config<C>> {
    if exists|i: int| 0 <= i < cs.len() && cs[i]@.name == name {
        Some(cs[choose|i: int| 0 <= i < cs.len() && cs[i]@.name == name])
    } else {
        None
    }
}

pub open spec fn spaces(n: nat) -> Seq<char> {
    Seq::new(n, |i: int| ' ')
}

pub open spec fn max_name_len<C>(cs: Seq<Config<C>>) -> nat
    decreases cs.len(),
{
    if cs.len() == 0 {
        0
    } else {
        let m = max_name_len(cs.drop_last());
        if cs.last()@.name.len() > m {
            cs.last()@.name.len()
        } else {
            m
        }
    }
}

pub open spec fn max_help_len<C>(cs: Seq<Config<C>>) -> nat
    decreases cs.len(),
{
    if cs.len() == 0 {
        0
    } else {
        let m = max_help_len(cs.drop_last());
        if cs.last()@.help.len() > m {
            cs.last()@.help.len()
        } else {
            m
        }
    }
}

/// One line of the listing: the name right-aligned one column past the longest name, four
/// spaces, the help text, and spaces up to one column past the longest help text.
pub open spec fn help_line(name: Seq<char>, help: Seq<char>, name_max: nat, help_max: nat) -> Seq<char> {
    spaces((name_max + 1 - name.len()) as nat) + name + spaces(4) + help + spaces(
        (help_max + 1 - help.len()) as nat,
    ) + seq!['\n']
}

pub open spec fn help_lines<C>(cs: Seq<Config<C>>, name_max: nat, help_max: nat) -> Seq<char>
    decreases cs.len(),
{
    if cs.len() == 0 {
        Seq::empty()
    } else {
        help_lines(cs.drop_last(), name_max, help_max) + help_line(
            cs.last()@.name,
            cs.last()@.help,
            name_max,
            help_max,
        )
    }
}

/// The shell's help: its own text, a blank line, then one line for each command.
pub open spec fn help_text<C>(help: Seq<char>, cs: Seq<Config<C>>) -> Seq<char> {
    help + seq!['\n', '\n'] + help_lines(cs, max_name_len(cs), max_help_len(cs))
}

fn push_spaces(s: &mut String, n: usize)
    ensures
        final(s)@ == old(s)@ + spaces(n as nat),
{
    let space = char_string(' ');
    let mut k: usize = 0;
    while k < n
        invariant
            0 <= k <= n,
            space@ == seq![' '],
            s@ == old(s)@ + spaces(k as nat),
        decreases n - k,
    {
        s.append(space.as_str());
        k = k + 1;
        assert(s@ =~= old(s)@ + spaces(k as nat));
    }
}

/// What the loop does next.
#[derive(Clone, Copy, Debug, PartialEq, Eq, Structural)]
pub enum Phase {
    /// The startup line runs.
    Startup,
    /// The prompt is shown and a line read.
    Interactive,
    /// The loop has ended.
    Finished,
}

/// What happened since the loop last decided.
#[derive(Debug)]
pub enum Event {
    /// A line was carried out with this result.
    Done(Result<ReturnCode, CliError>),
    /// The input has no more lines.
    EndOfInput,
}

/// The loop's decision: its next phase, an error to print, and whether to say farewell.
#[derive(Clone, Debug)]
pub struct Step {
    pub next: Phase,
    pub report: Option<String>,
    pub farewell: bool,
}

/// Decides what the loop does after `event` in `phase`. Only an abort or the end of input
/// ends it; an error is reported and the prompt comes back.
pub fn next_step(phase: Phase, event: &Event) -> (r: Step)
    requires
        phase != Phase::Finished,
    ensures
        match event {
            Event::Done(Ok(ReturnCode::Abort)) => r.next == Phase::Finished && r.report is None
                && r.farewell == (phase == Phase::Interactive),
            Event::Done(Ok(ReturnCode::Continue)) => r.next == Phase::Interactive && r.report is None
                && !r.farewell,
            Event::Done(Err(e)) => r.report matches Some(m) && m@ == e.text() && r.next == Phase::Interactive
                && !r.farewell,
            Event::EndOfInput => r.next == Phase::Finished && r.report is None && r.farewell,
        },
{
    match event {
        Event::Done(Ok(ReturnCode::Abort)) => Step {
            next: Phase::Finished,
            report: None,
            farewell: phase == Phase::Interactive,
        },
        Event::Done(Ok(ReturnCode::Continue)) => Step { next: Phase::Interactive, report: None, farewell: false },
        Event::Done(Err(e)) => Step { next: Phase::Interactive, report: Some(e.message()), farewell: false },
        Event::EndOfInput => Step { next: Phase::Finished, report: None, farewell: true },
    }
}

/// A command whose name no other registered command has is what resolving that name gives,
/// and no other.
pub proof fn lemma_resolve_registered<C>(cs: Seq<Config<C>>, i: int)
    requires
        0 <= i < cs.len(),
        forall|j: int| 0 <= j < cs.len() && j != i ==> cs[j]@.name != cs[i]@.name,
    ensures
        resolve(cs, cs[i]@.name) == Some(cs[i]),
{
    let c = choose|c: int| 0 <= c < cs.len() && cs[c]@.name == cs[i]@.name;
    assert(c == i);
}

/// Right after a command is registered, resolving its name gives that command, whatever was
/// registered under the name before.
pub proof fn lemma_resolve_after_insert<C>(cs: Seq<Config<C>>, config: Config<C>)
    requires
        names_unique(cs),
    ensures
        names_unique(put_config(cs, config)),
        resolve(put_config(cs, config), config@.name) == Some(config),
{
    let after = put_config(cs, config);
    if exists|i: int| 0 <= i < cs.len() && cs[i]@.name == config@.name {
        let k = choose|i: int| 0 <= i < cs.len() && cs[i]@.name == config@.name;
        assert forall|a: int, b: int|
            0 <= a < after.len() && 0 <= b < after.len() && #[trigger] after[a]@.name == #[trigger] after[b]@.name
                implies a == b by {
            if a != k && b == k {
                assert(cs[a]@.name == cs[k]@.name);
            }
            if a == k && b != k {
                assert(cs[b]@.name == cs[k]@.name);
            }
        }
        lemma_resolve_registered(after, k);
    } else {
        let n = cs.len() as int;
        assert forall|a: int, b: int|
            0 <= a < after.len() && 0 <= b < after.len() && #[trigger] after[a]@.name == #[trigger] after[b]@.name
                implies a == b by {
            if a != n && b == n {
                assert(cs[a]@.name == config@.name);
            }
            if a == n && b != n {
                assert(cs[b]@.name == config@.name);
            }
        }
        lemma_resolve_registered(after, n);
    }
}

/// A shell: the registry of its commands and its own help text.
pub struct Shell<C> {
    commands: CommandSet<C>,
    help: String,
}

impl<C> Shell<C> {
    pub closed spec fn spec_commands(&self) -> Seq<Config<C>> {
        self.commands@
    }

    pub closed spec fn spec_help(&self) -> Seq<char> {
        self.help@
    }

    pub open spec fn wf(&self) -> bool {
        names_unique(self.spec_commands())
    }

    pub fn new(commands: CommandSet<C>, help: &str) -> (r: Shell<C>)
        requires
            commands.wf(),
        ensures
            r.spec_commands() == commands@,
            r.spec_help() == help@,
            r.wf(),
    {
        Shell { commands, help: help.to_owned() }
    }

    /// Where the command of this name is registered.
    fn position(&self, command_name: &str) -> (r: Option<usize>)
        ensures
            match r {
                Some(i) => i < self.spec_commands().len() && self.spec_commands()[i as int]@.name == command_name@,
                None => forall|i: int|
                    0 <= i < self.spec_commands().len() ==> self.spec_commands()[i]@.name != command_name@,
            },
    {
        let mut i: usize = 0;
        while i < self.commands.len()
            invariant
                0 <= i <= self.spec_commands().len(),
                forall|j: int| 0 <= j < i ==> self.spec_commands()[j]@.name != command_name@,
            decreases self.spec_commands().len() - i,
        {
            if same_text(self.commands.get(i).name(), command_name) {
                return Some(i);
            }
            i = i + 1;
        }
        None
    }

    /// The configuration registered under `command_name`.
    pub fn find_command_config(&self, command_name: &str) -> (r: Option<&Config<C>>)
        requires
            self.wf(),
        ensures
            match r {
                Some(c) => resolve(self.spec_commands(), command_name@) == Some(*c),
                None => resolve(self.spec_commands(), command_name@) is None,
            },
    {
        match self.position(command_name) {
            Some(i) => {
                let ghost cs = self.spec_commands();
                proof {
                    let c = choose|c: int| 0 <= c < cs.len() && cs[c]@.name == command_name@;
                    assert(cs[c]@.name == cs[i as int]@.name);
                }
                Some(self.commands.get(i))
            },
            None => None,
        }
    }

    /// The configuration registered under `command_name`, to be changed in place.
    pub fn find_command_config_mut(&mut self, command_name: &str) -> (r: Option<&mut Config<C>>)
        requires
            old(self).wf(),
        ensures
            match r {
                Some(c) => resolve(old(self).spec_commands(), command_name@) == Some(*c) && exists|i: int|
                    0 <= i < old(self).spec_commands().len() && old(self).spec_commands()[i]@.name
                        == command_name@ && final(self).spec_commands() == old(self).spec_commands().update(
                        i,
                        *final(c),
                    ),
                None => resolve(old(self).spec_commands(), command_name@) is None
                    && final(self).spec_commands() == old(self).spec_commands(),
            },
            final(self).spec_help() == old(self).spec_help(),
    {
        match self.position(command_name) {
            Some(i) => {
                let ghost cs = self.spec_commands();
                proof {
                    let c = choose|c: int| 0 <= c < cs.len() && cs[c]@.name == command_name@;
                    assert(cs[c]@.name == cs[i as int]@.name);
                }
                Some(self.commands.get_mut(i))
            },
            None => None,
        }
    }

    /// What the shell does with the line `input`.
    pub open spec fn outcome(&self, input: Seq<char>) -> LineOutcome<C> {
        let ws = words(input);
        if ws.len() == 0 {
            LineOutcome::Empty
        } else {
            match resolve(self.spec_commands(), ws[0]) {
                None => LineOutcome::UnknownCommand(ws[0]),
                Some(c) => match parse_line(input, c@.flags) {
                    Ok(v) => LineOutcome::Runs(c, v),
                    Err(f) => LineOutcome::Invalid(f),
                },
            }
        }
    }

    /// The prompt for `context`: its prompt entry, or the default, followed by `>`.
    pub fn make_shell_prompt(&self, context: &Context) -> (r: String)
        requires
            context.wf(),
        ensures
            r@ == prompt_text(context@),
    {
        let mut prompt = match context.get(CONTEXT_PROMPT_STRING) {
            Some(s) => s.clone(),
            None => String::from_str(DEFAULT_PROMPT),
        };
        let gt = char_string('>');
        prompt.append(gt.as_str());
        prompt
    }

    /// The first word of `input_text`, which names the command.
    pub fn extract_command_name(&self, input_text: &str) -> (r: Option<String>)
        ensures
            match r {
                Some(s) => words(input_text@).len() > 0 && s@ == words(input_text@)[0],
                None => words(input_text@).len() == 0,
            },
    {
        let ws = split_words(input_text);
        if ws.len() == 0 {
            None
        } else {
            Some(ws[0].clone())
        }
    }

    /// Resolves the command that `input_text` names and parses the line against it.
    pub fn parse_user_input<'a>(&'a self, input_text: &str) -> (r: Result<Option<Command<'a, C>>, CliError>)
        requires
            self.wf(),
        ensures
            match self.outcome(input_text@) {
                LineOutcome::Empty => r matches Ok(None),
                LineOutcome::UnknownCommand(n) => r matches Err(CliError::UnknownCommand(e)) && e.0@ == n,
                LineOutcome::Invalid(ParseFailure::UnknownFlag(q)) => r matches Err(CliError::UnknownFlag(e))
                    && e.0@ == q,
                LineOutcome::Invalid(ParseFailure::MissingArg(q)) => r matches Err(CliError::MissingArg(e))
                    && e.0@ == q,
                LineOutcome::Runs(c, v) => r matches Ok(Some(cmd)) && cmd@ == v && cmd.spec_config() == c
                    && cmd.wf(),
            },
    {
        let command_name = match self.extract_command_name(input_text) {
            // Nothing but white space: not an error, the prompt is shown again.
            None => {
                return Ok(None);
            },
            Some(n) => n,
        };
        let config = match self.find_command_config(command_name.as_str()) {
            None => {
                return Err(CliError::UnknownCommand(UnknownCommandError(command_name)));
            },
            Some(c) => c,
        };
        assert(input_text@.len() > 0) by {
            if input_text@.len() == 0 {
                assert(scan(input_text@) == (
                    Seq::<Seq<char>>::empty(),
                    Seq::<char>::empty(),
                ));
            }
        }
        let r = parse(input_text, config);
        assert(parse_result(input_text@, *config, r));
        r
    }

    /// The help listing: the shell's text, then each command's name and help.
    pub fn help(&self) -> (r: String)
        ensures
            r@ == help_text(self.spec_help(), self.spec_commands()),
    {
        let ghost cs = self.spec_commands();
        let n = self.commands.len();
        let mut name_max: usize = 0;
        let mut help_max: usize = 0;
        let mut i: usize = 0;
        while i < n
            invariant
                n == cs.len(),
                cs == self.spec_commands(),
                0 <= i <= n,
                name_max == max_name_len(cs.take(i as int)),
                help_max == max_help_len(cs.take(i as int)),
            decreases n - i,
        {
            let c = self.commands.get(i);
            assert(cs.take(i + 1).drop_last() =~= cs.take(i as int));
            let nl = c.name().unicode_len();
            let hl = c.help().unicode_len();
            if nl > name_max {
                name_max = nl;
            }
            if hl > help_max {
                help_max = hl;
            }
            i = i + 1;
        }
        assert(cs.take(n as int) =~= cs);
        let mut r = self.help.clone();
        let nl = char_string('\n');
        r.append(nl.as_str());
        r.append(nl.as_str());
        let ghost head = r@;
        assert(head =~= self.spec_help() + seq!['\n', '\n']);
        let mut i: usize = 0;
        assert(cs.take(0) =~= Seq::<Config<C>>::empty());
        while i < n
            invariant
                n == cs.len(),
                cs == self.spec_commands(),
                0 <= i <= n,
                nl@ == seq!['\n'],
                name_max == max_name_len(cs),
                help_max == max_help_len(cs),
                r@ == head + help_lines(cs.take(i as int), name_max as nat, help_max as nat),
            decreases n - i,
        {
            let c = self.commands.get(i);
            proof {
                lemma_max_lens(cs, i as int);
            }
            let name = c.name();
            let help = c.help();
            let ghost r0 = r@;
            push_spaces(&mut r, name_max - name.unicode_len());
            push_spaces(&mut r, 1);
            r.append(name);
            push_spaces(&mut r, 4);
            r.append(help);
            push_spaces(&mut r, help_max - help.unicode_len());
            push_spaces(&mut r, 1);
            r.append(nl.as_str());
            assert(cs.take(i + 1).drop_last() =~= cs.take(i as int));
            assert(r@ =~= r0 + help_line(c@.name, c@.help, name_max as nat, help_max as nat));
            i = i + 1;
        }
        assert(cs.take(n as int) =~= cs);
        r
    }
}

/// Every name and help text of `cs` is no longer than the longest.
proof fn lemma_max_lens<C>(cs: Seq<Config<C>>, i: int)
    requires
        0 <= i < cs.len(),
    ensures
        cs[i]@.name.len() <= max_name_len(cs),
        cs[i]@.help.len() <= max_help_len(cs),
    decreases cs.len(),
{
    if i < cs.len() - 1 {
        lemma_max_lens(cs.drop_last(), i);
    }
}

impl<C: Callback> Shell<C> {
    /// Parses `input_text` and runs the command it names. A line that cannot be run changes
    /// nothing.
    pub fn run_parsed_result(&self, input_text: &str, context: &mut Context) -> (r: Result<ReturnCode, CliError>)
        requires
            self.wf(),
        ensures
            match self.outcome(input_text@) {
                LineOutcome::Empty => r == Ok::<ReturnCode, CliError>(ReturnCode::Continue) && *final(context)
                    == *old(context),
                LineOutcome::UnknownCommand(n) => r matches Err(CliError::UnknownCommand(e)) && e.0@ == n
                    && *final(context) == *old(context),
                LineOutcome::Invalid(ParseFailure::UnknownFlag(q)) => r matches Err(CliError::UnknownFlag(e))
                    && e.0@ == q && *final(context) == *old(context),
                LineOutcome::Invalid(ParseFailure::MissingArg(q)) => r matches Err(CliError::MissingArg(e))
                    && e.0@ == q && *final(context) == *old(context),
                LineOutcome::Runs(_, _) => true,
            },
    {
        match self.parse_user_input(input_text) {
            Ok(Some(command)) => command.execute(self, context),
            Ok(None) => Ok(ReturnCode::Continue),
            Err(error) => Err(error),
        }
    }
}

} // verus!
