use crate::command::{Command, CommandView};
use crate::config::Config;
use crate::error::CliError;
use crate::flag::{
    extract_flag, find_spec, flags_wf, is_flag, is_flag_text, put_flag, query_flag_spec, query_of, Arg,
    ArgSpec, ArgView, Flag, FlagMissingArgError, FlagQueryView, FlagSet, FlagSpecView, FlagView,
    UnknownFlagError,
};
use crate::operand::{operand_texts, Operand};
use crate::text::{arguments, split_words, texts, words};
use vstd::prelude::*;

verus! {

/// Why a command line does not fit a command's flags.
pub enum ParseFailure {
    UnknownFlag(FlagQueryView),
    MissingArg(FlagQueryView),
}

/// The rest of a parse: `ws` are the words still to read against `specs`, `flags` and
/// `operands` what has been read so far.
pub open spec fn parse_words(
    ws: Seq<Seq<char>>,
    specs: Seq<FlagSpecView>,
    flags: Seq<FlagView>,
    operands: Seq<Seq<char>>,
) -> Result<CommandView, ParseFailure>
    decreases ws.len(),
{
    if ws.len() == 0 {
        Ok(CommandView { flags, operands })
    } else {
        let t = ws[0];
        let rest = ws.drop_first();
        match query_of(t) {
            None => parse_words(rest, specs, flags, operands.push(t)),
            Some(q) => match find_spec(q, specs) {
                None => Err(ParseFailure::UnknownFlag(q)),
                Some(s) => {
                    let next_free = rest.len() > 0 && !is_flag_text(rest[0]);
                    match s.arg_spec {
                        ArgSpec::NoArg => parse_words(
                            rest,
                            specs,
                            put_flag(flags, FlagView { spec: s, arg: ArgView::NoArg }),
                            operands,
                        ),
                        ArgSpec::Optional => if next_free {
                            parse_words(
                                rest.drop_first(),
                                specs,
                                put_flag(flags, FlagView { spec: s, arg: ArgView::Optional(Some(rest[0])) }),
                                operands,
                            )
                        } else {
                            // The flag is dropped: nothing is recorded for it.
                            parse_words(rest, specs, flags, operands)
                        },
                        ArgSpec::Required => if next_free {
                            parse_words(
                                rest.drop_first(),
                                specs,
                                put_flag(flags, FlagView { spec: s, arg: ArgView::Required(rest[0]) }),
                                operands,
                            )
                        } else {
                            Err(ParseFailure::MissingArg(q))
                        },
                    }
                },
            },
        }
    }
}

/// What parsing the line `input` against the flags `specs` gives.
pub open spec fn parse_line(input: Seq<char>, specs: Seq<FlagSpecView>) -> Result<
    CommandView,
    ParseFailure,
> {
    parse_words(arguments(input), specs, Seq::empty(), Seq::empty())
}

/// Whether `r` is what `parse` owes for `input_text` and `config`.
pub open spec fn parse_result<'a, C>(
    input_text: Seq<char>,
    config: Config<C>,
    r: Result<Option<Command<'a, C>>, CliError>,
) -> bool {
    if input_text.len() == 0 {
        r matches Ok(None)
    } else {
        match parse_line(input_text, config@.flags) {
            Ok(v) => r matches Ok(Some(c)) && c@ == v && c.spec_config() == config && c.wf(),
            Err(ParseFailure::UnknownFlag(q)) => r matches Err(CliError::UnknownFlag(e)) && e.0@ == q,
            Err(ParseFailure::MissingArg(q)) => r matches Err(CliError::MissingArg(e)) && e.0@ == q,
        }
    }
}

/// Reads the command line `input_text` against `config`'s flags. Its first word names the
/// command and is skipped; a flag's argument is always the next word.
pub fn parse<'a, C>(input_text: &str, config: &'a Config<C>) -> (r: Result<Option<Command<'a, C>>, CliError>)
    ensures
        parse_result(input_text@, *config, r),
{
    if input_text.unicode_len() == 0 {
        return Ok(None);
    }
    let ws = split_words(input_text);
    let ghost all = texts(ws@);
    let ghost specs = config@.flags;
    let n = ws.len();
    let mut flags: FlagSet<'a> = FlagSet::new();
    let mut operands: Vec<Operand> = Vec::new();
    let mut i: usize = if n == 0 { 0 } else { 1 };
    proof {
        assert(operand_texts(operands@) =~= Seq::<Seq<char>>::empty());
        assert(all == words(input_text@));
        if n > 0 {
            assert(all.skip(1) =~= all.drop_first());
        } else {
            assert(all.skip(0) =~= Seq::<Seq<char>>::empty());
        }
    }
    while i < n
        invariant
            n == ws@.len(),
            all == texts(ws@),
            specs == config@.flags,
            0 <= i <= n,
            all.len() == 0 ==> i == 0,
            flags.wf(),
            parse_line(input_text@, specs) == parse_words(
                all.skip(i as int),
                specs,
                flags@,
                operand_texts(operands@),
            ),
        decreases n - i,
    {
        let ghost rest = all.skip(i as int);
        assert(rest[0] == all[i as int]);
        assert(rest.drop_first() =~= all.skip(i + 1));
        let token = ws[i].as_str();
        match extract_flag(token) {
            None => {
                let ghost before = operands@;
                operands.push(Operand::new(token));
                assert(operand_texts(operands@) =~= operand_texts(before).push(all[i as int]));
                i = i + 1;
            },
            Some(query) => {
                let spec = match query_flag_spec(&query, config.get_flags()) {
                    Some(s) => s,
                    None => {
                        return Err(CliError::UnknownFlag(UnknownFlagError(query)));
                    },
                };
                let next_free = i + 1 < n && !is_flag(ws[i + 1].as_str());
                proof {
                    if i + 1 < n {
                        assert(rest.drop_first()[0] == all[i + 1]);
                        assert(rest.drop_first().drop_first() =~= all.skip(i + 2));
                    }
                }
                let arg = match spec.get_arg_spec() {
                    ArgSpec::NoArg => {
                        i = i + 1;
                        Arg::NoArg
                    },
                    ArgSpec::Optional => {
                        if !next_free {
                            // Without a value the flag is dropped, not recorded as given.
                            i = i + 1;
                            continue ;
                        }
                        let value = ws[i + 1].clone();
                        i = i + 2;
                        Arg::Optional(Some(value))
                    },
                    ArgSpec::Required => {
                        if !next_free {
                            return Err(CliError::MissingArg(FlagMissingArgError(query)));
                        }
                        let value = ws[i + 1].clone();
                        i = i + 2;
                        Arg::Required(value)
                    },
                };
                // A flag given again replaces the earlier one.
                flags.replace(Flag::new(spec, arg));
            },
        }
    }
    assert(all.skip(i as int) =~= Seq::<Seq<char>>::empty());
    Ok(Some(Command::new(config, flags, operands)))
}

/// Parsing is a function of the line and the configuration alone: two parses of the same
/// line against the same configuration give equal commands, or the same error.
pub proof fn lemma_parse_deterministic<'a, 'b, C>(
    input_text: Seq<char>,
    config: Config<C>,
    r1: Result<Option<Command<'a, C>>, CliError>,
    r2: Result<Option<Command<'b, C>>, CliError>,
)
    requires
        parse_result(input_text, config, r1),
        parse_result(input_text, config, r2),
    ensures
        match (r1, r2) {
            (Ok(None), Ok(None)) => true,
            (Ok(Some(a)), Ok(Some(b))) => a@ == b@ && a.spec_config() == b.spec_config(),
            (Err(CliError::UnknownFlag(a)), Err(CliError::UnknownFlag(b))) => a.0@ == b.0@,
            (Err(CliError::MissingArg(a)), Err(CliError::MissingArg(b))) => a.0@ == b.0@,
            _ => false,
        },
{
}

/// A flag bound again replaces its earlier binding: the set holds one flag of that identity,
/// the last one, as if the earlier one had never been given.
pub proof fn lemma_rebind_last_wins(flags: Seq<FlagView>, first: FlagView, last: FlagView)
    requires
        flags_wf(flags),
        first.id() == last.id(),
        first.arg.fits(first.spec.arg_spec),
        last.arg.fits(last.spec.arg_spec),
    ensures
        put_flag(put_flag(flags, first), last) == put_flag(flags, last),
        flags_wf(put_flag(flags, last)),
        exists|i: int|
            0 <= i < put_flag(flags, last).len() && put_flag(flags, last)[i] == last && forall|j: int|
                0 <= j < put_flag(flags, last).len() && #[trigger] put_flag(flags, last)[j].id() == last.id()
                    ==> j == i,
{
    let once = put_flag(flags, first);
    let after = put_flag(flags, last);
    if exists|i: int| 0 <= i < flags.len() && flags[i].id() == last.id() {
        let k = choose|i: int| 0 <= i < flags.len() && flags[i].id() == last.id();
        let k1 = choose|i: int| 0 <= i < flags.len() && flags[i].id() == first.id();
        assert(flags[k1].id() == flags[k].id());
        assert(once == flags.update(k, first));
        assert(once[k].id() == last.id());
        let k2 = choose|i: int| 0 <= i < once.len() && once[i].id() == last.id();
        if k2 != k {
            assert(flags[k2].id() == flags[k].id());
        }
        assert(put_flag(once, last) =~= after);
        assert forall|a: int, b: int|
            0 <= a < after.len() && 0 <= b < after.len() && #[trigger] after[a].id() == #[trigger] after[b].id()
                implies a == b by {
            if a != k && b == k {
                assert(flags[a].id() == flags[k].id());
            }
            if a == k && b != k {
                assert(flags[b].id() == flags[k].id());
            }
        }
        assert forall|a: int| 0 <= a < after.len() implies #[trigger] after[a].arg.fits(after[a].spec.arg_spec) by {
            if a != k {
                assert(after[a] == flags[a]);
            }
        }
        assert(after[k] == last);
    } else {
        let n = flags.len() as int;
        assert(once == flags.push(first));
        assert(once[n].id() == last.id());
        let k2 = choose|i: int| 0 <= i < once.len() && once[i].id() == last.id();
        if k2 != n {
            assert(flags[k2].id() == last.id());
        }
        assert(put_flag(once, last) =~= after);
        assert forall|a: int, b: int|
            0 <= a < after.len() && 0 <= b < after.len() && #[trigger] after[a].id() == #[trigger] after[b].id()
                implies a == b by {
            if a != n && b == n {
                assert(flags[a].id() == last.id());
            }
            if a == n && b != n {
                assert(flags[b].id() == last.id());
            }
        }
        assert forall|a: int| 0 <= a < after.len() implies #[trigger] after[a].arg.fits(after[a].spec.arg_spec) by {
            if a != n {
                assert(after[a] == flags[a]);
            }
        }
        assert(after[n] == last);
    }
}

} // verus!
