use cli::command::Command;
use cli::config::{Callback, Config, ReturnCode};
use cli::context::Context;
use cli::error::CliError;
use cli::flag::{ArgSpec, FlagQuery, FlagSpec, FlagSpecSet};
use cli::operand::MissingOperandError;
use cli::shell::{next_step, startup_line, CommandSet, Event, Phase, Shell, UnknownCommandError};

#[derive(Clone, Debug, PartialEq)]
enum Job {
    Add,
    Help,
    Exit,
    Remember,
}

impl Callback for Job {
    fn call(&self, command: &Command<'_, Self>, _shell: &Shell<Self>, context: &mut Context) -> Result<ReturnCode, CliError> {
        match self {
            Job::Exit => Ok(ReturnCode::Abort),
            Job::Help => Ok(ReturnCode::Continue),
            Job::Remember => {
                context.insert("prompt", command.operands()[0].value());
                Ok(ReturnCode::Continue)
            }
            Job::Add => {
                if command.operands().len() != 2 {
                    return Err(CliError::MissingOperand(MissingOperandError(command.operands().clone(), 2)));
                }
                Ok(ReturnCode::Continue)
            }
        }
    }
}

fn demo_shell() -> Shell<Job> {
    let mut specs = FlagSpecSet::new();
    specs.insert(FlagSpec::new("verbose", 'v', ArgSpec::NoArg, "Print more info"));
    specs.insert(FlagSpec::new("modulo", 'm', ArgSpec::Required, "Perform modulo on the resulting addition"));
    let mut commands = CommandSet::new();
    commands.insert(Config::new("add", specs, "Add two numbers together", Job::Add));
    commands.insert(Config::new("help", FlagSpecSet::new(), "Print this help message", Job::Help));
    commands.insert(Config::new("exit", FlagSpecSet::new(), "Quit the command line interface.", Job::Exit));
    commands.insert(Config::new("name", FlagSpecSet::new(), "Set the prompt", Job::Remember));
    Shell::new(commands, "Rudimentary general purpose command line interface.")
}

#[test]
fn registered_names_resolve_to_their_config() {
    let shell = demo_shell();
    for (name, job) in [("add", Job::Add), ("help", Job::Help), ("exit", Job::Exit), ("name", Job::Remember)] {
        let c = shell.find_command_config(name).unwrap();
        assert_eq!(c.name(), name);
        assert_eq!(c.callback(), &job);
    }
    assert!(shell.find_command_config("ad").is_none());
    assert!(shell.find_command_config("ADD").is_none());
}

#[test]
fn registering_a_name_again_replaces_it() {
    let mut commands = CommandSet::new();
    assert!(commands.insert(Config::new("go", FlagSpecSet::new(), "first", Job::Help)).is_none());
    let old = commands.insert(Config::new("go", FlagSpecSet::new(), "second", Job::Exit)).unwrap();
    assert_eq!(old.help(), "first");
    assert_eq!(commands.len(), 1);
    let shell = Shell::new(commands, "");
    let c = shell.find_command_config("go").unwrap();
    assert_eq!(c.help(), "second");
    assert_eq!(c.callback(), &Job::Exit);
}

#[test]
fn find_config_mut_changes_in_place() {
    let mut shell = demo_shell();
    let c = shell.find_command_config_mut("help").unwrap();
    *c = Config::new("help", FlagSpecSet::new(), "Show help", Job::Help);
    assert_eq!(shell.find_command_config("help").unwrap().help(), "Show help");
    assert!(shell.find_command_config_mut("nothing").is_none());
}

#[test]
fn abort_ends_the_loop_with_farewell() {
    let step = next_step(Phase::Interactive, &Event::Done(Ok(ReturnCode::Abort)));
    assert_eq!(step.next, Phase::Finished);
    assert!(step.farewell);
    assert!(step.report.is_none());
}

#[test]
fn continue_shows_the_prompt_again() {
    let step = next_step(Phase::Interactive, &Event::Done(Ok(ReturnCode::Continue)));
    assert_eq!(step.next, Phase::Interactive);
    assert!(!step.farewell);
    assert!(step.report.is_none());
}

#[test]
fn errors_are_reported_and_the_loop_goes_on() {
    let err = CliError::UnknownCommand(UnknownCommandError("foo".to_string()));
    let step = next_step(Phase::Interactive, &Event::Done(Err(err)));
    assert_eq!(step.next, Phase::Interactive);
    assert_eq!(step.report, Some("Error: unknown command foo".to_string()));
    assert!(!step.farewell);
    let err = CliError::Failed("boom".to_string());
    let step = next_step(Phase::Startup, &Event::Done(Err(err)));
    assert_eq!(step.next, Phase::Interactive);
    assert_eq!(step.report, Some("boom".to_string()));
}

#[test]
fn startup_abort_ends_without_farewell() {
    let step = next_step(Phase::Startup, &Event::Done(Ok(ReturnCode::Abort)));
    assert_eq!(step.next, Phase::Finished);
    assert!(!step.farewell);
}

#[test]
fn end_of_input_acts_as_abort() {
    let step = next_step(Phase::Interactive, &Event::EndOfInput);
    assert_eq!(step.next, Phase::Finished);
    assert!(step.farewell);
}

#[test]
fn run_line_through_the_shell() {
    let shell = demo_shell();
    let mut context = Context::new();
    assert!(matches!(shell.run_parsed_result("   ", &mut context), Ok(ReturnCode::Continue)));
    assert!(matches!(shell.run_parsed_result("", &mut context), Ok(ReturnCode::Continue)));
    assert!(matches!(shell.run_parsed_result("exit", &mut context), Ok(ReturnCode::Abort)));
    assert!(matches!(shell.run_parsed_result("add 1 2", &mut context), Ok(ReturnCode::Continue)));
    match shell.run_parsed_result("sub 1 2", &mut context) {
        Err(CliError::UnknownCommand(e)) => {
            assert_eq!(e.0, "sub");
            assert_eq!(e.message(), "Error: unknown command sub");
        }
        _ => panic!("expected an unknown command"),
    }
    match shell.run_parsed_result("add --bogus 1 2", &mut context) {
        Err(CliError::UnknownFlag(e)) => assert_eq!(e.0, FlagQuery::Name("bogus".to_string())),
        _ => panic!("expected an unknown flag"),
    }
    match shell.run_parsed_result("add --modulo", &mut context) {
        Err(e @ CliError::MissingArg(_)) => assert_eq!(e.message(), "missing argument for flag '--modulo'"),
        _ => panic!("expected a missing argument"),
    }
    match shell.run_parsed_result("add 1", &mut context) {
        Err(e) => assert_eq!(e.message(), "not enough operands provided. Received 1, expected 2"),
        _ => panic!("expected missing operands"),
    }
}

#[test]
fn parse_user_input_outcomes() {
    let shell = demo_shell();
    assert!(matches!(shell.parse_user_input(" \t "), Ok(None)));
    assert!(matches!(shell.parse_user_input("nope"), Err(CliError::UnknownCommand(_))));
    let c = shell.parse_user_input("add -v 3 4").unwrap().unwrap();
    assert_eq!(c.config().name(), "add");
    assert_eq!(c.flags().len(), 1);
    assert_eq!(c.operands().len(), 2);
}

#[test]
fn command_name_is_the_first_word() {
    let shell = demo_shell();
    assert_eq!(shell.extract_command_name("  add 1 2"), Some("add".to_string()));
    assert_eq!(shell.extract_command_name("\t"), None);
    assert_eq!(shell.extract_command_name(""), None);
}

#[test]
fn prompt_defaults_and_follows_context() {
    let shell = demo_shell();
    let mut context = Context::new();
    assert_eq!(shell.make_shell_prompt(&context), "#>");
    assert!(matches!(shell.run_parsed_result("name cli", &mut context), Ok(ReturnCode::Continue)));
    assert_eq!(shell.make_shell_prompt(&context), "cli>");
}

#[test]
fn startup_line_comes_from_context() {
    let mut context = Context::new();
    assert_eq!(startup_line(&context), "");
    context.insert("on_run", "help");
    assert_eq!(startup_line(&context), "help");
}

#[test]
fn context_insert_replaces() {
    let mut context = Context::new();
    assert_eq!(context.insert("k", "1"), None);
    assert_eq!(context.insert("j", "2"), None);
    assert_eq!(context.insert("k", "3"), Some("1".to_string()));
    assert_eq!(context.get("k"), Some(&"3".to_string()));
    assert_eq!(context.get("j"), Some(&"2".to_string()));
    assert_eq!(context.get("x"), None);
}

#[test]
fn help_lists_commands_aligned() {
    let mut commands = CommandSet::new();
    commands.insert(Config::new("add", FlagSpecSet::new(), "Add two numbers together", Job::Add));
    commands.insert(Config::new("help", FlagSpecSet::new(), "Print this help message", Job::Help));
    commands.insert(Config::new("exit", FlagSpecSet::new(), "Quit the command line interface.", Job::Exit));
    let shell = Shell::new(commands, "Rudimentary general purpose command line interface.");
    let expected = String::new()
        + "Rudimentary general purpose command line interface.\n\n"
        + "  add    Add two numbers together         \n"
        + " help    Print this help message          \n"
        + " exit    Quit the command line interface. \n";
    assert_eq!(shell.help(), expected);
}

#[test]
fn help_of_an_empty_shell() {
    let shell: Shell<Job> = Shell::new(CommandSet::new(), "Nothing here.");
    assert_eq!(shell.help(), "Nothing here.\n\n");
}
