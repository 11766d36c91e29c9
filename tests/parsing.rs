use cli::command::Command;
use cli::config::{Callback, Config, ReturnCode};
use cli::context::Context;
use cli::error::CliError;
use cli::flag::{
    extract_flag, is_flag, is_long, is_short, query_flag, query_flag_spec, Arg, ArgSpec, Flag, FlagQuery,
    FlagSet, FlagSpec, FlagSpecSet,
};
use cli::operand::{MissingOperandError, Operand};
use cli::parser::parse;
use cli::shell::{CommandSet, Shell};

#[derive(Clone, Debug)]
enum Action {
    Add,
    Exit,
}

impl Callback for Action {
    fn call(&self, command: &Command<'_, Self>, _shell: &Shell<Self>, _context: &mut Context) -> Result<ReturnCode, CliError> {
        match self {
            Action::Exit => Ok(ReturnCode::Abort),
            Action::Add => {
                if command.operands().len() != 2 {
                    return Err(CliError::MissingOperand(MissingOperandError(command.operands().clone(), 2)));
                }
                Ok(ReturnCode::Continue)
            }
        }
    }
}

fn add_config() -> Config<Action> {
    let mut specs = FlagSpecSet::new();
    specs.insert(FlagSpec::new("verbose", 'v', ArgSpec::NoArg, "Print more info"));
    specs.insert(FlagSpec::new("modulo", 'm', ArgSpec::Required, "Perform modulo on the resulting addition"));
    specs.insert(FlagSpec::new("color", 'c', ArgSpec::Optional, "Colour the output"));
    Config::new("add", specs, "Add two numbers together", Action::Add)
}

fn operand_values(c: &Command<'_, Action>) -> Vec<String> {
    c.operands().iter().map(|o| o.value().to_string()).collect()
}

fn flag_names(c: &Command<'_, Action>) -> Vec<String> {
    (0..c.flags().len()).map(|i| c.flags().get(i).spec().id().name().to_string()).collect()
}

#[test]
fn plain_operands_keep_their_order() {
    let config = add_config();
    let c = parse("add 3 4", &config).unwrap().unwrap();
    assert_eq!(c.flags().len(), 0);
    assert_eq!(operand_values(&c), vec!["3", "4"]);
    assert_eq!(c.config().name(), "add");
}

#[test]
fn short_flag_without_argument() {
    let config = add_config();
    let c = parse("add -v 3 4", &config).unwrap().unwrap();
    assert_eq!(flag_names(&c), vec!["verbose"]);
    assert_eq!(c.flags().get(0).get_arg(), &Arg::NoArg);
    assert_eq!(operand_values(&c), vec!["3", "4"]);
}

#[test]
fn required_argument_takes_next_word() {
    let config = add_config();
    let c = parse("add --modulo 3 4", &config).unwrap().unwrap();
    assert_eq!(flag_names(&c), vec!["modulo"]);
    assert_eq!(c.flags().get(0).get_arg(), &Arg::Required("3".to_string()));
    assert_eq!(operand_values(&c), vec!["4"]);
}

#[test]
fn required_argument_missing_at_end() {
    let config = add_config();
    match parse("add --modulo", &config) {
        Err(CliError::MissingArg(e)) => assert_eq!(e.0, FlagQuery::Name("modulo".to_string())),
        other => panic!("unexpected {:?}", other.map(|c| c.is_some())),
    }
}

#[test]
fn required_argument_missing_before_flag() {
    let config = add_config();
    match parse("add -m -v", &config) {
        Err(CliError::MissingArg(e)) => assert_eq!(e.0, FlagQuery::Short('m')),
        other => panic!("unexpected {:?}", other.map(|c| c.is_some())),
    }
}

#[test]
fn unknown_flag_is_refused() {
    let config = add_config();
    match parse("add --bogus 1 2", &config) {
        Err(CliError::UnknownFlag(e)) => {
            assert_eq!(e.0, FlagQuery::Name("bogus".to_string()));
            assert_eq!(e.message(), "unrecognized flag '--bogus'");
        }
        other => panic!("unexpected {:?}", other.map(|c| c.is_some())),
    }
}

#[test]
fn repeated_flag_is_bound_once() {
    let config = add_config();
    let c = parse("add -v -v", &config).unwrap().unwrap();
    assert_eq!(flag_names(&c), vec!["verbose"]);
    assert_eq!(c.flags().len(), 1);
    let c = parse("add -m 5 --modulo 7 1", &config).unwrap().unwrap();
    assert_eq!(c.flags().len(), 1);
    assert_eq!(c.flags().get(0).get_arg(), &Arg::Required("7".to_string()));
    assert_eq!(operand_values(&c), vec!["1"]);
}

#[test]
fn parsing_twice_gives_equal_commands() {
    let config = add_config();
    let line = "add -c red --modulo 9 1 2 -v";
    let a = parse(line, &config).unwrap().unwrap();
    let b = parse(line, &config).unwrap().unwrap();
    assert_eq!(operand_values(&a), operand_values(&b));
    assert_eq!(flag_names(&a), flag_names(&b));
    for i in 0..a.flags().len() {
        assert_eq!(a.flags().get(i).get_arg(), b.flags().get(i).get_arg());
    }
}

// An optional-argument flag with no free word after it is dropped, not recorded without a value.
#[test]
fn optional_flag_without_value_is_dropped() {
    let config = add_config();
    let c = parse("add 1 -c", &config).unwrap().unwrap();
    assert_eq!(c.flags().len(), 0);
    assert_eq!(operand_values(&c), vec!["1"]);
    let c = parse("add -c -v 2", &config).unwrap().unwrap();
    assert_eq!(flag_names(&c), vec!["verbose"]);
    assert_eq!(operand_values(&c), vec!["2"]);
}

#[test]
fn optional_flag_with_value() {
    let config = add_config();
    let c = parse("add --color blue", &config).unwrap().unwrap();
    assert_eq!(c.flags().get(0).get_arg(), &Arg::Optional(Some("blue".to_string())));
    assert_eq!(c.flags().len(), 1);
    assert!(operand_values(&c).is_empty());
}

#[test]
fn empty_line_parses_to_nothing() {
    let config = add_config();
    assert!(matches!(parse("", &config), Ok(None)));
}

#[test]
fn words_split_on_any_white_space() {
    let config = add_config();
    let c = parse("  add\t1 \u{3000}2\n", &config).unwrap().unwrap();
    assert_eq!(operand_values(&c), vec!["1", "2"]);
}

#[test]
fn glued_short_flag_is_its_first_character() {
    let config = add_config();
    let c = parse("add -vx 1", &config).unwrap().unwrap();
    assert_eq!(flag_names(&c), vec!["verbose"]);
    assert_eq!(operand_values(&c), vec!["1"]);
}

#[test]
fn flag_shapes() {
    assert!(is_long("--a"));
    assert!(!is_long("--"));
    assert!(!is_long("-a"));
    assert!(is_short("-a"));
    assert!(is_short("--"));
    assert!(!is_short("-"));
    assert!(!is_flag("a-b"));
    assert!(is_flag("-5"));
    assert_eq!(extract_flag("--name"), Some(FlagQuery::Name("name".to_string())));
    assert_eq!(extract_flag("-abc"), Some(FlagQuery::Short('a')));
    assert_eq!(extract_flag("--"), Some(FlagQuery::Short('-')));
    assert_eq!(extract_flag("plain"), None);
    assert_eq!(FlagQuery::Short('v').text(), "-v");
    assert_eq!(FlagQuery::Name("all".to_string()).text(), "--all");
}

#[test]
fn spec_lookup_by_either_name() {
    let config = add_config();
    let by_short = query_flag_spec(&FlagQuery::Short('m'), config.get_flags()).unwrap();
    assert_eq!(by_short.id().name(), "modulo");
    assert_eq!(by_short.get_arg_spec(), &ArgSpec::Required);
    let by_name = query_flag_spec(&FlagQuery::Name("verbose".to_string()), config.get_flags()).unwrap();
    assert_eq!(by_name.id().short(), 'v');
    assert_eq!(by_name.help(), "Print more info");
    assert!(query_flag_spec(&FlagQuery::Short('z'), config.get_flags()).is_none());
}

#[test]
fn spec_set_replaces_same_identity() {
    let mut specs = FlagSpecSet::new();
    assert!(specs.insert(FlagSpec::new("verbose", 'v', ArgSpec::NoArg, "first")));
    assert!(specs.insert(FlagSpec::new("verbose", 'V', ArgSpec::NoArg, "other short")));
    assert!(!specs.insert(FlagSpec::new("verbose", 'v', ArgSpec::Optional, "second")));
    assert_eq!(specs.len(), 2);
    assert_eq!(specs.get(0).help(), "second");
    assert_eq!(specs.get(0).get_arg_spec(), &ArgSpec::Optional);
}

#[test]
fn flag_set_lookup_and_replace() {
    let verbose = FlagSpec::new("verbose", 'v', ArgSpec::NoArg, "");
    let level = FlagSpec::new("level", 'l', ArgSpec::Required, "");
    let mut flags = FlagSet::new();
    assert!(flags.replace(Flag::new(&verbose, Arg::NoArg)).is_none());
    assert!(flags.replace(Flag::new(&level, Arg::Required("1".to_string()))).is_none());
    let old = flags.replace(Flag::new(&level, Arg::Required("2".to_string()))).unwrap();
    assert_eq!(old.get_arg(), &Arg::Required("1".to_string()));
    assert_eq!(flags.len(), 2);
    let found = query_flag(&FlagQuery::Short('l'), &flags).unwrap();
    assert_eq!(found.get_arg(), &Arg::Required("2".to_string()));
    assert!(query_flag(&FlagQuery::Name("quiet".to_string()), &flags).is_none());
}

#[test]
fn set_arg_keeps_the_variant() {
    let opt = FlagSpec::new("color", 'c', ArgSpec::Optional, "");
    let none = FlagSpec::new("verbose", 'v', ArgSpec::NoArg, "");
    let req = FlagSpec::new("modulo", 'm', ArgSpec::Required, "");
    let mut f = Flag::new(&opt, Arg::Optional(None));
    assert!(f.set_arg(Some("red".to_string())).is_ok());
    assert_eq!(f.get_arg(), &Arg::Optional(Some("red".to_string())));
    let mut g = Flag::new(&none, Arg::NoArg);
    assert!(g.set_arg(Some("x".to_string())).is_err());
    assert_eq!(g.get_arg(), &Arg::NoArg);
    assert!(g.set_arg(None).is_ok());
    let mut h = Flag::new(&req, Arg::Required("1".to_string()));
    assert!(h.set_arg(Some("2".to_string())).is_ok());
    assert_eq!(h.get_arg(), &Arg::Required("2".to_string()));
    assert_eq!(h.spec().id().name(), "modulo");
}

#[test]
fn arg_raw_and_get() {
    assert_eq!(Arg::NoArg.raw(), None);
    assert_eq!(Arg::Optional(None).raw(), None);
    assert_eq!(Arg::Optional(Some("a".to_string())).raw(), Some("a".to_string()));
    assert_eq!(Arg::Required("b".to_string()).raw(), Some("b".to_string()));
    let got: Option<String> = Arg::Required("b".to_string()).get().unwrap();
    assert_eq!(got, Some("b".to_string()));
    let none: Option<String> = Arg::NoArg.get().unwrap();
    assert_eq!(none, None);
}

#[test]
fn operand_and_missing_operand_message() {
    let o = Operand::new("42");
    assert_eq!(o.value(), "42");
    let e = MissingOperandError(vec![o], 2);
    assert_eq!(e.message(), "not enough operands provided. Received 1, expected 2");
    let e = MissingOperandError(Vec::new(), 130);
    assert_eq!(e.message(), "not enough operands provided. Received 0, expected 130");
}

#[test]
fn command_accessors() {
    let config = add_config();
    let mut c = parse("add 1", &config).unwrap().unwrap();
    c.operands_mut().push(Operand::new("2"));
    assert_eq!(operand_values(&c), vec!["1", "2"]);
    let verbose = query_flag_spec(&FlagQuery::Short('v'), config.get_flags()).unwrap();
    c.flags_mut().replace(Flag::new(verbose, Arg::NoArg));
    assert_eq!(flag_names(&c), vec!["verbose"]);
    let d = Command::new(&config, FlagSet::new(), vec![Operand::new("x")]);
    assert_eq!(operand_values(&d), vec!["x"]);
    assert_eq!(config.help(), "Add two numbers together");
    assert!(matches!(config.callback(), Action::Add));
}

#[test]
fn execute_runs_the_callback() {
    let mut commands = CommandSet::new();
    commands.insert(add_config());
    let shell = Shell::new(commands, "test shell");
    let mut context = Context::new();
    let config = shell.find_command_config("add").unwrap();
    let c = parse("add 1 2", config).unwrap().unwrap();
    assert!(matches!(c.execute(&shell, &mut context), Ok(ReturnCode::Continue)));
    let c = parse("add 1", config).unwrap().unwrap();
    match c.execute(&shell, &mut context) {
        Err(CliError::MissingOperand(e)) => assert_eq!(e.1, 2),
        _ => panic!("expected a missing operand"),
    }
    let _ = Action::Exit;
}
