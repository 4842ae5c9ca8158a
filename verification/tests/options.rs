use tmplt::arg_parser::{ArgsParser, CommandLineArgs, Flag, Flags, ParsingError};
use tmplt::logger::LogStatus;

fn raw(args: &[&str]) -> Vec<String> {
    args.iter().map(|s| s.to_string()).collect()
}

#[test]
fn a_generate_invocation_is_parsed_whole() {
    let parser = ArgsParser::new(raw(&["tmplt", "gen", "demo.tmplt", "--sl"]));
    let options = parser.parse_options().expect("every flag is known");
    assert_eq!(options.get_command(), CommandLineArgs::Generate);
    assert_eq!(options.get_file(), Some("demo.tmplt".to_string()));
    assert!(*options.get_save_logs_flag());
    assert_eq!(options.get_batch_size_flag(), 10);
}

#[test]
fn the_batch_size_flag_overrides_the_default() {
    let parser = ArgsParser::new(raw(&["tmplt", "g", "demo.tmplt", "--batch-size=50"]));
    let options = parser.parse_options().expect("every flag is known");
    assert_eq!(options.get_batch_size_flag(), 50);
    assert!(!*options.get_save_logs_flag());
}

#[test]
fn a_misused_batch_size_flag_is_an_error() {
    let parser = ArgsParser::new(raw(&["tmplt", "gen", "demo.tmplt", "--batch-size"]));
    let err = parser.parse_options().unwrap_err();
    assert!(!err.no_args());

    let parser = ArgsParser::new(raw(&["tmplt", "gen", "demo.tmplt", "--batch-size=ten"]));
    assert!(parser.parse_options().is_err());
}

#[test]
fn an_unknown_flag_is_an_error() {
    let parser = ArgsParser::new(raw(&["tmplt", "gen", "demo.tmplt", "--wat"]));
    assert!(parser.parse_options().is_err());
}

#[test]
fn without_a_template_argument_there_is_no_file() {
    let parser = ArgsParser::new(raw(&["tmplt", "help"]));
    let options = parser.parse_options().expect("no flags at all");
    assert_eq!(options.get_command(), CommandLineArgs::Help);
    assert_eq!(options.get_file(), None);
}

#[test]
fn command_words_are_classified() {
    for w in ["gen", "generate", "g"] {
        assert_eq!(CommandLineArgs::from(w.to_string()), CommandLineArgs::Generate);
    }
    for w in ["help", "h"] {
        assert_eq!(CommandLineArgs::from(w.to_string()), CommandLineArgs::Help);
    }
    for w in ["init", "new"] {
        assert_eq!(CommandLineArgs::from(w.to_string()), CommandLineArgs::New);
    }
    assert_eq!(
        CommandLineArgs::from("install".to_string()),
        CommandLineArgs::UnknownArg
    );
}

#[test]
fn flag_words_are_classified() {
    for w in ["--sl", "--save-logs", "--logged"] {
        assert!(matches!(Flags::from(w.to_string()), Flags::SaveLogs(true)));
    }
    assert!(matches!(
        Flags::from("--task-num=3".to_string()),
        Flags::TaskPerBatch(3)
    ));
    assert!(matches!(
        Flags::from("--batch-size=0".to_string()),
        Flags::TaskPerBatch(0)
    ));
    assert!(matches!(
        Flags::from("--save".to_string()),
        Flags::UnknownFlag(_)
    ));
}

#[test]
fn a_flag_wraps_its_value() {
    let flag: Flag<bool> = Flag::new(false);
    let is_on: &bool = flag.unwrap_ref();
    assert_eq!(is_on, &false);
    let wrapped = Flags::into_flag(7usize);
    assert_eq!(*wrapped.unwrap_ref(), 7);
}

#[test]
fn a_bare_invocation_reads_as_no_arguments() {
    let bare = ParsingError::default();
    assert!(bare.no_args());
    assert_eq!(bare.reason(), "");
}

#[test]
fn log_statuses_spell_their_tags() {
    assert_eq!(LogStatus::Info.text(), "INFO");
    assert_eq!(LogStatus::Warning.text(), "WARNING");
    assert_eq!(LogStatus::Error.text(), "ERROR");
    assert_eq!(LogStatus::ForcedAction.text(), "FORCED");
}
