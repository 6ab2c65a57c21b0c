use loadstone::cli::{
    console_step, has_unexpected_argument, parse, parse_number, retrieve, retrieve_flag, retrieve_optional, Argument,
    CommandShape, Error,
};

fn single(name: &str) -> Argument {
    Argument::Single(name.as_bytes().to_vec())
}

fn pair(name: &str, value: &str) -> Argument {
    Argument::Pair(name.as_bytes().to_vec(), value.as_bytes().to_vec())
}

#[test]
fn mod_basic_command_parsing() {
    let sample_command = "my_command an_option=5000 some_flag";
    let (name, arguments) = parse(sample_command.as_bytes()).unwrap();
    let mut arguments = arguments.into_iter();
    assert_eq!(b"my_command".to_vec(), name);
    assert_eq!(pair("an_option", "5000"), arguments.next().unwrap());
    assert_eq!(single("some_flag"), arguments.next().unwrap());

    let sample_command = "command         with_too_much_whitespace   but  still=valid   \n\n";
    let (name, arguments) = parse(sample_command.as_bytes()).unwrap();
    let mut arguments = arguments.into_iter();
    assert_eq!(b"command".to_vec(), name);
    assert_eq!(single("with_too_much_whitespace"), arguments.next().unwrap());
    assert_eq!(single("but"), arguments.next().unwrap());
    assert_eq!(pair("still", "valid"), arguments.next().unwrap());
}

#[test]
fn mod_parsing_fails_for_various_bad_commands() {
    let bad_command_no_fields = "";
    assert_eq!(Error::CommandEmpty, parse(bad_command_no_fields.as_bytes()).err().unwrap());

    let bad_command_strange_formatting = "command with=a=strange=argument";
    assert_eq!(
        Error::MalformedArguments,
        parse(bad_command_strange_formatting.as_bytes()).err().unwrap()
    );

    let bad_command_characters_not_allowed = "com-mand with? bad+characters";
    assert_eq!(
        Error::CharactersNotAllowed,
        parse(bad_command_characters_not_allowed.as_bytes()).err().unwrap()
    );
}

#[test]
fn cli_basic_command_parsing() {
    let sample_command = "my_command an_option=5000 some_flag";
    let (name, arguments) = parse(sample_command.as_bytes()).unwrap();
    let mut arguments = arguments.into_iter();
    assert_eq!(b"my_command".to_vec(), name);
    assert_eq!(pair("an_option", "5000"), arguments.next().unwrap());
    assert_eq!(single("some_flag"), arguments.next().unwrap());

    let sample_command = "command         with_too_much_whitespace   but  still=valid   \r\n\r\n";
    let (name, arguments) = parse(sample_command.as_bytes()).unwrap();
    let mut arguments = arguments.into_iter();
    assert_eq!(b"command".to_vec(), name);
    assert_eq!(single("with_too_much_whitespace"), arguments.next().unwrap());
    assert_eq!(single("but"), arguments.next().unwrap());
    assert_eq!(pair("still", "valid"), arguments.next().unwrap());
}

#[test]
fn cli_parsing_fails_for_various_bad_commands() {
    let bad_command_strange_formatting = "command with=a=strange=argument";
    assert_eq!(
        Error::MalformedArguments,
        parse(bad_command_strange_formatting.as_bytes()).err().unwrap()
    );

    let bad_command_characters_not_allowed = "com-mand with? bad+characters";
    assert_eq!(
        Error::CharactersNotAllowed,
        parse(bad_command_characters_not_allowed.as_bytes()).err().unwrap()
    );
}

#[test]
fn separators_at_either_end_are_malformed() {
    assert_eq!(parse(b"cmd =value").unwrap_err(), Error::MalformedArguments);
    assert_eq!(parse(b"cmd name=").unwrap_err(), Error::MalformedArguments);
}

#[test]
fn duplicate_argument_names_are_refused() {
    assert_eq!(parse(b"cmd bank=1 bank").unwrap_err(), Error::DuplicateArguments);
    assert_eq!(parse(b"cmd a=1 b=2 a=3").unwrap_err(), Error::DuplicateArguments);
}

#[test]
fn only_control_characters_is_an_empty_command() {
    assert_eq!(parse(b"  \r\n\x00\x00").unwrap_err(), Error::CommandEmpty);
}

#[test]
fn retrieving_arguments() {
    let (_, args) = parse(b"flash bank=3 verbose").unwrap();
    assert_eq!(retrieve(&args, b"bank").unwrap(), b"3".to_vec());
    assert_eq!(retrieve(&args, b"verbose").unwrap_err(), Error::MalformedArguments);
    assert_eq!(retrieve(&args, b"size").unwrap_err(), Error::MissingArgument);
    assert_eq!(retrieve_optional(&args, b"size").unwrap(), None);
    assert_eq!(retrieve_optional(&args, b"bank").unwrap(), Some(b"3".to_vec()));
    assert!(retrieve_flag(&args, b"verbose"));
    assert!(retrieve_flag(&args, b"bank"));
    assert!(!retrieve_flag(&args, b"size"));
}

#[test]
fn unexpected_arguments_are_found() {
    let (_, args) = parse(b"flash bank=3 verbose").unwrap();
    let allowed = vec![b"bank".to_vec()];
    assert!(has_unexpected_argument(&args, &allowed));
    let allowed = vec![b"bank".to_vec(), b"verbose".to_vec()];
    assert!(!has_unexpected_argument(&args, &allowed));
}

#[test]
fn numbers_parse_within_their_range() {
    assert_eq!(parse_number(b"5000", u64::from(u32::MAX)), Ok(5000));
    assert_eq!(parse_number(b"+12", 255), Ok(12));
    assert_eq!(parse_number(b"256", 255), Err(Error::MalformedArguments));
    assert_eq!(parse_number(b"", 255), Err(Error::MalformedArguments));
    assert_eq!(parse_number(b"+", 255), Err(Error::MalformedArguments));
    assert_eq!(parse_number(b"12a", 255), Err(Error::MalformedArguments));
    assert_eq!(parse_number(b"18446744073709551615", u64::MAX), Ok(u64::MAX));
    assert_eq!(parse_number(b"18446744073709551616", u64::MAX), Err(Error::MalformedArguments));
}

#[test]
fn error_messages() {
    assert_eq!(Error::CommandUnknown.message(), Some("Unknown command"));
    assert_eq!(Error::CommandEmpty.message(), None);
    assert_eq!(
        Error::MalformedArguments.message(),
        Some("[CLI Error] Malformed command arguments")
    );
}

fn shapes() -> Vec<CommandShape> {
    vec![
        CommandShape { name: b"help".to_vec(), arguments: vec![b"command".to_vec()] },
        CommandShape { name: b"flash".to_vec(), arguments: vec![b"bank".to_vec()] },
    ]
}

#[test]
fn console_steps_find_the_command_and_its_arguments() {
    let (command, arguments) = console_step(b"flash bank=2\n", false, &shapes()).unwrap();
    assert_eq!(command, 1);
    assert_eq!(arguments, vec![Argument::Pair(b"bank".to_vec(), b"2".to_vec())]);
    assert_eq!(console_step(b"help\n", true, &shapes()).unwrap_err(), Error::SerialBufferOverflow);
    assert_eq!(console_step(&[0x66, 0xFF, 0x0A], false, &shapes()).unwrap_err(), Error::BadCommandEncoding);
    assert_eq!(console_step(b"erase\n", false, &shapes()).unwrap_err(), Error::CommandUnknown);
    assert_eq!(console_step(b"flash size=3\n", false, &shapes()).unwrap_err(), Error::UnexpectedArguments);
    assert_eq!(console_step(b"\n", false, &shapes()).unwrap_err(), Error::CommandEmpty);
}

#[test]
fn the_console_greets_once_and_prompts_before_each_command() {
    let mut state = loadstone::cli::ConsoleState::new();
    let first = state.before_command();
    assert!(first.greeting && first.prompt);
    state.after_command();
    for _ in 0..3 {
        let next = state.before_command();
        assert!(!next.greeting && next.prompt);
        state.after_command();
    }
}
