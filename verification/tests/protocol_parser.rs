use memcached::config::Protocol;
use memcached::protocol_parser::{CommandParserInputDataBuilder, ParseError, Verb};

fn create_builder() -> CommandParserInputDataBuilder {
    CommandParserInputDataBuilder::new(Protocol {
        separator: String::from("--"),
    })
}

#[test]
fn protocol_parser_wrong_command() {
    let data = String::from("wrong command");
    let result = create_builder().build(data);
    assert!(result.is_err());
}

#[test]
fn protocol_parser_wrong_command_when_sending_empty_data() {
    let data = String::from("");
    let result = create_builder().build(data);
    assert!(result.is_err());
}

#[test]
fn protocol_parser_should_parse_get_command() {
    let data = String::from("get test--");
    let result = create_builder().build(data);
    assert!(result.is_ok());
    let obj = result.unwrap();
    assert_eq!(obj.command, "get");
    assert_eq!(obj.key, "test");
}

#[test]
fn protocol_parser_should_raise_wrong_arguments_for_get_command_due_to_missing_arg() {
    let data = String::from("get--");
    let result = create_builder().build(data);
    assert!(result.is_err());
}

#[test]
fn protocol_parser_should_raise_wrong_arguments_for_get_command_due_to_more_args_than_expected() {
    let data = String::from("get test lala--");
    let result = create_builder().build(data);
    assert!(result.is_err());
}

#[test]
fn protocol_parser_should_parse_set_command_with_reply() {
    let data = String::from("set test 0 100 4--hola--");
    let result = create_builder().build(data);
    assert!(result.is_ok());
    let obj = result.unwrap();
    assert_eq!(obj.command, "set");
    assert_eq!(obj.key, "test");
    assert_eq!(obj.exptime, Some(100));
    assert_eq!(obj.flags, Some(0));
    assert_eq!(obj.no_reply, Some(false));
    assert_eq!(obj.value, Some("hola".to_owned()));
    assert_eq!(obj.value_size_bytes, Some(4));
}

#[test]
fn protocol_parser_should_parse_set_command_with_no_reply() {
    let data = String::from("set test 0 100 4 no_reply--hola--");
    let result = create_builder().build(data);
    assert!(result.is_ok());
    let obj = result.unwrap();
    assert_eq!(obj.command, "set");
    assert_eq!(obj.key, "test");
    assert_eq!(obj.exptime, Some(100));
    assert_eq!(obj.flags, Some(0));
    assert_eq!(obj.no_reply, Some(true));
    assert_eq!(obj.value, Some("hola".to_owned()));
    assert_eq!(obj.value_size_bytes, Some(4));
}

#[test]
fn protocol_parser_should_raise_error_when_set_command_missing_argument() {
    let data = String::from("set test 0 100 --hola--");
    let result = create_builder().build(data);
    assert!(result.is_err());
}

#[test]
fn protocol_parser_should_raise_error_when_data_passed_to_set_command_is_different_size_than_expected(
) {
    let data = String::from("set test 0 100 4--hello--");
    let result = create_builder().build(data);
    assert!(result.is_err());
}

#[test]
fn size_mismatch_is_its_own_error() {
    let result = create_builder().build(String::from("set k 0 100 4--hello--"));
    assert!(matches!(result, Err(ParseError::SizeMismatch)));
}

#[test]
fn each_error_has_an_input() {
    let b = create_builder();
    assert!(matches!(b.build(String::from("a--b--c")), Err(ParseError::SegmentCount)));
    assert!(matches!(b.build(String::from("")), Err(ParseError::SegmentCount)));
    match b.build(String::from("get--")) {
        Err(ParseError::MissingKey(c)) => assert_eq!(c, "get"),
        _ => panic!("a key is missing"),
    }
    match b.build(String::from("   --hola")) {
        Err(ParseError::MissingKey(c)) => assert_eq!(c, ""),
        _ => panic!("the line is blank"),
    }
    match b.build(String::from("nope")) {
        Err(ParseError::MissingKey(c)) => assert_eq!(c, "nope"),
        _ => panic!("a key is missing"),
    }
    assert!(matches!(b.build(String::from("wrong command")), Err(ParseError::UnknownCommand)));
    assert!(matches!(
        b.build(String::from("set k 0 100 4")),
        Err(ParseError::PayloadCount(Verb::SetValue))
    ));
    assert!(matches!(
        b.build(String::from("get k--extra")),
        Err(ParseError::PayloadCount(Verb::GetValue))
    ));
    assert!(matches!(
        b.build(String::from("add k 0 100--hola--")),
        Err(ParseError::FieldCount(Verb::AddValue))
    ));
    assert!(matches!(
        b.build(String::from("append k 0 100 4 x y--hola--")),
        Err(ParseError::FieldCount(Verb::AppendValue))
    ));
    assert!(matches!(
        b.build(String::from("get test lala--")),
        Err(ParseError::FieldCount(Verb::GetValue))
    ));
    for frame in [
        "set k x 100 4--hola--",
        "set k 0 1.5 4--hola--",
        "set k 0 100 -4--hola--",
        "set k 65536 100 4--hola--",
        "set k -1 100 4--hola--",
        "set k 0 100 4.0--hola--",
    ] {
        assert!(matches!(b.build(String::from(frame)), Err(ParseError::InvalidNumber)));
    }
    assert!(matches!(
        b.build(String::from("set k 0 100 3--hola--")),
        Err(ParseError::SizeMismatch)
    ));
}

#[test]
fn numbers_are_read_as_signed_decimals() {
    let b = create_builder();
    let r = b.build(String::from("replace k +65535 -1 0007--payload--")).unwrap();
    assert_eq!(r.command, "replace");
    assert_eq!(r.flags, Some(65535));
    assert_eq!(r.exptime, Some(-1));
    assert_eq!(r.value_size_bytes, Some(7));
    assert_eq!(r.value, Some("payload".to_owned()));
    let r = b.build(String::from("prepend k 0 -9223372036854775808 1--x")).unwrap();
    assert_eq!(r.exptime, Some(isize::MIN));
    assert!(matches!(
        b.build(String::from("prepend k 0 9223372036854775808 1--x")),
        Err(ParseError::InvalidNumber)
    ));
    assert!(matches!(b.build(String::from("set k + 1 1--x")), Err(ParseError::InvalidNumber)));
}

#[test]
fn payload_is_counted_in_bytes() {
    let b = create_builder();
    let r = b.build(String::from("set k 0 0 6--h\u{e9}llo--")).unwrap();
    assert_eq!(r.value, Some("h\u{e9}llo".to_owned()));
    assert!(matches!(
        b.build(String::from("set k 0 0 5--h\u{e9}llo--")),
        Err(ParseError::SizeMismatch)
    ));
}

#[test]
fn fields_split_at_any_whitespace() {
    let b = create_builder();
    let r = b.build(String::from("  get\t\u{3000}caf\u{e9} \r\n--")).unwrap();
    assert_eq!(r.command, "get");
    assert_eq!(r.key, "caf\u{e9}");
    assert_eq!(r.value, None);
    assert_eq!(r.no_reply, None);
}

#[test]
fn separator_is_configurable() {
    let b = CommandParserInputDataBuilder::new(Protocol {
        separator: String::from("\r\n"),
    });
    let r = b.build(String::from("set test 0 100 4\r\nhola\r\n")).unwrap();
    assert_eq!(r.key, "test");
    assert_eq!(r.value, Some("hola".to_owned()));
    let r = b.build(String::from("add k 1 2 3\r\na-b")).unwrap();
    assert_eq!(r.value, Some("a-b".to_owned()));
    assert_eq!(r.no_reply, Some(false));
}

#[test]
fn empty_separator_never_yields_a_request() {
    let b = CommandParserInputDataBuilder::new(Protocol {
        separator: String::new(),
    });
    match b.build(String::from("")) {
        Err(ParseError::MissingKey(c)) => assert_eq!(c, ""),
        _ => panic!("the first segment is empty"),
    }
    assert!(matches!(b.build(String::from("g")), Err(ParseError::MissingKey(_))));
    assert!(matches!(b.build(String::from("get k")), Err(ParseError::SegmentCount)));
}

#[test]
fn empty_payload_segment_is_dropped_at_the_end_only() {
    let b = create_builder();
    assert!(matches!(
        b.build(String::from("set k 0 0 0----")),
        Ok(_)
    ));
    assert!(matches!(
        b.build(String::from("set k 0 0 0--")),
        Err(ParseError::PayloadCount(Verb::SetValue))
    ));
}

#[test]
fn requests_name_their_verb() {
    let b = create_builder();
    let verb = |frame: &str| b.build(String::from(frame)).unwrap().verb();
    assert_eq!(verb("set k 0 0 1--v"), Some(Verb::SetValue));
    assert_eq!(verb("add k 0 0 1--v"), Some(Verb::AddValue));
    assert_eq!(verb("replace k 0 0 1--v"), Some(Verb::ReplaceValue));
    assert_eq!(verb("append k 0 0 1--v"), Some(Verb::AppendValue));
    assert_eq!(verb("prepend k 0 0 1--v"), Some(Verb::PrependValue));
    assert_eq!(verb("get k"), Some(Verb::GetValue));
    assert!(Verb::SetValue.writes() && !Verb::GetValue.writes());
    assert_eq!(Verb::PrependValue.word(), "prepend");
    assert!(matches!(b.build(String::from("SET k 0 0 1--v")), Err(ParseError::UnknownCommand)));
    assert!(matches!(b.build(String::from("sets k 0 0 1--v")), Err(ParseError::UnknownCommand)));
}

#[test]
fn errors_tell_the_client_what_was_wrong() {
    assert_eq!(ParseError::SegmentCount.reply(), "wrong command\r\n");
    assert_eq!(ParseError::UnknownCommand.reply(), "wrong command\r\n");
    assert_eq!(ParseError::InvalidNumber.reply(), "wrong command\r\n");
    assert_eq!(ParseError::SizeMismatch.reply(), "wrong command\r\n");
    assert_eq!(
        ParseError::MissingKey("touch".to_owned()).reply(),
        "wrong number of arguments for touch\r\n"
    );
    assert_eq!(
        ParseError::PayloadCount(Verb::AddValue).reply(),
        "wrong number of arguments for add\r\n"
    );
    assert_eq!(
        ParseError::FieldCount(Verb::ReplaceValue).reply(),
        "wrong number of arguments for replace\r\n"
    );
}

#[test]
fn a_request_with_another_name_has_no_verb() {
    let b = create_builder();
    let mut r = b.build(String::from("get k")).unwrap();
    assert_eq!(r.verb(), Some(Verb::GetValue));
    r.command = String::from("fetch");
    assert_eq!(r.verb(), None);
}
