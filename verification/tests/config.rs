use memcached::config::{Errors, MyConfig, Options, Protocol};

const DEFAULT_PORT: u16 = 11211;

fn protocol() -> Protocol {
    Protocol {
        separator: "--".to_string(),
    }
}

fn args(words: &[&str]) -> Vec<String> {
    words.iter().map(|s| s.to_string()).collect()
}

#[test]
fn config_should_fail_when_args_is_empty() {
    match MyConfig::parse(vec![], DEFAULT_PORT, protocol()) {
        Ok(_) => panic!("Empty args are not allowed"),
        Err(value) => match value {
            Errors::InvalidNumberArguments(message) => {
                assert_eq!(message, "Invalid number of arguments")
            }
            _ => panic!("empty args are not allowed"),
        },
    }
}

#[test]
fn config_should_use_default_when_optional_port_is_not_given() {
    match MyConfig::parse(args(&["myProgram"]), DEFAULT_PORT, protocol()) {
        Ok(config) => assert_eq!(config.port, DEFAULT_PORT),
        Err(_) => panic!("Expected port {}", DEFAULT_PORT),
    }
}

#[test]
fn should_use_always_default_separator_protocol() {
    match MyConfig::parse(args(&["myProgram"]), DEFAULT_PORT, protocol()) {
        Ok(config) => assert_eq!(config.protocol.separator, protocol().separator),
        Err(_) => panic!("Expected port {}", DEFAULT_PORT),
    }
    match MyConfig::parse(args(&["myProgram", "-p", "1234"]), DEFAULT_PORT, protocol()) {
        Ok(config) => assert_eq!(config.protocol.separator, "--"),
        Err(_) => panic!("Expected port 1234"),
    }
}

#[test]
fn config_should_fail_when_optional_param_is_given_but_not_value() {
    match MyConfig::parse(args(&["myProgram", "-p"]), DEFAULT_PORT, protocol()) {
        Ok(_) => panic!("Config should not be created"),
        Err(value) => match value {
            Errors::InvalidNumberArguments(message) => {
                assert_eq!(message, "Invalid number of arguments")
            }
            _ => panic!("Invalid number of arguments"),
        },
    }
}

#[test]
fn config_should_fail_when_optional_param_is_different_than_expected() {
    match MyConfig::parse(args(&["myProgram", "-lolo", "1234"]), DEFAULT_PORT, protocol()) {
        Ok(_) => panic!("Config should not be created"),
        Err(value) => match value {
            Errors::InvalidOptionalArguments(message) => {
                assert_eq!(message, "Invalid optional argument")
            }
            _ => panic!("Config should not be created"),
        },
    }
}

#[test]
fn config_should_fail_when_optional_param_is_given_but_its_value_is_not_an_integer() {
    match MyConfig::parse(args(&["myProgram", "-p", "abcd"]), DEFAULT_PORT, protocol()) {
        Ok(_) => panic!("Config should not be created"),
        Err(value) => match value {
            Errors::InvalidGivenPort(message) => {
                assert_eq!(message, "Value given is not a valid port. Provide a integer")
            }
            _ => panic!("Should provide a valid port"),
        },
    }
}

#[test]
fn given_port_overrides_the_default() {
    let port = |word: &str| {
        MyConfig::parse(args(&["myProgram", "-p", word]), DEFAULT_PORT, protocol()).map(|c| c.port)
    };
    assert_eq!(port("1234").unwrap(), 1234);
    assert_eq!(port("+80").unwrap(), 80);
    assert_eq!(port("0").unwrap(), 0);
    assert_eq!(port("00065535").unwrap(), 65535);
    assert!(matches!(port("65536"), Err(Errors::InvalidGivenPort(_))));
    assert!(matches!(port("-1"), Err(Errors::InvalidGivenPort(_))));
    assert!(matches!(port(""), Err(Errors::InvalidGivenPort(_))));
    assert!(matches!(port(" 80"), Err(Errors::InvalidGivenPort(_))));
    assert!(matches!(port("8o"), Err(Errors::InvalidGivenPort(_))));
    assert!(matches!(
        MyConfig::parse(args(&["a", "b", "c", "d"]), DEFAULT_PORT, protocol()),
        Err(Errors::InvalidNumberArguments(_))
    ));
    assert!(matches!(
        MyConfig::parse(args(&["myProgram", "-P", "80"]), DEFAULT_PORT, protocol()),
        Err(Errors::InvalidOptionalArguments(_))
    ));
}

#[test]
fn options_name_the_settings_file() {
    assert_eq!(Options::default().config_file(), "memcached/config/default");
    assert_eq!(Options::new("config/test".to_string()).config_file(), "config/test");
}

#[test]
fn command_line_may_name_no_port() {
    assert!(matches!(MyConfig::given_port(&args(&["myProgram"])), Ok(None)));
    assert!(matches!(MyConfig::given_port(&args(&["myProgram", "-p", "8080"])), Ok(Some(8080))));
    assert!(matches!(
        MyConfig::given_port(&args(&["myProgram", "-p"])),
        Err(Errors::InvalidNumberArguments(_))
    ));
    assert!(matches!(MyConfig::given_port(&args(&[])), Err(Errors::InvalidNumberArguments(_))));
    assert!(matches!(
        MyConfig::given_port(&args(&["myProgram", "--port", "8080"])),
        Err(Errors::InvalidOptionalArguments(_))
    ));
    assert!(matches!(
        MyConfig::given_port(&args(&["myProgram", "-p", "http"])),
        Err(Errors::InvalidGivenPort(_))
    ));
}
