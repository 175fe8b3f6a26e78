//! Start-up configuration: the listening port and the protocol separator.

use crate::chars::{str_chars, str_eq};
use crate::decimal::{parse_unsigned, read_u16};
use vstd::prelude::*;

verus! {

/// How frames are delimited on the wire.
#[derive(Debug)]
pub struct Protocol {
    /// The token that ends the command line and the payload of a frame.
    pub separator: String,
}

impl Clone for Protocol {
    fn clone(&self) -> (r: Self)
        ensures
            r.separator@ == self.separator@,
    {
        Protocol { separator: self.separator.clone() }
    }
}

/// What the server runs with.
#[derive(Debug)]
pub struct MyConfig {
    pub port: u16,
    pub protocol: Protocol,
}

/// Where the settings file lies.
#[derive(Debug)]
pub struct Options {
    config_file: String,
}

impl Options {
    /// The path of the settings file, without its extension.
    pub closed spec fn path(&self) -> Seq<char> {
        self.config_file@
    }

    /// The settings file of a server that was given no other.
    pub fn default() -> (r: Options)
        ensures
            r.path() == "memcached/config/default"@,
    {
        Options { config_file: "memcached/config/default".to_owned() }
    }

    /// A settings file of one's own.
    pub fn new(config_file: String) -> (r: Options)
        ensures
            r.path() == config_file@,
    {
        Options { config_file }
    }

    /// The path of the settings file, without its extension.
    pub fn config_file(&self) -> (r: &str)
        ensures
            r@ == self.path(),
    {
        self.config_file.as_str()
    }
}

/// Why the configuration could not be made. Each case holds its message.
pub enum ConfigFault {
    InvalidNumberArguments(Seq<char>),
    InvalidOptionalArguments(Seq<char>),
    InvalidGivenPort(Seq<char>),
    ConfigDataParseError(Seq<char>),
}

/// Why the configuration could not be made. Each case holds its message.
#[derive(Debug)]
pub enum Errors {
    /// The command line has neither one word nor three.
    InvalidNumberArguments(String),
    /// The word before the port is not `-p`.
    InvalidOptionalArguments(String),
    /// The word after `-p` is not a port number.
    InvalidGivenPort(String),
    /// The settings file could not be read.
    ConfigDataParseError(String),
}

impl View for Errors {
    type V = ConfigFault;

    open spec fn view(&self) -> ConfigFault {
        match self {
            Errors::InvalidNumberArguments(m) => ConfigFault::InvalidNumberArguments(m@),
            Errors::InvalidOptionalArguments(m) => ConfigFault::InvalidOptionalArguments(m@),
            Errors::InvalidGivenPort(m) => ConfigFault::InvalidGivenPort(m@),
            Errors::ConfigDataParseError(m) => ConfigFault::ConfigDataParseError(m@),
        }
    }
}

/// The port that a command line names, if it names one. The line is the
/// program's name alone, or the name, `-p` and a port number.
pub open spec fn given_port(args: Seq<Seq<char>>) -> Result<Option<u16>, ConfigFault> {
    if args.len() != 1 && args.len() != 3 {
        Err(ConfigFault::InvalidNumberArguments("Invalid number of arguments"@))
    } else if args.len() == 1 {
        Ok(None)
    } else if args[1] != "-p"@ {
        Err(ConfigFault::InvalidOptionalArguments("Invalid optional argument"@))
    } else {
        match parse_unsigned(args[2], u16::MAX as int) {
            Some(port) => Ok(Some(port as u16)),
            None => Err(
                ConfigFault::InvalidGivenPort(
                    "Value given is not a valid port. Provide a integer"@,
                ),
            ),
        }
    }
}

/// The port that the server listens on: the one that the command line
/// names, or else `default_port`.
pub open spec fn port_of(args: Seq<Seq<char>>, default_port: u16) -> Result<u16, ConfigFault> {
    match given_port(args) {
        Ok(Some(port)) => Ok(port),
        Ok(None) => Ok(default_port),
        Err(e) => Err(e),
    }
}

impl MyConfig {
    /// Reads the port that the command line names, if it names one.
    pub fn given_port(args: &Vec<String>) -> (r: Result<Option<u16>, Errors>)
        ensures
            match r {
                Ok(port) => given_port(args.deep_view()) == Ok::<Option<u16>, ConfigFault>(port),
                Err(e) => given_port(args.deep_view()) == Err::<Option<u16>, ConfigFault>(e@),
            },
    {
        proof {
            assert(args.deep_view().len() == args@.len());
            assert forall|i: int| 0 <= i < args@.len() implies args.deep_view()[i]
                == #[trigger] args@[i]@ by {}
        }
        if args.len() != 1 && args.len() != 3 {
            return Err(Errors::InvalidNumberArguments("Invalid number of arguments".to_owned()));
        }
        if args.len() == 1 {
            return Ok(None);
        }
        if !str_eq(args[1].as_str(), "-p") {
            return Err(
                Errors::InvalidOptionalArguments("Invalid optional argument".to_owned()),
            );
        }
        let word: Vec<char> = str_chars(args[2].as_str());
        proof {
            assert(word@.subrange(0, word@.len() as int) == word@);
        }
        match read_u16(word.as_slice(), 0, word.len()) {
            Some(port) => Ok(Some(port)),
            None => Err(
                Errors::InvalidGivenPort(
                    "Value given is not a valid port. Provide a integer".to_owned(),
                ),
            ),
        }
    }

    /// Makes the configuration from the command line and from what the
    /// settings file gave: the default port and the protocol.
    pub fn parse(args: Vec<String>, default_port: u16, protocol: Protocol) -> (r: Result<
        MyConfig,
        Errors,
    >)
        ensures
            match r {
                Ok(config) => port_of(args.deep_view(), default_port) == Ok::<u16, ConfigFault>(
                    config.port,
                ) && config.protocol.separator@ == protocol.separator@,
                Err(e) => port_of(args.deep_view(), default_port) == Err::<u16, ConfigFault>(e@),
            },
    {
        match MyConfig::given_port(&args) {
            Ok(Some(port)) => Ok(MyConfig { port, protocol }),
            Ok(None) => Ok(MyConfig { port: default_port, protocol }),
            Err(e) => Err(e),
        }
    }
}

} // verus!
