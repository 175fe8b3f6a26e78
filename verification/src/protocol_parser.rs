//! The frame parser: from one inbound buffer to a validated request.

use crate::chars::{byte_len, range_is, str_byte_len, str_chars};
use crate::config::Protocol;
use crate::decimal::{parse_signed, parse_unsigned, read_isize, read_u16, read_usize};
use crate::frame::{fields, locate_fields, locate_segments, segments, Segments};
use vstd::prelude::*;
use vstd::slice::slice_subrange;
use vstd::string::{StrSliceExecFns, StringExecFns};

verus! {

/// The commands of the protocol.
#[derive(Clone, Copy, Debug, PartialEq, Eq, Structural)]
pub enum Verb {
    SetValue,
    AddValue,
    ReplaceValue,
    AppendValue,
    PrependValue,
    GetValue,
}

impl Verb {
    /// Whether the command stores a value, and so carries a payload.
    pub open spec fn is_write(self) -> bool {
        self != Verb::GetValue
    }

    /// The word that names the command on the wire.
    pub open spec fn name(self) -> Seq<char> {
        match self {
            Verb::SetValue => "set"@,
            Verb::AddValue => "add"@,
            Verb::ReplaceValue => "replace"@,
            Verb::AppendValue => "append"@,
            Verb::PrependValue => "prepend"@,
            Verb::GetValue => "get"@,
        }
    }

    /// Whether the command stores a value.
    pub fn writes(self) -> (r: bool)
        ensures
            r == self.is_write(),
    {
        match self {
            Verb::GetValue => false,
            _ => true,
        }
    }

    /// The word that names the command on the wire.
    pub fn word(self) -> (r: &'static str)
        ensures
            r@ == self.name(),
    {
        match self {
            Verb::SetValue => "set",
            Verb::AddValue => "add",
            Verb::ReplaceValue => "replace",
            Verb::AppendValue => "append",
            Verb::PrependValue => "prepend",
            Verb::GetValue => "get",
        }
    }
}

/// The command that the word `w` names, if any.
pub open spec fn parse_verb(w: Seq<char>) -> Option<Verb> {
    if w == Verb::SetValue.name() {
        Some(Verb::SetValue)
    } else if w == Verb::AddValue.name() {
        Some(Verb::AddValue)
    } else if w == Verb::ReplaceValue.name() {
        Some(Verb::ReplaceValue)
    } else if w == Verb::AppendValue.name() {
        Some(Verb::AppendValue)
    } else if w == Verb::PrependValue.name() {
        Some(Verb::PrependValue)
    } else if w == Verb::GetValue.name() {
        Some(Verb::GetValue)
    } else {
        None
    }
}

/// Every command is recognised by its own name.
pub proof fn lemma_parse_verb_name(v: Verb)
    ensures
        parse_verb(v.name()) == Some(v),
{
    reveal_strlit("set");
    reveal_strlit("add");
    reveal_strlit("replace");
    reveal_strlit("append");
    reveal_strlit("prepend");
    reveal_strlit("get");
    assert("set"@.len() == 3 && "set"@[0] == 's');
    assert("add"@.len() == 3 && "add"@[0] == 'a');
    assert("replace"@.len() == 7 && "replace"@[0] == 'r');
    assert("append"@.len() == 6);
    assert("prepend"@.len() == 7 && "prepend"@[0] == 'p');
    assert("get"@.len() == 3 && "get"@[0] == 'g');
}

/// The name of a command is a word of lower-case letters.
pub proof fn lemma_verb_name_letters(v: Verb)
    ensures
        v.name().len() > 0,
        forall|i: int| 0 <= i < v.name().len() ==> 'a' <= #[trigger] v.name()[i] <= 'z',
{
    reveal_strlit("set");
    reveal_strlit("add");
    reveal_strlit("replace");
    reveal_strlit("append");
    reveal_strlit("prepend");
    reveal_strlit("get");
    let w = v.name();
    assert forall|i: int| 0 <= i < w.len() implies 'a' <= #[trigger] w[i] <= 'z' by {
        if i == 0 {
        } else if i == 1 {
        } else if i == 2 {
        } else if i == 3 {
        } else if i == 4 {
        } else if i == 5 {
        } else {
        }
    }
}

/// Reads `s[from..to]` as the name of a command.
pub fn read_verb(s: &[char], from: usize, to: usize) -> (r: Option<Verb>)
    requires
        from <= to <= s.len(),
    ensures
        r == parse_verb(s@.subrange(from as int, to as int)),
{
    if range_is(s, from, to, "set") {
        Some(Verb::SetValue)
    } else if range_is(s, from, to, "add") {
        Some(Verb::AddValue)
    } else if range_is(s, from, to, "replace") {
        Some(Verb::ReplaceValue)
    } else if range_is(s, from, to, "append") {
        Some(Verb::AppendValue)
    } else if range_is(s, from, to, "prepend") {
        Some(Verb::PrependValue)
    } else if range_is(s, from, to, "get") {
        Some(Verb::GetValue)
    } else {
        None
    }
}

/// A request as the parser hands it on. A read command carries its name and
/// key only; a write command carries every field.
pub struct Frame {
    pub command: Seq<char>,
    pub key: Seq<char>,
    pub value: Option<Seq<char>>,
    pub flags: Option<u16>,
    pub value_size_bytes: Option<usize>,
    pub exptime: Option<isize>,
    pub no_reply: Option<bool>,
}

impl Frame {
    /// The command that the frame names.
    pub open spec fn verb(self) -> Option<Verb> {
        parse_verb(self.command)
    }

    /// The frame names a command and carries what the command needs: every
    /// field for a write, the key alone for a read.
    pub open spec fn complete(self) -> bool {
        match self.verb() {
            Some(verb) => if verb.is_write() {
                self.value is Some && self.flags is Some && self.value_size_bytes is Some
                    && self.exptime is Some && self.no_reply is Some
            } else {
                true
            },
            None => false,
        }
    }
}

/// Why a frame was turned down.
pub enum FrameError {
    /// The frame has neither one segment nor two.
    SegmentCount,
    /// The command line names no key. Holds the first field, or nothing
    /// where the line is blank.
    MissingKey(Seq<char>),
    /// The first field names no command.
    UnknownCommand,
    /// A write command came without a payload, or a read command with one.
    PayloadCount(Verb),
    /// The command line has the wrong number of fields for the command.
    FieldCount(Verb),
    /// The flags, the lifetime or the size is not a number of its range.
    InvalidNumber,
    /// The payload is not as many bytes long as the command line declares.
    SizeMismatch,
}

/// The reply to a frame that names no command the server knows, or that is
/// out of shape in a way that no command accounts for.
pub open spec fn wrong_command() -> Seq<char> {
    "wrong command\r\n"@
}

/// The reply to a frame with the wrong number of arguments for `command`.
pub open spec fn wrong_arguments(command: Seq<char>) -> Seq<char> {
    "wrong number of arguments for "@ + command + "\r\n"@
}

impl FrameError {
    /// The reply that tells the client of the error.
    pub open spec fn reply(self) -> Seq<char> {
        match self {
            FrameError::MissingKey(command) => wrong_arguments(command),
            FrameError::PayloadCount(verb) => wrong_arguments(verb.name()),
            FrameError::FieldCount(verb) => wrong_arguments(verb.name()),
            _ => wrong_command(),
        }
    }
}

/// What a frame means: the request it carries, or the reason it carries none.
///
/// The buffer falls into segments at the separator, and the first segment
/// into fields at whitespace. The checks come in this order: the number of
/// segments, the presence of a key, the command, the presence of a payload,
/// the number of fields, the three numbers, the length of the payload.
pub open spec fn parse_frame(data: Seq<char>, separator: Seq<char>) -> Result<Frame, FrameError> {
    let segs = segments(data, separator);
    if segs.len() != 1 && segs.len() != 2 {
        Err(FrameError::SegmentCount)
    } else {
        let f = fields(segs[0]);
        if f.len() == 0 {
            Err(FrameError::MissingKey(Seq::empty()))
        } else if f.len() == 1 {
            Err(FrameError::MissingKey(f[0]))
        } else {
            match parse_verb(f[0]) {
                None => Err(FrameError::UnknownCommand),
                Some(verb) => if verb.is_write() {
                    parse_write(verb, f, segs)
                } else {
                    parse_read(verb, f, segs)
                },
            }
        }
    }
}

/// The meaning of a frame whose command reads: two fields and no payload.
pub open spec fn parse_read(verb: Verb, f: Seq<Seq<char>>, segs: Seq<Seq<char>>) -> Result<
    Frame,
    FrameError,
> {
    if segs.len() != 1 {
        Err(FrameError::PayloadCount(verb))
    } else if f.len() != 2 {
        Err(FrameError::FieldCount(verb))
    } else {
        Ok(
            Frame {
                command: f[0],
                key: f[1],
                value: None,
                flags: None,
                value_size_bytes: None,
                exptime: None,
                no_reply: None,
            },
        )
    }
}

/// The meaning of a frame whose command writes: the fields are the command,
/// the key, the flags, the lifetime in seconds, the size of the payload in
/// bytes and, optionally, any sixth field to ask for no reply.
pub open spec fn parse_write(verb: Verb, f: Seq<Seq<char>>, segs: Seq<Seq<char>>) -> Result<
    Frame,
    FrameError,
> {
    if segs.len() != 2 {
        Err(FrameError::PayloadCount(verb))
    } else if f.len() != 5 && f.len() != 6 {
        Err(FrameError::FieldCount(verb))
    } else {
        let flags = parse_unsigned(f[2], u16::MAX as int);
        let exptime = parse_signed(f[3], isize::MIN as int, isize::MAX as int);
        let size = parse_unsigned(f[4], usize::MAX as int);
        if flags is None || exptime is None || size is None {
            Err(FrameError::InvalidNumber)
        } else if byte_len(segs[1]) != size->0 {
            Err(FrameError::SizeMismatch)
        } else {
            Ok(
                Frame {
                    command: f[0],
                    key: f[1],
                    value: Some(segs[1]),
                    flags: Some(flags->0 as u16),
                    value_size_bytes: Some(size->0 as usize),
                    exptime: Some(exptime->0 as isize),
                    no_reply: Some(f.len() == 6),
                },
            )
        }
    }
}

/// The parser hands on complete requests only.
pub proof fn lemma_parsed_is_complete(data: Seq<char>, separator: Seq<char>)
    ensures
        match parse_frame(data, separator) {
            Ok(frame) => frame.complete(),
            Err(_) => true,
        },
{
}

/// A request, decoded and validated.
#[derive(Debug)]
pub struct CommandParserInputData {
    pub command: String,
    pub key: String,
    pub value: Option<String>,
    pub flags: Option<u16>,
    pub value_size_bytes: Option<usize>,
    pub exptime: Option<isize>,
    pub no_reply: Option<bool>,
}

impl View for CommandParserInputData {
    type V = Frame;

    open spec fn view(&self) -> Frame {
        Frame {
            command: self.command@,
            key: self.key@,
            value: match self.value {
                Some(v) => Some(v@),
                None => None,
            },
            flags: self.flags,
            value_size_bytes: self.value_size_bytes,
            exptime: self.exptime,
            no_reply: self.no_reply,
        }
    }
}

impl CommandParserInputData {
    /// The command that the request names.
    pub fn verb(&self) -> (r: Option<Verb>)
        ensures
            r == self@.verb(),
    {
        let name: Vec<char> = str_chars(self.command.as_str());
        proof {
            assert(name@.subrange(0, name@.len() as int) == name@);
        }
        read_verb(name.as_slice(), 0, name.len())
    }
}

/// Why the parser turned a frame down.
#[derive(Debug)]
pub enum ParseError {
    /// The frame has neither one segment nor two.
    SegmentCount,
    /// The command line names no key. Holds the first field, or an empty
    /// string where the line is blank.
    MissingKey(String),
    /// The first field names no command.
    UnknownCommand,
    /// A write command came without a payload, or a read command with one.
    PayloadCount(Verb),
    /// The command line has the wrong number of fields for the command.
    FieldCount(Verb),
    /// The flags, the lifetime or the size is not a number of its range.
    InvalidNumber,
    /// The payload is not as many bytes long as the command line declares.
    SizeMismatch,
}

impl View for ParseError {
    type V = FrameError;

    open spec fn view(&self) -> FrameError {
        match self {
            ParseError::SegmentCount => FrameError::SegmentCount,
            ParseError::MissingKey(c) => FrameError::MissingKey(c@),
            ParseError::UnknownCommand => FrameError::UnknownCommand,
            ParseError::PayloadCount(v) => FrameError::PayloadCount(*v),
            ParseError::FieldCount(v) => FrameError::FieldCount(*v),
            ParseError::InvalidNumber => FrameError::InvalidNumber,
            ParseError::SizeMismatch => FrameError::SizeMismatch,
        }
    }
}

impl ParseError {
    /// The reply that tells the client of the error.
    pub fn reply(&self) -> (r: String)
        ensures
            r@ == self@.reply(),
    {
        let command: &str = match self {
            ParseError::MissingKey(command) => command.as_str(),
            ParseError::PayloadCount(verb) => verb.word(),
            ParseError::FieldCount(verb) => verb.word(),
            _ => {
                return "wrong command\r\n".to_owned();
            },
        };
        let mut r: String = "wrong number of arguments for ".to_owned();
        r.append(command);
        r.append("\r\n");
        r
    }
}

/// The parser, set up with the protocol's separator.
pub struct CommandParserInputDataBuilder {
    protocol: Protocol,
}

impl CommandParserInputDataBuilder {
    /// The separator that this parser splits frames at.
    pub closed spec fn separator(&self) -> Seq<char> {
        self.protocol.separator@
    }

    /// A parser for frames that are delimited as `protocol` says.
    pub fn new(protocol: Protocol) -> (r: CommandParserInputDataBuilder)
        ensures
            r.separator() == protocol.separator@,
    {
        CommandParserInputDataBuilder { protocol }
    }

    /// Decodes one inbound buffer.
    pub fn build(&self, data: String) -> (r: Result<CommandParserInputData, ParseError>)
        ensures
            match r {
                Ok(d) => parse_frame(data@, self.separator()) == Ok::<Frame, FrameError>(d@),
                Err(e) => parse_frame(data@, self.separator()) == Err::<Frame, FrameError>(e@),
            },
    {
        let text: &str = data.as_str();
        let chars: Vec<char> = str_chars(text);
        let sep: Vec<char> = str_chars(self.protocol.separator.as_str());
        let located: Segments = locate_segments(chars.as_slice(), sep.as_slice());
        if located.count != 1 && located.count != 2 {
            return Err(ParseError::SegmentCount);
        }
        let ghost segs = segments(data@, self.separator());
        let base: usize = located.first.0;
        let line: &[char] = slice_subrange(chars.as_slice(), base, located.first.1);
        let f: Vec<(usize, usize)> = locate_fields(line);
        let ghost fs = fields(segs[0]);
        if f.len() == 0 {
            return Err(ParseError::MissingKey(String::new()));
        }
        proof {
            assert forall|k: int| 0 <= k < f@.len() implies fs[k] == data@.subrange(
                base + (#[trigger] f@[k]).0,
                base + f@[k].1,
            ) by {
                assert(line@.subrange(f@[k].0 as int, f@[k].1 as int) =~= data@.subrange(
                    base + f@[k].0,
                    base + f@[k].1,
                ));
            }
        }
        let command: String = text.substring_char(base + f[0].0, base + f[0].1).to_owned();
        if f.len() == 1 {
            return Err(ParseError::MissingKey(command));
        }
        let key: String = text.substring_char(base + f[1].0, base + f[1].1).to_owned();
        let verb: Verb = match read_verb(line, f[0].0, f[0].1) {
            None => {
                return Err(ParseError::UnknownCommand);
            },
            Some(v) => v,
        };
        if verb.writes() {
            if located.count != 2 {
                return Err(ParseError::PayloadCount(verb));
            }
            if f.len() != 5 && f.len() != 6 {
                return Err(ParseError::FieldCount(verb));
            }
            let flags: Option<u16> = read_u16(line, f[2].0, f[2].1);
            let exptime: Option<isize> = read_isize(line, f[3].0, f[3].1);
            let size: Option<usize> = read_usize(line, f[4].0, f[4].1);
            match (flags, exptime, size) {
                (Some(flags), Some(exptime), Some(size)) => {
                    let payload: &str = text.substring_char(located.second.0, located.second.1);
                    if str_byte_len(payload) != size {
                        return Err(ParseError::SizeMismatch);
                    }
                    Ok(
                        CommandParserInputData {
                            command,
                            key,
                            value: Some(payload.to_owned()),
                            flags: Some(flags),
                            value_size_bytes: Some(size),
                            exptime: Some(exptime),
                            no_reply: Some(f.len() == 6),
                        },
                    )
                },
                _ => Err(ParseError::InvalidNumber),
            }
        } else {
            if located.count != 1 {
                return Err(ParseError::PayloadCount(verb));
            }
            if f.len() != 2 {
                return Err(ParseError::FieldCount(verb));
            }
            Ok(
                CommandParserInputData {
                    command,
                    key,
                    value: None,
                    flags: None,
                    value_size_bytes: None,
                    exptime: None,
                    no_reply: None,
                },
            )
        }
    }
}

} // verus!
