//! The client's side of the protocol: the frames it sends and how it
//! reads what comes back.

use crate::chars::{byte_len, is_space, is_whitespace, str_byte_len, str_chars, str_eq};
use crate::decimal::{decimal, push_decimal, push_signed_decimal, signed_decimal};
use crate::frame::{find, find_from, lemma_find_from, split_from};
use vstd::prelude::*;
use vstd::slice::slice_subrange;
use vstd::string::{StrSliceExecFns, StringExecFns};

verus! {

/// `s` without the whitespace that it begins with.
pub open spec fn trim_start(s: Seq<char>) -> Seq<char>
    decreases s.len(),
{
    if s.len() > 0 && is_whitespace(s[0]) {
        trim_start(s.drop_first())
    } else {
        s
    }
}

/// `s` without the whitespace that it finishes with.
pub open spec fn trim_end(s: Seq<char>) -> Seq<char>
    decreases s.len(),
{
    if s.len() > 0 && is_whitespace(s.last()) {
        trim_end(s.drop_last())
    } else {
        s
    }
}

/// `s` without the whitespace at either end.
pub open spec fn trim(s: Seq<char>) -> Seq<char> {
    trim_end(trim_start(s))
}

/// The token that ends the lines of a reply.
pub open spec fn line_end() -> Seq<char> {
    "\r\n"@
}

/// The value in a reply to a read: the second line of the reply, once the
/// whitespace around the reply is taken off. A reply of one line holds no
/// value.
pub open spec fn response_value(response: Seq<char>) -> Option<Seq<char>> {
    let lines = split_from(trim(response), line_end(), 0);
    if lines.len() < 2 {
        None
    } else {
        Some(lines[1])
    }
}

/// A reply that holds no value.
#[derive(Clone, Copy, Debug, PartialEq, Eq, Structural)]
pub struct InvalidResponseError;

impl InvalidResponseError {
    /// What went wrong, in words.
    pub fn to_string(&self) -> (r: String)
        ensures
            r@ == "Response is invalid"@,
    {
        "Response is invalid".to_owned()
    }
}

/// Where `s` without the whitespace at either end lies in `s`.
fn trim_bounds(s: &[char]) -> (r: (usize, usize))
    ensures
        r.0 <= r.1 <= s.len(),
        trim(s@) == s@.subrange(r.0 as int, r.1 as int),
{
    let n: usize = s.len();
    let mut a: usize = 0;
    proof {
        assert(s@.subrange(0, n as int) == s@);
    }
    while a < n && is_space(s[a])
        invariant
            a <= n,
            n == s.len(),
            trim_start(s@) == trim_start(s@.subrange(a as int, n as int)),
        decreases n - a,
    {
        proof {
            assert(s@.subrange(a as int, n as int).drop_first() == s@.subrange(a + 1, n as int));
        }
        a = a + 1;
    }
    let mut b: usize = n;
    while b > a && is_space(s[b - 1])
        invariant
            a <= b <= n,
            n == s.len(),
            trim_start(s@) == s@.subrange(a as int, n as int),
            trim(s@) == trim_end(s@.subrange(a as int, b as int)),
        decreases b,
    {
        proof {
            assert(s@.subrange(a as int, b as int).drop_last() == s@.subrange(a as int, b - 1));
        }
        b = b - 1;
    }
    (a, b)
}

/// Reads the value out of the reply to a read.
pub fn parse_response(response: String) -> (r: Result<String, InvalidResponseError>)
    ensures
        match r {
            Ok(value) => response_value(response@) == Some(value@),
            Err(_) => response_value(response@) is None,
        },
{
    let text: &str = response.as_str();
    let chars: Vec<char> = str_chars(text);
    let bounds: (usize, usize) = trim_bounds(chars.as_slice());
    let body: &[char] = slice_subrange(chars.as_slice(), bounds.0, bounds.1);
    let sep: Vec<char> = str_chars("\r\n");
    proof {
        reveal_strlit("\r\n");
        lemma_find_from(body@, sep@, 0);
    }
    let first: usize = match find(body, sep.as_slice(), 0) {
        Some(at) => at,
        None => {
            return Err(InvalidResponseError);
        },
    };
    let start: usize = first + 2;
    proof {
        lemma_find_from(body@, sep@, start as int);
    }
    let end: usize = match find(body, sep.as_slice(), start) {
        Some(at) => at,
        None => body.len(),
    };
    proof {
        let lines = split_from(body@, sep@, 0);
        let rest = split_from(body@, sep@, start as int);
        assert(lines == seq![body@.subrange(0, first as int)] + rest);
        assert(rest[0] == body@.subrange(start as int, end as int));
        assert(lines[1] == rest[0]);
        assert(body@.subrange(start as int, end as int) == response@.subrange(
            bounds.0 + start,
            bounds.0 + end,
        ));
    }
    Ok(text.substring_char(bounds.0 + start, bounds.0 + end).to_owned())
}

/// Whether the reply to an `add` says that the value was stored: any reply
/// does, but `NOT_STORED` with whitespace around it.
pub open spec fn reports_stored(response: Seq<char>) -> bool {
    trim(response) != "NOT_STORED"@
}

/// Whether the reply to an `add` says that the value was stored.
pub fn is_stored(response: &str) -> (r: bool)
    ensures
        r == reports_stored(response@),
{
    let chars: Vec<char> = str_chars(response);
    let bounds: (usize, usize) = trim_bounds(chars.as_slice());
    !str_eq(response.substring_char(bounds.0, bounds.1), "NOT_STORED")
}

/// The frame of a write: the command line with flags of zero, the lifetime
/// and the size of the value in bytes, then the value, each followed by the
/// separator `--`.
pub open spec fn write_frame(command: Seq<char>, key: Seq<char>, value: Seq<char>, exptime: isize)
    -> Seq<char> {
    command + " "@ + key + " 0 "@ + signed_decimal(exptime as int) + " "@ + decimal(byte_len(value))
        + "--"@ + value + "--"@
}

/// The frame of a read: the command line alone.
pub open spec fn get_frame(key: Seq<char>) -> Seq<char> {
    "get "@ + key
}

/// Frames a write for `command`.
fn write_request(command: &str, key: &str, value: &str, exptime: isize) -> (r: String)
    ensures
        r@ == write_frame(command@, key@, value@, exptime),
{
    let mut r: String = command.to_owned();
    r.append(" ");
    r.append(key);
    r.append(" 0 ");
    push_signed_decimal(&mut r, exptime as i64);
    r.append(" ");
    push_decimal(&mut r, str_byte_len(value) as u64);
    r.append("--");
    r.append(value);
    r.append("--");
    r
}

/// The frame that asks the server to store `value` under `key`.
pub fn set_request(key: &str, value: &str, exptime: isize) -> (r: String)
    ensures
        r@ == write_frame("set"@, key@, value@, exptime),
{
    write_request("set", key, value, exptime)
}

/// The frame that asks the server to store `value` under `key` unless the
/// key holds a live item.
pub fn add_request(key: &str, value: &str, exptime: isize) -> (r: String)
    ensures
        r@ == write_frame("add"@, key@, value@, exptime),
{
    write_request("add", key, value, exptime)
}

/// The frame that asks the server for the value under `key`.
pub fn get_request(key: &str) -> (r: String)
    ensures
        r@ == get_frame(key@),
{
    let mut r: String = "get ".to_owned();
    r.append(key);
    r
}

/// The connection that serves a key, of `connections` many: the hash of
/// the key, as a number of pointer width, modulo their number.
pub fn connection_index(hash: u64, connections: usize) -> (r: usize)
    requires
        connections > 0,
    ensures
        r == (hash as usize) % connections,
{
    (hash as usize) % connections
}

} // verus!
