//! A whole exchange: what the client frames the server carries out, and
//! what the server replies the client reads.

use crate::chars::{byte_len, is_whitespace};
use crate::client::{
    get_frame, line_end, response_value, trim, trim_end, trim_start, write_frame,
};
use crate::commands::{
    get_reply, handled, handling_reply, lemma_set_then_get, value_reply, write_reply, written,
    WriteRequest,
};
use crate::decimal::{
    decimal, digits_value, is_digit, lemma_decimal_digits, lemma_decimal_round_trip,
    lemma_signed_decimal_round_trip, parse_unsigned, signed_decimal,
};
use crate::frame::{
    fields, find_from, lemma_fields_after_space, lemma_fields_after_word, lemma_find_from,
    lemma_found_at, occurs_at, segments, split_from,
};
use crate::item::ItemView;
use crate::protocol_parser::{
    lemma_parse_verb_name, lemma_verb_name_letters, parse_frame, Frame, FrameError, Verb,
};
use crate::store_manager::{lemma_inserted_keeps_inv, CacheState};
use vstd::prelude::*;

verus! {

/// Every `-` in `s` is followed by a character that is no `-`: the
/// separator `--` stands nowhere in `s`, nor can it begin at its end.
pub open spec fn lonely_dashes(s: Seq<char>) -> bool {
    forall|k: int| 0 <= k < s.len() && #[trigger] s[k] == '-' ==> k + 1 < s.len() && s[k + 1] != '-'
}

/// A word that can stand as a field of a command line: it is not empty and
/// holds no whitespace.
pub open spec fn is_word(w: Seq<char>) -> bool {
    w.len() > 0 && forall|k: int| 0 <= k < w.len() ==> !is_whitespace(#[trigger] w[k])
}

/// Words with single spaces between them.
pub open spec fn joined(words: Seq<Seq<char>>) -> Seq<char>
    decreases words.len(),
{
    if words.len() == 0 {
        Seq::empty()
    } else if words.len() == 1 {
        words[0]
    } else {
        words[0] + seq![' '] + joined(words.drop_first())
    }
}

/// The fields of words that are joined by spaces are the words.
pub proof fn lemma_fields_of_joined(words: Seq<Seq<char>>)
    requires
        forall|i: int| 0 <= i < words.len() ==> is_word(#[trigger] words[i]),
    ensures
        fields(joined(words)) == words,
    decreases words.len(),
{
    if words.len() == 0 {
        assert(fields(joined(words)) =~= words);
    } else if words.len() == 1 {
        lemma_fields_after_word(words[0], Seq::empty());
        assert(words[0] + Seq::<char>::empty() =~= words[0]);
        assert(seq![words[0]] + fields(Seq::empty()) =~= words);
    } else {
        let rest = words.drop_first();
        assert forall|i: int| 0 <= i < rest.len() implies is_word(#[trigger] rest[i]) by {
            assert(rest[i] == words[i + 1]);
        }
        lemma_fields_of_joined(rest);
        let tail = seq![' '] + joined(rest);
        assert(tail[0] == ' ');
        assert(joined(words) =~= words[0] + tail);
        lemma_fields_after_word(words[0], tail);
        lemma_fields_after_space(' ', joined(rest));
        assert(seq![words[0]] + rest =~= words);
    }
}

/// Two strings of lonely dashes, one after the other, are one.
pub proof fn lemma_lonely_dashes_concat(a: Seq<char>, b: Seq<char>)
    requires
        lonely_dashes(a),
        lonely_dashes(b),
    ensures
        lonely_dashes(a + b),
{
    let s = a + b;
    assert forall|k: int| 0 <= k < s.len() && #[trigger] s[k] == '-' implies k + 1 < s.len() && s[k
        + 1] != '-' by {
        if k < a.len() {
            assert(a[k] == '-');
            assert(s[k + 1] == a[k + 1]);
        } else {
            assert(b[k - a.len()] == '-');
            assert(s[k + 1] == b[k + 1 - a.len()]);
        }
    }
}

/// A number in decimal, signed or not, is a word of lonely dashes.
pub proof fn lemma_signed_decimal_word(i: int)
    ensures
        is_word(signed_decimal(i)),
        lonely_dashes(signed_decimal(i)),
{
    let n = (if i < 0 {
        -i
    } else {
        i
    }) as nat;
    let d = decimal(n);
    let s = signed_decimal(i);
    lemma_decimal_digits(n);
    assert forall|k: int| 0 <= k < d.len() implies !is_whitespace(#[trigger] d[k]) && d[k]
        != '-' by {
        assert(is_digit(d[k]));
    }
    if i < 0 {
        assert forall|k: int| 0 <= k < s.len() implies !is_whitespace(#[trigger] s[k]) && (s[k]
            == '-' ==> k + 1 < s.len() && s[k + 1] != '-') by {
            if k > 0 {
                assert(s[k] == d[k - 1]);
            } else {
                assert(s[1] == d[0]);
            }
        }
    }
}

/// A frame of two segments: where a line and a payload of lonely dashes are
/// each followed by the separator `--`, the segments are the line and the
/// payload.
pub proof fn lemma_segments_of_two(line: Seq<char>, payload: Seq<char>)
    requires
        lonely_dashes(line),
        lonely_dashes(payload),
        line.len() > 0,
    ensures
        segments(line + "--"@ + payload + "--"@, "--"@) == seq![line, payload],
{
    reveal_strlit("--");
    let sep = "--"@;
    let data = line + sep + payload + sep;
    let l = line.len() as int;
    let v = payload.len() as int;
    assert(sep =~= seq!['-', '-']);
    assert forall|k: int| occurs_at(data, sep, k) implies data[k] == '-' && data[k + 1] == '-' by {
        assert(data.subrange(k, k + 2)[0] == sep[0]);
        assert(data.subrange(k, k + 2)[1] == sep[1]);
    }
    assert forall|k: int| 0 <= k < l implies !occurs_at(data, sep, k) by {
        assert(data[k] == line[k]);
        if k + 1 < l {
            assert(data[k + 1] == line[k + 1]);
        }
    }
    assert(data.subrange(l, l + 2) =~= sep);
    lemma_found_at(data, sep, 0, l);
    assert forall|k: int| l + 2 <= k < l + 2 + v implies !occurs_at(data, sep, k) by {
        assert(data[k] == payload[k - l - 2]);
        if k + 1 < l + 2 + v {
            assert(data[k + 1] == payload[k + 1 - l - 2]);
        }
    }
    assert(data.subrange(l + 2 + v, l + 4 + v) =~= sep);
    lemma_found_at(data, sep, l + 2, l + 2 + v);
    assert(find_from(data, sep, l + 4 + v) is None);
    let last = split_from(data, sep, l + 4 + v);
    assert(data.len() == l + 4 + v);
    assert(last == seq![data.subrange(l + 4 + v, data.len() as int)]);
    assert(last[0] =~= Seq::<char>::empty());
    assert(last =~= seq![Seq::<char>::empty()]);
    let second = split_from(data, sep, l + 2);
    assert(second == seq![data.subrange(l + 2, l + 2 + v)] + last);
    let pieces = split_from(data, sep, 0);
    assert(pieces == seq![data.subrange(0, l)] + second);
    assert(data.subrange(0, l) =~= line);
    assert(data.subrange(l + 2, l + 2 + v) =~= payload);
    assert(pieces =~= seq![line, payload, Seq::<char>::empty()]);
    assert(pieces.drop_last() =~= seq![line, payload]);
}

/// What the client frames, the server understands: the frame of a write
/// parses as the command with the key, flags of zero, the lifetime, the
/// size of the value in bytes and the value, and asks for a reply. The key
/// is a word, and neither key nor value holds a `-` that is followed by
/// another or by nothing, so that no separator is seen where none was put.
pub proof fn lemma_write_frame_parses(
    verb: Verb,
    key: Seq<char>,
    value: Seq<char>,
    exptime: isize,
)
    requires
        verb.is_write(),
        is_word(key),
        lonely_dashes(key),
        lonely_dashes(value),
        byte_len(value) <= usize::MAX,
    ensures
        parse_frame(write_frame(verb.name(), key, value, exptime), "--"@) == Ok::<
            Frame,
            FrameError,
        >(
            Frame {
                command: verb.name(),
                key,
                value: Some(value),
                flags: Some(0u16),
                value_size_bytes: Some(byte_len(value) as usize),
                exptime: Some(exptime),
                no_reply: Some(false),
            },
        ),
{
    reveal_strlit(" ");
    reveal_strlit(" 0 ");
    reveal_strlit("--");
    let command = verb.name();
    let zero = seq!['0'];
    let lifetime = signed_decimal(exptime as int);
    let size = decimal(byte_len(value));
    let words = seq![command, key, zero, lifetime, size];
    let line = joined(words);
    // The command line is the five words with spaces between them.
    assert(line =~= command + " "@ + key + " 0 "@ + lifetime + " "@ + size) by {
        reveal_with_fuel(joined, 6);
        assert(words.drop_first() =~= seq![key, zero, lifetime, size]);
        assert(words.drop_first().drop_first() =~= seq![zero, lifetime, size]);
        assert(words.drop_first().drop_first().drop_first() =~= seq![lifetime, size]);
        assert(words.drop_first().drop_first().drop_first().drop_first() =~= seq![size]);
    }
    assert(write_frame(command, key, value, exptime) =~= line + "--"@ + value + "--"@);
    // Each of the five is a word in which every dash is lonely.
    lemma_verb_name_letters(verb);
    lemma_parse_verb_name(verb);
    lemma_signed_decimal_word(exptime as int);
    lemma_signed_decimal_word(byte_len(value) as int);
    assert forall|k: int| 0 <= k < command.len() implies !is_whitespace(#[trigger] command[k])
        && command[k] != '-' by {
        assert('a' <= command[k] <= 'z');
    }
    assert(is_word(zero) && lonely_dashes(zero));
    assert forall|i: int| 0 <= i < words.len() implies is_word(#[trigger] words[i]) by {}
    lemma_fields_of_joined(words);
    let space = " "@;
    assert(!is_whitespace('-'));
    assert(lonely_dashes(space));
    assert(lonely_dashes(" 0 "@));
    lemma_lonely_dashes_concat(command, space);
    lemma_lonely_dashes_concat(command + space, key);
    lemma_lonely_dashes_concat(command + space + key, " 0 "@);
    lemma_lonely_dashes_concat(command + space + key + " 0 "@, lifetime);
    lemma_lonely_dashes_concat(command + space + key + " 0 "@ + lifetime, space);
    lemma_lonely_dashes_concat(command + space + key + " 0 "@ + lifetime + space, size);
    lemma_segments_of_two(line, value);
    // The three numbers read back as they were written.
    assert(parse_unsigned(zero, u16::MAX as int) == Some(0int)) by {
        assert(zero.drop_last() =~= Seq::<char>::empty());
        assert(digits_value(zero.drop_last()) == 0);
    }
    lemma_signed_decimal_round_trip(exptime as int, isize::MIN as int, isize::MAX as int);
    lemma_decimal_round_trip(byte_len(value), usize::MAX as int);
}

/// A frame without a separator: a line of lonely dashes is its only
/// segment.
pub proof fn lemma_segments_of_one(line: Seq<char>)
    requires
        lonely_dashes(line),
        line.len() > 0,
    ensures
        segments(line, "--"@) == seq![line],
{
    reveal_strlit("--");
    let sep = "--"@;
    assert(sep =~= seq!['-', '-']);
    assert forall|k: int| 0 <= k implies !occurs_at(line, sep, k) by {
        if occurs_at(line, sep, k) {
            assert(line.subrange(k, k + 2)[0] == sep[0]);
            assert(line.subrange(k, k + 2)[1] == sep[1]);
        }
    }
    lemma_find_from(line, sep, 0);
    assert(line.subrange(0, line.len() as int) =~= line);
}

/// What the client frames, the server understands: the frame of a read
/// parses as `get` with the key, where the key is a word of lonely dashes.
pub proof fn lemma_get_frame_parses(key: Seq<char>)
    requires
        is_word(key),
        lonely_dashes(key),
    ensures
        parse_frame(get_frame(key), "--"@) == Ok::<Frame, FrameError>(
            Frame {
                command: "get"@,
                key,
                value: None,
                flags: None,
                value_size_bytes: None,
                exptime: None,
                no_reply: None,
            },
        ),
{
    reveal_strlit("get ");
    reveal_strlit("get");
    reveal_strlit("--");
    let verb = Verb::GetValue;
    let command = verb.name();
    let words = seq![command, key];
    let line = joined(words);
    assert(line =~= get_frame(key)) by {
        reveal_with_fuel(joined, 3);
        assert(words.drop_first() =~= seq![key]);
    }
    lemma_verb_name_letters(verb);
    lemma_parse_verb_name(verb);
    assert forall|k: int| 0 <= k < command.len() implies !is_whitespace(#[trigger] command[k])
        && command[k] != '-' by {
        assert('a' <= command[k] <= 'z');
    }
    assert forall|i: int| 0 <= i < words.len() implies is_word(#[trigger] words[i]) by {}
    lemma_fields_of_joined(words);
    let space = seq![' '];
    assert(lonely_dashes(space));
    lemma_lonely_dashes_concat(command, space);
    lemma_lonely_dashes_concat(command + space, key);
    assert(line =~= command + space + key);
    lemma_segments_of_one(line);
}

/// The request that the client's frame of a write carries: flags of zero,
/// and the size of the value in bytes.
pub open spec fn framed_request(key: Seq<char>, value: Seq<char>, exptime: isize) -> WriteRequest {
    WriteRequest { key, value, flags: 0, exptime, value_size_in_bytes: byte_len(value) as usize }
}

/// The server does to the cache what the command says, and replies to it,
/// when it is handed the client's frame of a write.
pub proof fn lemma_framed_write(
    verb: Verb,
    state: CacheState,
    key: Seq<char>,
    value: Seq<char>,
    exptime: isize,
    now: i64,
)
    requires
        verb.is_write(),
        is_word(key),
        lonely_dashes(key),
        lonely_dashes(value),
        byte_len(value) <= usize::MAX,
    ensures
        ({
            let frame = write_frame(verb.name(), key, value, exptime);
            let request = framed_request(key, value, exptime);
            &&& handled(state, "--"@, frame, now) == written(verb, state, request, now)
            &&& handling_reply(state, "--"@, frame, now) == Some(
                write_reply(verb, state, request, now),
            )
        }),
{
    lemma_write_frame_parses(verb, key, value, exptime);
    lemma_parse_verb_name(verb);
}

/// The server reads the key, and replies with what it holds, when it is
/// handed the client's frame of a read.
pub proof fn lemma_framed_read(state: CacheState, key: Seq<char>, now: i64)
    requires
        is_word(key),
        lonely_dashes(key),
    ensures
        handled(state, "--"@, get_frame(key), now) == state.read(key, now),
        handling_reply(state, "--"@, get_frame(key), now) == Some(get_reply(state, key, now)),
{
    lemma_get_frame_parses(key);
    lemma_parse_verb_name(Verb::GetValue);
}

/// No line ends within `s`: a carriage return is never followed by a line
/// feed.
pub open spec fn one_line(s: Seq<char>) -> bool {
    forall|k: int| 0 <= k < s.len() - 1 ==> !(#[trigger] s[k] == '\r' && s[k + 1] == '\n')
}

/// The client reads out of the server's reply to a hit the value that the
/// item holds, where the key is a word and the value is one line.
pub proof fn lemma_reply_holds_value(key: Seq<char>, item: ItemView)
    requires
        is_word(key),
        one_line(item.value),
    ensures
        response_value(value_reply(key, item)) == Some(item.value),
{
    reveal_strlit("VALUE ");
    reveal_strlit(" ");
    reveal_strlit("\r\n");
    reveal_strlit("\r\nEND\r\n");
    let flags = decimal(item.flags as nat);
    let length = decimal(item.value_length as nat);
    let head = "VALUE "@ + key + " "@ + flags + " "@ + length;
    let value = item.value;
    let reply = value_reply(key, item);
    let sep = line_end();
    let h = head.len() as int;
    let v = value.len() as int;
    assert(sep =~= seq!['\r', '\n']);
    assert(reply =~= head + sep + value + "\r\nEND\r\n"@);
    assert(reply.len() == h + v + 9);
    // The reply begins with a letter and ends in a line end after a letter.
    assert(reply[0] == 'V');
    assert(!is_whitespace('V') && !is_whitespace('D'));
    assert(trim_start(reply) == reply);
    let body = reply.take(h + v + 7);
    assert(trim_end(reply) == body) by {
        assert(reply.last() == '\n');
        assert(reply.drop_last().last() == '\r');
        assert(reply.drop_last().drop_last() =~= body);
        assert(body.last() == 'D');
        reveal_with_fuel(trim_end, 3);
    }
    assert(trim(reply) == body);
    // No carriage return stands in the head of the reply.
    lemma_decimal_digits(item.flags as nat);
    lemma_decimal_digits(item.value_length as nat);
    assert forall|k: int| 0 <= k < h implies head[k] != '\r' by {
        let a = "VALUE "@.len() as int;
        let b = a + key.len();
        let c = b + 1;
        let d = c + flags.len();
        let e = d + 1;
        if k < a {
            if k == 0 {
            } else if k == 1 {
            } else if k == 2 {
            } else if k == 3 {
            } else if k == 4 {
            } else {
            }
        } else if k < b {
            assert(head[k] == key[k - a]);
            assert(is_whitespace('\r'));
        } else if k < c {
        } else if k < d {
            assert(head[k] == flags[k - c]);
            assert(is_digit(flags[k - c]));
        } else if k < e {
        } else {
            assert(head[k] == length[k - e]);
            assert(is_digit(length[k - e]));
        }
    }
    assert forall|k: int| occurs_at(body, sep, k) implies body[k] == '\r' && body[k + 1]
        == '\n' by {
        assert(body.subrange(k, k + 2)[0] == sep[0]);
        assert(body.subrange(k, k + 2)[1] == sep[1]);
    }
    assert forall|k: int| 0 <= k < h implies !occurs_at(body, sep, k) by {
        assert(body[k] == head[k]);
    }
    assert(body.subrange(h, h + 2) =~= sep);
    lemma_found_at(body, sep, 0, h);
    assert forall|k: int| h + 2 <= k < h + 2 + v implies !occurs_at(body, sep, k) by {
        assert(body[k] == value[k - h - 2]);
        if k + 1 < h + 2 + v {
            assert(body[k + 1] == value[k + 1 - h - 2]);
        } else {
            assert(body[k + 1] == '\r');
        }
    }
    assert(body.subrange(h + 2 + v, h + 4 + v) =~= sep);
    lemma_found_at(body, sep, h + 2, h + 2 + v);
    let rest = split_from(body, sep, h + 2);
    let lines = split_from(body, sep, 0);
    assert(rest == seq![body.subrange(h + 2, h + 2 + v)] + split_from(body, sep, h + 4 + v));
    assert(lines == seq![body.subrange(0, h)] + rest);
    assert(lines[1] == rest[0]);
    assert(body.subrange(h + 2, h + 2 + v) =~= value);
}

/// A value that the client stores it gets back for as long as the item
/// lives: the server carries out the framed `set`, answers the framed `get`
/// with the item, and the client reads the value out of the reply.
pub proof fn lemma_set_get_exchange(
    state: CacheState,
    key: Seq<char>,
    value: Seq<char>,
    exptime: isize,
    now: i64,
    later: i64,
)
    requires
        state.inv(),
        is_word(key),
        lonely_dashes(key),
        lonely_dashes(value),
        one_line(value),
        byte_len(value) <= usize::MAX,
        exptime >= 0,
        later <= now + exptime,
    ensures
        ({
            let stored = handled(state, "--"@, write_frame("set"@, key, value, exptime), now);
            let reply = handling_reply(stored, "--"@, get_frame(key), later);
            reply is Some && response_value(reply->0) == Some(value)
        }),
{
    let request = framed_request(key, value, exptime);
    lemma_framed_write(Verb::SetValue, state, key, value, exptime, now);
    let stored = written(Verb::SetValue, state, request, now);
    lemma_framed_read(stored, key, later);
    lemma_set_then_get(state, request, now, later);
    lemma_inserted_keeps_inv(state, key, request.item(now));
    lemma_reply_holds_value(key, stored.entries[key]);
}

} // verus!
