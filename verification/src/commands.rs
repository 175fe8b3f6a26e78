//! The command processor: what each command does to the cache, and what
//! the server replies.

use crate::chars::{byte_len, str_byte_len, strip_line_end, without_line_end};
use crate::clock::unix_now;
use crate::decimal::{decimal, push_decimal};
use crate::item::{item_at, Item, ItemView};
use crate::protocol_parser::{
    parse_frame, wrong_command, CommandParserInputData, CommandParserInputDataBuilder, Frame, Verb,
};
use crate::store_manager::{
    lemma_inserted_keeps_inv, lemma_read_keeps_inv, lemma_updated_keeps_inv, CacheState,
    StoreManager,
};
use vstd::prelude::*;
use vstd::string::StringExecFns;

verus! {

/// What a write command carries.
pub struct WriteRequest {
    pub key: Seq<char>,
    pub value: Seq<char>,
    pub flags: u16,
    pub exptime: isize,
    pub value_size_in_bytes: usize,
}

impl WriteRequest {
    /// The item that the request stores when it arrives at `now`.
    pub open spec fn item(self, now: i64) -> ItemView {
        item_at(now, self.flags, self.exptime, self.value_size_in_bytes, self.value)
    }
}

/// What a write command carries.
pub struct CommandDto {
    pub key: String,
    pub value: String,
    pub flags: u16,
    pub exptime: isize,
    pub value_size_in_bytes: usize,
}

impl View for CommandDto {
    type V = WriteRequest;

    open spec fn view(&self) -> WriteRequest {
        WriteRequest {
            key: self.key@,
            value: self.value@,
            flags: self.flags,
            exptime: self.exptime,
            value_size_in_bytes: self.value_size_in_bytes,
        }
    }
}

/// The reply to a write that stored its value.
pub open spec fn stored() -> Seq<char> {
    "STORED\r\n"@
}

/// The reply to a write that left the cache as it was.
pub open spec fn not_stored() -> Seq<char> {
    "NOT_STORED\r\n"@
}

/// The reply to a read that found nothing.
pub open spec fn end() -> Seq<char> {
    "END\r\n"@
}

/// The reply to a read that found `item` under `key`.
pub open spec fn value_reply(key: Seq<char>, item: ItemView) -> Seq<char> {
    "VALUE "@ + key + " "@ + decimal(item.flags as nat) + " "@ + decimal(item.value_length as nat)
        + "\r\n"@ + item.value + "\r\nEND\r\n"@
}

/// The reply to a read of `key` at `now`.
pub open spec fn get_reply(state: CacheState, key: Seq<char>, now: i64) -> Seq<char> {
    match state.lookup(key, now) {
        Some(item) => value_reply(key, item),
        None => end(),
    }
}

/// Whether a write does its work: `set` always, `add` unless the key holds
/// a live item, the others if the key is there, expired or not.
pub open spec fn write_applies(verb: Verb, state: CacheState, key: Seq<char>, now: i64) -> bool {
    match verb {
        Verb::SetValue => true,
        Verb::AddValue => !state.live(key, now),
        _ => state.entries.contains_key(key),
    }
}

/// The value that `append` leaves: the old value, then the new one without
/// the line ends that it finishes with.
pub open spec fn appended_value(old: Seq<char>, new: Seq<char>) -> Seq<char> {
    old + strip_line_end(new)
}

/// The value that `prepend` leaves: the new value without the line ends
/// that it finishes with, then the old one.
pub open spec fn prepended_value(old: Seq<char>, new: Seq<char>) -> Seq<char> {
    strip_line_end(new) + old
}

/// The cache after `append`: where the key is there, its value is the old
/// value followed by the new one and its length is counted anew. The flags
/// and the expiry of the request are ignored, and the key is not used.
pub open spec fn appended(state: CacheState, d: WriteRequest) -> CacheState {
    let v = appended_value(state.entries[d.key].value, d.value);
    state.updated(d.key, v, byte_len(v) as usize)
}

/// The cache after `prepend`: as after `append`, with the new value in
/// front of the old one.
pub open spec fn prepended(state: CacheState, d: WriteRequest) -> CacheState {
    let v = prepended_value(state.entries[d.key].value, d.value);
    state.updated(d.key, v, byte_len(v) as usize)
}

/// The cache after a write command that arrives at `now`. `set`, `add` and
/// `replace` store a new item and use the key, or leave the cache as it was.
pub open spec fn written(verb: Verb, state: CacheState, d: WriteRequest, now: i64) -> CacheState {
    match verb {
        Verb::AppendValue => appended(state, d),
        Verb::PrependValue => prepended(state, d),
        _ => if write_applies(verb, state, d.key, now) {
            state.inserted(d.key, d.item(now))
        } else {
            state
        },
    }
}

/// The reply to a write command that arrives at `now`.
pub open spec fn write_reply(verb: Verb, state: CacheState, d: WriteRequest, now: i64) -> Seq<
    char,
> {
    if write_applies(verb, state, d.key, now) {
        stored()
    } else {
        not_stored()
    }
}

/// What a complete write frame carries.
pub open spec fn write_request(frame: Frame) -> WriteRequest {
    WriteRequest {
        key: frame.key,
        value: frame.value->0,
        flags: frame.flags->0,
        exptime: frame.exptime->0,
        value_size_in_bytes: frame.value_size_bytes->0,
    }
}

/// The cache after the request in `frame` was carried out at `now`. A
/// frame that is not complete changes nothing.
pub open spec fn executed(state: CacheState, frame: Frame, now: i64) -> CacheState {
    match frame.verb() {
        Some(verb) => if !frame.complete() {
            state
        } else if verb.is_write() {
            written(verb, state, write_request(frame), now)
        } else {
            state.read(frame.key, now)
        },
        None => state,
    }
}

/// What the server sends back for the request in `frame`. A read is always
/// answered; a write is answered unless the frame asks for no reply. A
/// frame that is not complete is answered as a wrong command.
pub open spec fn execution_reply(state: CacheState, frame: Frame, now: i64) -> Option<Seq<char>> {
    match frame.verb() {
        Some(verb) => if !frame.complete() {
            Some(wrong_command())
        } else if verb.is_write() {
            if frame.no_reply == Some(false) {
                Some(write_reply(verb, state, write_request(frame), now))
            } else {
                None
            }
        } else {
            Some(get_reply(state, frame.key, now))
        },
        None => Some(wrong_command()),
    }
}

/// The cache after the buffer `data` was handled at `now`: a frame that
/// parses is carried out, any other leaves the cache as it was.
pub open spec fn handled(state: CacheState, separator: Seq<char>, data: Seq<char>, now: i64)
    -> CacheState {
    match parse_frame(data, separator) {
        Ok(frame) => executed(state, frame, now),
        Err(_) => state,
    }
}

/// What the server sends back for the buffer `data`: the reply to the
/// request, or the reply that names the error.
pub open spec fn handling_reply(
    state: CacheState,
    separator: Seq<char>,
    data: Seq<char>,
    now: i64,
) -> Option<Seq<char>> {
    match parse_frame(data, separator) {
        Ok(frame) => execution_reply(state, frame, now),
        Err(e) => Some(e.reply()),
    }
}

/// Whether the string `r`, if there is one, reads as `expected`.
pub open spec fn reply_is(r: Option<String>, expected: Option<Seq<char>>) -> bool {
    match r {
        Some(text) => expected == Some(text@),
        None => expected is None,
    }
}

/// An item that is stored with a negative lifetime is absent from the first
/// read on, yet it is in the cache and takes up room there: a read does not
/// remove it.
pub proof fn lemma_expired_from_the_start(state: CacheState, d: WriteRequest, now: i64, later: i64)
    requires
        state.inv(),
        d.exptime < 0,
        i64::MIN < now <= later,
    ensures
        ({
            let after = written(Verb::SetValue, state, d, now);
            &&& after.lookup(d.key, later) is None
            &&& get_reply(after, d.key, later) == end()
            &&& after.entries.contains_key(d.key)
            &&& after.order.contains(d.key)
            &&& after.read(d.key, later) == after
        }),
{
    lemma_inserted_keeps_inv(state, d.key, d.item(now));
    let after = written(Verb::SetValue, state, d, now);
    assert(after.order[0] == d.key);
}

/// What `set` stores, `get` yields for as long as the item lives: the key,
/// the flags and the declared length in decimal, and the value.
pub proof fn lemma_set_then_get(state: CacheState, d: WriteRequest, now: i64, later: i64)
    requires
        state.inv(),
        d.exptime >= 0,
        later <= now + d.exptime,
    ensures
        write_reply(Verb::SetValue, state, d, now) == stored(),
        get_reply(written(Verb::SetValue, state, d, now), d.key, later) == "VALUE "@ + d.key + " "@
            + decimal(d.flags as nat) + " "@ + decimal(d.value_size_in_bytes as nat) + "\r\n"@
            + d.value + "\r\nEND\r\n"@,
{
    lemma_inserted_keeps_inv(state, d.key, d.item(now));
}

/// `add` stores on a key that is not there. A second `add` on the key, while
/// the item lives, is refused and leaves the cache as it was, the first
/// value included.
pub proof fn lemma_add_twice(
    state: CacheState,
    first: WriteRequest,
    second: WriteRequest,
    now: i64,
    later: i64,
)
    requires
        state.inv(),
        !state.entries.contains_key(first.key),
        second.key == first.key,
        first.exptime >= 0,
        later <= now + first.exptime,
    ensures
        write_reply(Verb::AddValue, state, first, now) == stored(),
        ({
            let after = written(Verb::AddValue, state, first, now);
            &&& write_reply(Verb::AddValue, after, second, later) == not_stored()
            &&& written(Verb::AddValue, after, second, later) == after
            &&& after.entries[first.key].value == first.value
        }),
{
    lemma_inserted_keeps_inv(state, first.key, first.item(now));
}

/// Two appends leave the old value followed by both new ones, each without
/// the line ends that it finishes with, and a length that is the number of
/// bytes of the whole, whatever sizes the requests declared.
pub proof fn lemma_append_twice(state: CacheState, first: WriteRequest, second: WriteRequest)
    requires
        state.entries.contains_key(first.key),
        second.key == first.key,
    ensures
        ({
            let old_value = state.entries[first.key].value;
            let value = old_value + strip_line_end(first.value) + strip_line_end(second.value);
            let item = appended(appended(state, first), second).entries[first.key];
            &&& item.value == value
            &&& byte_len(value) <= usize::MAX ==> item.value_length == byte_len(value)
            &&& item.flags == state.entries[first.key].flags
            &&& item.expires_at == state.entries[first.key].expires_at
            &&& appended(appended(state, first), second).order == state.order
        }),
{
}

/// Whatever frame arrives, handling it keeps the cache in order: every key
/// stands once in the recency order, the order holds the keys and nothing
/// else, and the capacity is kept.
pub proof fn lemma_handled_keeps_inv(
    state: CacheState,
    separator: Seq<char>,
    data: Seq<char>,
    now: i64,
)
    requires
        state.inv(),
    ensures
        handled(state, separator, data, now).inv(),
        handled(state, separator, data, now).capacity == state.capacity,
{
    match parse_frame(data, separator) {
        Ok(frame) => {
            lemma_executed_keeps_inv(state, frame, now);
        },
        Err(_) => {},
    }
}

/// Whatever request is carried out, the cache stays in order.
pub proof fn lemma_executed_keeps_inv(state: CacheState, frame: Frame, now: i64)
    requires
        state.inv(),
    ensures
        executed(state, frame, now).inv(),
        executed(state, frame, now).capacity == state.capacity,
{
    match frame.verb() {
        Some(verb) => {
            if verb.is_write() {
                lemma_written_keeps_inv(verb, state, write_request(frame), now);
            } else {
                lemma_read_keeps_inv(state, frame.key, now);
            }
        },
        None => {},
    }
}

/// Whatever is written, the cache stays in order.
pub proof fn lemma_written_keeps_inv(verb: Verb, state: CacheState, d: WriteRequest, now: i64)
    requires
        state.inv(),
    ensures
        written(verb, state, d, now).inv(),
        written(verb, state, d, now).capacity == state.capacity,
{
    lemma_inserted_keeps_inv(state, d.key, d.item(now));
    let old_value = state.entries[d.key].value;
    let a = appended_value(old_value, d.value);
    let p = prepended_value(old_value, d.value);
    lemma_updated_keeps_inv(state, d.key, a, byte_len(a) as usize);
    lemma_updated_keeps_inv(state, d.key, p, byte_len(p) as usize);
}

/// The command processor, on top of the cache that it works on.
pub struct Commands {
    store: StoreManager,
}

impl View for Commands {
    type V = CacheState;

    closed spec fn view(&self) -> CacheState {
        self.store@
    }
}

impl Commands {
    /// The cache underneath is well formed.
    pub closed spec fn wf(&self) -> bool {
        self.store.wf()
    }

    /// A well-formed processor works on a cache in order.
    pub proof fn lemma_wf_inv(&self)
        requires
            self.wf(),
        ensures
            self@.inv(),
    {
        self.store.lemma_wf_inv();
    }

    /// A command processor that works on `store`.
    pub fn new(store: StoreManager) -> (r: Commands)
        requires
            store.wf(),
        ensures
            r.wf(),
            r@ == store@,
    {
        Commands { store }
    }

    /// The cache underneath, to look at.
    pub fn store(&self) -> (r: &StoreManager)
        requires
            self.wf(),
        ensures
            r.wf(),
            r@ == self@,
    {
        &self.store
    }

    /// Gives the cache back.
    pub fn into_store(self) -> (r: StoreManager)
        requires
            self.wf(),
        ensures
            r.wf(),
            r@ == self@,
    {
        self.store
    }

    /// Stores the value at `now`, whatever the key held.
    pub fn set_at(&mut self, data: CommandDto, now: i64) -> (r: String)
        requires
            old(self).wf(),
        ensures
            final(self).wf(),
            final(self)@ == written(Verb::SetValue, old(self)@, data@, now),
            r@ == write_reply(Verb::SetValue, old(self)@, data@, now),
    {
        let item: Item = Item::new_at(
            now,
            data.flags,
            data.exptime,
            data.value_size_in_bytes,
            data.value,
        );
        self.store.insert_or_update(data.key, item);
        "STORED\r\n".to_owned()
    }

    /// Stores the value at `now` unless the key holds a live item.
    pub fn add_at(&mut self, data: CommandDto, now: i64) -> (r: String)
        requires
            old(self).wf(),
        ensures
            final(self).wf(),
            final(self)@ == written(Verb::AddValue, old(self)@, data@, now),
            r@ == write_reply(Verb::AddValue, old(self)@, data@, now),
    {
        let live: bool = match self.store.peek(data.key.as_str()) {
            Some(item) => !item.expired_at(now),
            None => false,
        };
        if live {
            return "NOT_STORED\r\n".to_owned();
        }
        self.set_at(data, now)
    }

    /// Stores the value at `now` if the key is there, expired or not.
    pub fn replace_at(&mut self, data: CommandDto, now: i64) -> (r: String)
        requires
            old(self).wf(),
        ensures
            final(self).wf(),
            final(self)@ == written(Verb::ReplaceValue, old(self)@, data@, now),
            r@ == write_reply(Verb::ReplaceValue, old(self)@, data@, now),
    {
        if !self.store.contains(data.key.as_str()) {
            return "NOT_STORED\r\n".to_owned();
        }
        self.set_at(data, now)
    }

    /// Puts the value behind the one that the key holds, if the key is there.
    pub fn append(&mut self, data: CommandDto) -> (r: String)
        requires
            old(self).wf(),
        ensures
            final(self).wf(),
            final(self)@ == appended(old(self)@, data@),
            r@ == (if old(self)@.entries.contains_key(data@.key) {
                stored()
            } else {
                not_stored()
            }),
    {
        let mut value: String = match self.store.peek(data.key.as_str()) {
            Some(item) => item.value.clone(),
            None => {
                return "NOT_STORED\r\n".to_owned();
            },
        };
        value.append(without_line_end(data.value.as_str()));
        let length: usize = str_byte_len(value.as_str());
        let _ = self.store.update_value(data.key, value, length);
        "STORED\r\n".to_owned()
    }

    /// Puts the value in front of the one that the key holds, if the key is
    /// there.
    pub fn prepend(&mut self, data: CommandDto) -> (r: String)
        requires
            old(self).wf(),
        ensures
            final(self).wf(),
            final(self)@ == prepended(old(self)@, data@),
            r@ == (if old(self)@.entries.contains_key(data@.key) {
                stored()
            } else {
                not_stored()
            }),
    {
        let mut value: String = without_line_end(data.value.as_str()).to_owned();
        match self.store.peek(data.key.as_str()) {
            Some(item) => {
                value.append(item.value.as_str());
            },
            None => {
                return "NOT_STORED\r\n".to_owned();
            },
        }
        let length: usize = str_byte_len(value.as_str());
        let _ = self.store.update_value(data.key, value, length);
        "STORED\r\n".to_owned()
    }

    /// Reads `key` at `now`.
    pub fn get_at(&mut self, key: &str, now: i64) -> (r: String)
        requires
            old(self).wf(),
        ensures
            final(self).wf(),
            final(self)@ == old(self)@.read(key@, now),
            r@ == get_reply(old(self)@, key@, now),
    {
        match self.store.get_at(key.to_owned(), now) {
            None => "END\r\n".to_owned(),
            Some(item) => {
                let mut r: String = "VALUE ".to_owned();
                r.append(key);
                r.append(" ");
                push_decimal(&mut r, item.flags as u64);
                r.append(" ");
                push_decimal(&mut r, item.value_length as u64);
                r.append("\r\n");
                r.append(item.value.as_str());
                r.append("\r\nEND\r\n");
                r
            },
        }
    }

    /// Stores the value now, whatever the key held.
    pub fn set(&mut self, data: CommandDto) -> (r: String)
        requires
            old(self).wf(),
        ensures
            final(self).wf(),
            exists|now: i64|
                final(self)@ == #[trigger] written(Verb::SetValue, old(self)@, data@, now) && r@
                    == write_reply(Verb::SetValue, old(self)@, data@, now),
    {
        let now: i64 = unix_now();
        self.set_at(data, now)
    }

    /// Stores the value now unless the key holds a live item.
    pub fn add(&mut self, data: CommandDto) -> (r: String)
        requires
            old(self).wf(),
        ensures
            final(self).wf(),
            exists|now: i64|
                final(self)@ == #[trigger] written(Verb::AddValue, old(self)@, data@, now) && r@
                    == write_reply(Verb::AddValue, old(self)@, data@, now),
    {
        let now: i64 = unix_now();
        self.add_at(data, now)
    }

    /// Stores the value now if the key is there, expired or not.
    pub fn replace(&mut self, data: CommandDto) -> (r: String)
        requires
            old(self).wf(),
        ensures
            final(self).wf(),
            exists|now: i64|
                final(self)@ == #[trigger] written(Verb::ReplaceValue, old(self)@, data@, now)
                    && r@ == write_reply(Verb::ReplaceValue, old(self)@, data@, now),
    {
        let now: i64 = unix_now();
        self.replace_at(data, now)
    }

    /// Reads `key` now.
    pub fn get(&mut self, key: &str) -> (r: String)
        requires
            old(self).wf(),
        ensures
            final(self).wf(),
            exists|now: i64|
                final(self)@ == #[trigger] old(self)@.read(key@, now) && r@ == get_reply(
                    old(self)@,
                    key@,
                    now,
                ),
    {
        let now: i64 = unix_now();
        self.get_at(key, now)
    }

    /// Carries out a write command at `now`.
    fn write_at(&mut self, verb: Verb, data: CommandDto, now: i64) -> (r: String)
        requires
            old(self).wf(),
            verb.is_write(),
        ensures
            final(self).wf(),
            final(self)@ == written(verb, old(self)@, data@, now),
            r@ == write_reply(verb, old(self)@, data@, now),
    {
        match verb {
            Verb::AddValue => self.add_at(data, now),
            Verb::ReplaceValue => self.replace_at(data, now),
            Verb::AppendValue => self.append(data),
            Verb::PrependValue => self.prepend(data),
            _ => self.set_at(data, now),
        }
    }

    /// Carries out a parsed request at `now` and returns what to send back,
    /// if anything.
    pub fn execute_at(&mut self, request: CommandParserInputData, now: i64) -> (r: Option<String>)
        requires
            old(self).wf(),
        ensures
            final(self).wf(),
            final(self)@ == executed(old(self)@, request@, now),
            reply_is(r, execution_reply(old(self)@, request@, now)),
    {
        let verb: Verb = match request.verb() {
            Some(verb) => verb,
            None => {
                return Some("wrong command\r\n".to_owned());
            },
        };
        if !verb.writes() {
            return Some(self.get_at(request.key.as_str(), now));
        }
        match (
            request.value,
            request.flags,
            request.exptime,
            request.value_size_bytes,
            request.no_reply,
        ) {
            (Some(value), Some(flags), Some(exptime), Some(size), Some(no_reply)) => {
                let data = CommandDto {
                    key: request.key,
                    value,
                    flags,
                    exptime,
                    value_size_in_bytes: size,
                };
                let reply: String = self.write_at(verb, data, now);
                if no_reply {
                    None
                } else {
                    Some(reply)
                }
            },
            _ => Some("wrong command\r\n".to_owned()),
        }
    }

    /// Carries out a parsed request now and returns what to send back, if
    /// anything.
    pub fn execute(&mut self, request: CommandParserInputData) -> (r: Option<String>)
        requires
            old(self).wf(),
        ensures
            final(self).wf(),
            exists|now: i64|
                final(self)@ == #[trigger] executed(old(self)@, request@, now) && reply_is(
                    r,
                    execution_reply(old(self)@, request@, now),
                ),
    {
        let now: i64 = unix_now();
        self.execute_at(request, now)
    }

    /// Handles one inbound buffer at `now`: parses it, carries the request
    /// out, and returns what to send back, if anything.
    pub fn handle_at(
        &mut self,
        parser: &CommandParserInputDataBuilder,
        data: String,
        now: i64,
    ) -> (r: Option<String>)
        requires
            old(self).wf(),
        ensures
            final(self).wf(),
            final(self)@ == handled(old(self)@, parser.separator(), data@, now),
            reply_is(r, handling_reply(old(self)@, parser.separator(), data@, now)),
    {
        match parser.build(data) {
            Ok(request) => self.execute_at(request, now),
            Err(e) => Some(e.reply()),
        }
    }

    /// Handles one inbound buffer now.
    pub fn handle(&mut self, parser: &CommandParserInputDataBuilder, data: String) -> (r: Option<
        String,
    >)
        requires
            old(self).wf(),
        ensures
            final(self).wf(),
            exists|now: i64|
                final(self)@ == #[trigger] handled(old(self)@, parser.separator(), data@, now)
                    && reply_is(r, handling_reply(old(self)@, parser.separator(), data@, now)),
    {
        let now: i64 = unix_now();
        self.handle_at(parser, data, now)
    }
}

} // verus!
