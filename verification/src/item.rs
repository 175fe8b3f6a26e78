//! A stored value with its metadata, and the rule by which it expires.

use crate::clock::unix_now;
use vstd::prelude::*;

verus! {

/// What an item holds.
pub struct ItemView {
    /// Client metadata, handed back as it came.
    pub flags: u16,
    /// The instant, in seconds since the Unix epoch, after which the item
    /// counts as absent.
    pub expires_at: i64,
    /// The payload.
    pub value: Seq<char>,
    /// The length of the payload in bytes, as the client declared it or as
    /// it was counted after a concatenation.
    pub value_length: usize,
}

impl ItemView {
    /// An item is expired once its instant lies strictly in the past.
    pub open spec fn expired_at(self, now: i64) -> bool {
        self.expires_at < now
    }
}

/// The instant at which an item stored at `now` with a lifetime of `exptime`
/// seconds expires. A negative lifetime makes the item expired from the
/// start: its instant is the second before `now`. Instants that an `i64`
/// cannot hold are replaced by the nearest one that it can.
pub open spec fn expiry(now: i64, exptime: isize) -> i64 {
    if exptime < 0 {
        if now == i64::MIN {
            i64::MIN
        } else {
            (now - 1) as i64
        }
    } else if now + exptime > i64::MAX {
        i64::MAX
    } else {
        (now + exptime) as i64
    }
}

/// The item that a write at `now` stores.
pub open spec fn item_at(
    now: i64,
    flags: u16,
    exptime: isize,
    value_length: usize,
    value: Seq<char>,
) -> ItemView {
    ItemView { flags, expires_at: expiry(now, exptime), value, value_length }
}

/// A stored value with its metadata.
#[derive(Debug)]
pub struct Item {
    pub flags: u16,
    pub expires_at: i64,
    pub value: String,
    pub value_length: usize,
}

impl View for Item {
    type V = ItemView;

    open spec fn view(&self) -> ItemView {
        ItemView {
            flags: self.flags,
            expires_at: self.expires_at,
            value: self.value@,
            value_length: self.value_length,
        }
    }
}

impl Clone for Item {
    fn clone(&self) -> (r: Self)
        ensures
            r@ == self@,
    {
        Item {
            flags: self.flags,
            expires_at: self.expires_at,
            value: self.value.clone(),
            value_length: self.value_length,
        }
    }
}

impl Item {
    /// Makes an item whose lifetime of `exptime` seconds starts at `now`.
    pub fn new_at(now: i64, flags: u16, exptime: isize, value_length: usize, value: String) -> (r:
        Self)
        ensures
            r@ == item_at(now, flags, exptime, value_length, value@),
    {
        let expires_at: i64 = if exptime < 0 {
            if now == i64::MIN {
                i64::MIN
            } else {
                now - 1
            }
        } else {
            match now.checked_add(exptime as i64) {
                Some(t) => t,
                None => i64::MAX,
            }
        };
        Item { flags, expires_at, value, value_length }
    }

    /// Makes an item whose lifetime of `exptime` seconds starts now.
    pub fn new(flags: u16, exptime: isize, value_length: usize, value: String) -> (r: Self)
        ensures
            exists|now: i64| r@ == #[trigger] item_at(now, flags, exptime, value_length, value@),
    {
        let now: i64 = unix_now();
        let r = Item::new_at(now, flags, exptime, value_length, value);
        assert(r@ == item_at(now, flags, exptime, value_length, value@));
        r
    }

    /// Whether the item counts as absent at `now`.
    pub fn expired_at(&self, now: i64) -> (r: bool)
        ensures
            r == self@.expired_at(now),
    {
        self.expires_at < now
    }

    /// Whether the item counts as absent now.
    pub fn expired(&self) -> (r: bool)
        ensures
            exists|now: i64| r == #[trigger] self@.expired_at(now),
    {
        let now: i64 = unix_now();
        let r = self.expired_at(now);
        assert(r == self@.expired_at(now));
        r
    }
}

/// Builds items with fixed contents, for trying out the store.
pub struct ItemBuilder {
    flags: u16,
    exptime: i64,
    value: String,
    value_length: usize,
}

impl View for ItemBuilder {
    type V = ItemView;

    /// The item that `build` makes.
    closed spec fn view(&self) -> ItemView {
        ItemView {
            flags: self.flags,
            expires_at: self.exptime,
            value: self.value@,
            value_length: self.value_length,
        }
    }
}

impl ItemBuilder {
    /// A builder of items without flags that hold the seven bytes `myValue`
    /// and expire at instant 100.
    pub fn new() -> (r: ItemBuilder)
        ensures
            r@ == (ItemView { flags: 0, expires_at: 100, value: "myValue"@, value_length: 7 }),
    {
        ItemBuilder { flags: 0, exptime: 100, value: "myValue".to_owned(), value_length: 7 }
    }

    /// Makes the item.
    pub fn build(&self) -> (r: Item)
        ensures
            r@ == self@,
    {
        Item {
            flags: self.flags,
            expires_at: self.exptime,
            value: self.value.clone(),
            value_length: self.value_length,
        }
    }
}

} // verus!
