//! One slot of the table and the steps that act on it.

use vstd::prelude::*;

verus! {

/// The key of a slot that no key has claimed yet.
pub const EMPTY: i32 = 0;

/// A slot: the key it is bound to, or `EMPTY`, and the value stored for it.
#[derive(Clone, Copy, Debug, PartialEq, Eq, Structural)]
pub struct Entry {
    pub key: i32,
    pub value: i32,
}

impl Entry {
    /// The slot as it is before any key has claimed it.
    pub open spec fn vacant() -> Entry {
        Entry { key: EMPTY, value: 0 }
    }

    /// The slot after a writer of `key` has tried to claim it: an unclaimed
    /// slot is bound to `key`, a claimed one keeps the key it has.
    pub open spec fn claimed_by(self, key: i32) -> Entry {
        if self.key == EMPTY {
            Entry { key, value: self.value }
        } else {
            self
        }
    }

    /// A slot that no key has claimed.
    pub fn new() -> (e: Entry)
        ensures
            e == Entry::vacant(),
    {
        Entry { key: EMPTY, value: 0 }
    }

    /// Compares the slot's key with `EMPTY` and swaps `key` in where they are
    /// equal: an unclaimed slot is bound to `key`, a claimed one stays as it
    /// is. Returns the key that the slot had before, so the caller owns the
    /// slot if that is `EMPTY` or `key`. The value is not touched.
    pub fn claim(&mut self, key: i32) -> (seen: i32)
        ensures
            seen == old(self).key,
            *final(self) == old(self).claimed_by(key),
    {
        let seen: i32 = self.key;
        if seen == EMPTY {
            self.key = key;
        }
        seen
    }

    /// Writes `value` into the slot and leaves its key as it is.
    pub fn store(&mut self, value: i32)
        ensures
            *final(self) == (Entry { key: old(self).key, value }),
    {
        self.value = value;
    }

    /// The key that the slot is bound to, or `EMPTY`.
    pub fn load_key(&self) -> (key: i32)
        ensures
            key == self.key,
    {
        self.key
    }

    /// The value that the slot holds.
    pub fn load_value(&self) -> (value: i32)
        ensures
            value == self.value,
    {
        self.value
    }
}

} // verus!
