//! The table itself: construction, the write that claims or updates a slot,
//! and the lookup.

use vstd::prelude::*;
use crate::entry::Entry;
use crate::entry::EMPTY;
use crate::laws::law_read_after_write;
use crate::laws::law_write_keeps_others;
use crate::model::count;
use crate::model::filled_to;
use crate::model::holds;
use crate::model::is_full;
use crate::model::lemma_put_at;
use crate::model::lemma_put_dropped;
use crate::model::lemma_put_well_formed;
use crate::model::lemma_slot_is;
use crate::model::lemma_vacant_slots;
use crate::model::lookup;
use crate::model::put;
use crate::model::vacant_slots;
use crate::model::well_formed;

verus! {

/// The number of slots of a table made by `HashTable::new`.
pub const DEFAULT_CAPACITY: usize = 1000;

/// A table with a fixed number of slots. It never grows, and no key ever
/// leaves it.
pub struct HashTable {
    entries: Vec<Entry>,
}

impl View for HashTable {
    type V = Seq<Entry>;

    /// The slots, in the order in which they are probed.
    closed spec fn view(&self) -> Seq<Entry> {
        self.entries@
    }
}

impl HashTable {
    /// The claimed slots come first and no key owns two of them.
    #[verifier::type_invariant]
    spec fn inv(&self) -> bool {
        well_formed(self.entries@)
    }

    /// A table of `DEFAULT_CAPACITY` slots that holds nothing.
    pub fn new() -> (table: HashTable)
        ensures
            table@ == vacant_slots(DEFAULT_CAPACITY as nat),
            well_formed(table@),
            count(table@) == 0,
    {
        HashTable::with_capacity(DEFAULT_CAPACITY)
    }

    /// A table of `capacity` slots that holds nothing.
    pub fn with_capacity(capacity: usize) -> (table: HashTable)
        ensures
            table@ == vacant_slots(capacity as nat),
            well_formed(table@),
            count(table@) == 0,
    {
        let mut entries: Vec<Entry> = Vec::new();
        let mut i: usize = 0;
        while i < capacity
            invariant
                i <= capacity,
                entries@ == vacant_slots(i as nat),
            decreases capacity - i,
        {
            entries.push(Entry::new());
            i += 1;
            assert(entries@ =~= vacant_slots(i as nat));
        }
        proof {
            lemma_vacant_slots(capacity as nat);
        }
        HashTable { entries }
    }

    /// Stores `val` for `key`, which is not `0`. The probe goes from the
    /// first slot on and tries to claim each slot for `key`; it ends at the
    /// first slot that was unclaimed or was bound to `key` already, and
    /// writes the value there. Where every slot is bound to another key, the
    /// write is dropped and the table stays as it is.
    #[verifier::loop_isolation(false)]
    pub fn set_item(&mut self, key: i32, val: i32)
        requires
            key != EMPTY,
        ensures
            final(self)@ == put(old(self)@, key, val),
            well_formed(final(self)@),
            final(self)@.len() == old(self)@.len(),
            count(final(self)@) == if holds(old(self)@, key) || is_full(old(self)@) {
                count(old(self)@)
            } else {
                count(old(self)@) + 1
            },
            holds(old(self)@, key) || !is_full(old(self)@) ==> lookup(final(self)@, key) == val,
            !holds(old(self)@, key) && is_full(old(self)@) ==> final(self)@ == old(self)@,
            forall|other: i32|
                other != key ==> #[trigger] lookup(final(self)@, other) == lookup(
                    old(self)@,
                    other,
                ),
    {
        proof {
            use_type_invariant(&*self);
            // The table is well formed while its slots are taken out.
            lemma_vacant_slots(0);
            assert(Seq::<Entry>::empty() =~= vacant_slots(0));
            lemma_put_well_formed(self.entries@, key, val);
            if holds(self.entries@, key) || !is_full(self.entries@) {
                law_read_after_write(self.entries@, key, val);
            }
            assert forall|other: i32| other != key implies #[trigger] lookup(
                put(self.entries@, key, val),
                other,
            ) == lookup(self.entries@, other) by {
                law_write_keeps_others(self.entries@, key, val, other);
            }
        }
        let mut entries: Vec<Entry> = Vec::new();
        std::mem::swap(&mut entries, &mut self.entries);
        let n: usize = entries.len();
        let mut i: usize = 0;
        while i < n
            invariant
                i <= n,
                entries@ == old(self).entries@,
                forall|j: int| 0 <= j < i ==> (#[trigger] entries@[j]).key != key,
                forall|j: int| 0 <= j < i ==> (#[trigger] entries@[j]).key != EMPTY,
            decreases n - i,
        {
            let seen: i32 = entries[i].claim(key);
            if seen == EMPTY || seen == key {
                entries[i].store(val);
                proof {
                    lemma_put_at(old(self).entries@, key, val, i as int);
                    assert(entries@ =~= old(self).entries@.update(i as int, Entry { key, value: val }));
                }
                self.entries = entries;
                return;
            }
            // The slot is bound to another key, and the claim left it so.
            assert(entries@ =~= old(self).entries@);
            i += 1;
        }
        proof {
            lemma_put_dropped(entries@, key, val);
        }
        self.entries = entries;
    }

    /// The value stored for `key`, or `0` where the table does not hold the
    /// key. The probe goes from the first slot on and ends at the slot bound
    /// to `key` or at the first unclaimed one, behind which no key can be.
    pub fn get_item(&self, key: i32) -> (value: i32)
        ensures
            value == lookup(self@, key),
            well_formed(self@),
    {
        proof {
            use_type_invariant(self);
        }
        let n: usize = self.entries.len();
        let mut i: usize = 0;
        while i < n
            invariant
                n == self.entries@.len(),
                i <= n,
                well_formed(self.entries@),
                forall|j: int| 0 <= j < i ==> (#[trigger] self.entries@[j]).key != key,
                forall|j: int| 0 <= j < i ==> (#[trigger] self.entries@[j]).key != EMPTY,
            decreases n - i,
        {
            let seen: i32 = self.entries[i].load_key();
            if seen == key {
                proof {
                    if key != EMPTY {
                        lemma_slot_is(self.entries@, key, i as int);
                    } else {
                        let m = count(self.entries@);
                        assert(filled_to(self.entries@, m));
                        assert(self.entries@[i as int] == Entry::vacant());
                    }
                }
                return self.entries[i].load_value();
            } else if seen == EMPTY {
                proof {
                    let m = count(self.entries@);
                    assert(filled_to(self.entries@, m));
                    assert(forall|j: int|
                        0 <= j < n ==> (#[trigger] self.entries@[j]).key != key);
                }
                return 0;
            }
            i += 1;
        }
        0
    }
}

} // verus!
