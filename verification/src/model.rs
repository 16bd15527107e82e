//! The table as a sequence of slots: what it holds, what a lookup finds and
//! what a write changes.

use vstd::prelude::*;
use crate::entry::Entry;
use crate::entry::EMPTY;

verus! {

/// `n` slots that no key has claimed.
pub open spec fn vacant_slots(n: nat) -> Seq<Entry> {
    Seq::new(n, |i: int| Entry::vacant())
}

/// The first `n` slots are claimed and all the others are untouched.
pub open spec fn filled_to(s: Seq<Entry>, n: int) -> bool {
    &&& 0 <= n <= s.len()
    &&& forall|i: int| 0 <= i < n ==> (#[trigger] s[i]).key != EMPTY
    &&& forall|i: int| n <= i < s.len() ==> #[trigger] s[i] == Entry::vacant()
}

/// No key is bound to two slots.
pub open spec fn distinct_keys(s: Seq<Entry>) -> bool {
    forall|i: int, j: int|
        0 <= i < s.len() && 0 <= j < s.len() && i != j && (#[trigger] s[i]).key != EMPTY
            ==> s[i].key != (#[trigger] s[j]).key
}

/// The shape that every table has: the claimed slots come first, without a
/// gap, and each key owns at most one of them.
pub open spec fn well_formed(s: Seq<Entry>) -> bool {
    &&& exists|n: int| filled_to(s, n)
    &&& distinct_keys(s)
}

/// The number of claimed slots, which is also the index of the first
/// unclaimed one where there is one.
pub open spec fn count(s: Seq<Entry>) -> int {
    choose|n: int| filled_to(s, n)
}

/// Whether no slot is left for a new key.
pub open spec fn is_full(s: Seq<Entry>) -> bool {
    count(s) == s.len()
}

/// Whether some slot is bound to `key`. The key `0` is bound to none.
pub open spec fn holds(s: Seq<Entry>, key: i32) -> bool {
    key != EMPTY && exists|i: int| 0 <= i < s.len() && (#[trigger] s[i]).key == key
}

/// The index of the slot that is bound to `key`, where `holds(s, key)`.
pub open spec fn slot_of(s: Seq<Entry>, key: i32) -> int {
    choose|i: int| 0 <= i < s.len() && (#[trigger] s[i]).key == key
}

/// What a reader gets for `key`: the value of the slot bound to it, or `0`
/// where no slot is.
pub open spec fn lookup(s: Seq<Entry>, key: i32) -> i32 {
    if holds(s, key) {
        s[slot_of(s, key)].value
    } else {
        0
    }
}

/// The slots after a write of `value` for `key`: the slot of `key` gets the
/// value; a key that has no slot takes the first unclaimed one; and where
/// none is left, nothing changes.
pub open spec fn put(s: Seq<Entry>, key: i32, value: i32) -> Seq<Entry> {
    if holds(s, key) {
        s.update(slot_of(s, key), Entry { key, value })
    } else if !is_full(s) {
        s.update(count(s), Entry { key, value })
    } else {
        s
    }
}

/// The slots after the writes of `writes`, each a key and its value, made
/// one after the other from the first on.
pub open spec fn put_all(s: Seq<Entry>, writes: Seq<(i32, i32)>) -> Seq<Entry>
    decreases writes.len(),
{
    if writes.len() == 0 {
        s
    } else {
        put(put_all(s, writes.drop_last()), writes.last().0, writes.last().1)
    }
}

/// No write is for the key `0`.
pub open spec fn real_keys(writes: Seq<(i32, i32)>) -> bool {
    forall|j: int| 0 <= j < writes.len() ==> (#[trigger] writes[j]).0 != EMPTY
}

/// No two writes are for the same key.
pub open spec fn distinct_writes(writes: Seq<(i32, i32)>) -> bool {
    forall|i: int, j: int|
        0 <= i < j < writes.len() ==> (#[trigger] writes[i]).0 != (#[trigger] writes[j]).0
}

/// Whether some write is for `key`.
pub open spec fn written(writes: Seq<(i32, i32)>, key: i32) -> bool {
    exists|j: int| 0 <= j < writes.len() && (#[trigger] writes[j]).0 == key
}

/// The claimed slots end at one place only.
pub proof fn lemma_count_is(s: Seq<Entry>, n: int)
    requires
        filled_to(s, n),
    ensures
        count(s) == n,
{
    let m = count(s);
    assert(filled_to(s, m));
    if m < n {
        assert(s[m].key != EMPTY);
        assert(s[m] == Entry::vacant());
    } else if n < m {
        assert(s[n].key != EMPTY);
        assert(s[n] == Entry::vacant());
    }
}

/// A key that is found in a slot is held, and in that slot.
pub proof fn lemma_slot_is(s: Seq<Entry>, key: i32, i: int)
    requires
        distinct_keys(s),
        key != EMPTY,
        0 <= i < s.len(),
        s[i].key == key,
    ensures
        holds(s, key),
        slot_of(s, key) == i,
{
    let j = slot_of(s, key);
    assert(0 <= j < s.len() && s[j].key == key);
}

/// Unclaimed slots are well formed and hold nothing.
pub proof fn lemma_vacant_slots(n: nat)
    ensures
        well_formed(vacant_slots(n)),
        count(vacant_slots(n)) == 0,
        forall|key: i32| !holds(vacant_slots(n), key),
{
    let s = vacant_slots(n);
    assert(filled_to(s, 0));
    lemma_count_is(s, 0);
}

/// A write that probes up to slot `i`, past slots bound to other keys, and
/// finds it unclaimed or bound to `key`, changes that slot and no other.
pub proof fn lemma_put_at(s: Seq<Entry>, key: i32, value: i32, i: int)
    requires
        well_formed(s),
        key != EMPTY,
        0 <= i < s.len(),
        forall|j: int| 0 <= j < i ==> (#[trigger] s[j]).key != key,
        forall|j: int| 0 <= j < i ==> (#[trigger] s[j]).key != EMPTY,
        s[i].key == EMPTY || s[i].key == key,
    ensures
        put(s, key, value) == s.update(i, Entry { key, value }),
        well_formed(put(s, key, value)),
        count(put(s, key, value)) == if s[i].key == EMPTY { count(s) + 1 } else { count(s) },
{
    let t = s.update(i, Entry { key, value });
    let n = count(s);
    assert(filled_to(s, n));
    if s[i].key == key {
        lemma_slot_is(s, key, i);
        assert(filled_to(t, n));
        lemma_count_is(t, n);
        assert(distinct_keys(t));
    } else {
        assert(i == n) by {
            if i < n {
                assert(s[i].key != EMPTY);
            } else if n < i {
                assert(s[n] == Entry::vacant());
            }
        }
        assert(!holds(s, key)) by {
            if holds(s, key) {
                let j = slot_of(s, key);
                assert(0 <= j < s.len() && s[j].key == key);
                if j >= n {
                    assert(s[j] == Entry::vacant());
                }
            }
        }
        assert(filled_to(t, n + 1));
        lemma_count_is(t, n + 1);
        assert(distinct_keys(t)) by {
            assert forall|a: int, b: int|
                0 <= a < t.len() && 0 <= b < t.len() && a != b && (#[trigger] t[a]).key != EMPTY
                implies t[a].key != (#[trigger] t[b]).key by {
                if a != i && b != i {
                    assert(s[a].key != EMPTY);
                    assert(s[a].key != s[b].key);
                } else if a == i {
                    if b > n {
                        assert(s[b] == Entry::vacant());
                    } else {
                        assert(s[b].key != key);
                    }
                } else {
                    assert(s[a].key != EMPTY);
                    if a > n {
                        assert(s[a] == Entry::vacant());
                    }
                    assert(s[a].key != key);
                }
            }
        }
    }
}

/// A write for a key that the probe does not find, in a table without an
/// unclaimed slot, changes nothing.
pub proof fn lemma_put_dropped(s: Seq<Entry>, key: i32, value: i32)
    requires
        well_formed(s),
        forall|j: int| 0 <= j < s.len() ==> (#[trigger] s[j]).key != key,
        forall|j: int| 0 <= j < s.len() ==> (#[trigger] s[j]).key != EMPTY,
    ensures
        !holds(s, key),
        is_full(s),
        put(s, key, value) == s,
{
    assert(filled_to(s, s.len() as int));
    lemma_count_is(s, s.len() as int);
}

/// A write keeps the table well formed and its length, and claims one more
/// slot exactly when the key is new and a slot is left.
pub proof fn lemma_put_well_formed(s: Seq<Entry>, key: i32, value: i32)
    requires
        well_formed(s),
        key != EMPTY,
    ensures
        well_formed(put(s, key, value)),
        put(s, key, value).len() == s.len(),
        count(put(s, key, value)) == if holds(s, key) || is_full(s) {
            count(s)
        } else {
            count(s) + 1
        },
        0 <= count(s) <= s.len(),
{
    let n = count(s);
    assert(filled_to(s, n));
    if holds(s, key) {
        let i = slot_of(s, key);
        assert(0 <= i < s.len() && s[i].key == key);
        if i >= n {
            assert(s[i] == Entry::vacant());
        }
        lemma_put_at(s, key, value, i);
    } else if !is_full(s) {
        assert(s[n] == Entry::vacant());
        lemma_put_at(s, key, value, n);
    }
}

} // verus!
