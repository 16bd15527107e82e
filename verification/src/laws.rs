//! What holds of every table, stated over its slots and proved from the
//! definitions of `put` and `lookup`.

use vstd::prelude::*;
use crate::entry::Entry;
use crate::entry::EMPTY;
use crate::model::count;
use crate::model::distinct_writes;
use crate::model::filled_to;
use crate::model::holds;
use crate::model::is_full;
use crate::model::lemma_count_is;
use crate::model::lemma_put_well_formed;
use crate::model::lemma_slot_is;
use crate::model::lemma_vacant_slots;
use crate::model::lookup;
use crate::model::put;
use crate::model::put_all;
use crate::model::real_keys;
use crate::model::slot_of;
use crate::model::vacant_slots;
use crate::model::well_formed;
use crate::model::written;

verus! {

/// Of two claims on one slot the first wins: the slot keeps the key of the
/// first claim, and the second claim finds that key there.
pub proof fn law_first_claim_wins(slot: Entry, first: i32, second: i32)
    requires
        slot.key == EMPTY,
        first != EMPTY,
    ensures
        slot.claimed_by(first).key == first,
        slot.claimed_by(first).claimed_by(second) == slot.claimed_by(first),
{
}

/// A key owns one slot at most.
pub proof fn law_one_slot_per_key(s: Seq<Entry>, key: i32, i: int, j: int)
    requires
        well_formed(s),
        key != EMPTY,
        0 <= i < s.len(),
        0 <= j < s.len(),
        s[i].key == key,
        s[j].key == key,
    ensures
        i == j,
{
}

/// A key that was written reads as the value written, provided the table
/// held the key already or had a slot left for it.
pub proof fn law_read_after_write(s: Seq<Entry>, key: i32, value: i32)
    requires
        well_formed(s),
        key != EMPTY,
        holds(s, key) || !is_full(s),
    ensures
        holds(put(s, key, value), key),
        lookup(put(s, key, value), key) == value,
{
    lemma_put_well_formed(s, key, value);
    let i = if holds(s, key) { slot_of(s, key) } else { count(s) };
    if holds(s, key) {
        assert(0 <= i < s.len() && s[i].key == key);
    }
    lemma_slot_is(put(s, key, value), key, i);
}

/// A write for one key changes what no other key reads as, nor whether the
/// table holds it.
pub proof fn law_write_keeps_others(s: Seq<Entry>, key: i32, value: i32, other: i32)
    requires
        well_formed(s),
        key != EMPTY,
        other != key,
    ensures
        holds(put(s, key, value), other) == holds(s, other),
        lookup(put(s, key, value), other) == lookup(s, other),
{
    let t = put(s, key, value);
    lemma_put_well_formed(s, key, value);
    let n = count(s);
    assert(filled_to(s, n));
    if holds(s, key) {
        let i = slot_of(s, key);
        assert(0 <= i < s.len() && s[i].key == key);
    }
    if holds(s, other) {
        let j = slot_of(s, other);
        assert(0 <= j < s.len() && s[j].key == other);
        assert(t[j] == s[j]);
        lemma_slot_is(t, other, j);
    } else if holds(t, other) {
        let j = slot_of(t, other);
        assert(0 <= j < t.len() && t[j].key == other);
        assert(t[j] == s[j]);
        assert(s[j].key == other);
    }
}

/// Every key that the table holds stays in the slot it has, whatever is
/// written: a slot that is bound to a key is bound to it for good, and a
/// later write for that key goes to the same slot.
pub proof fn law_slot_is_kept(s: Seq<Entry>, key: i32, value: i32, held: i32)
    requires
        well_formed(s),
        key != EMPTY,
        holds(s, held),
    ensures
        holds(put(s, key, value), held),
        slot_of(put(s, key, value), held) == slot_of(s, held),
        forall|i: int|
            0 <= i < s.len() && (#[trigger] s[i]).key != EMPTY ==> put(s, key, value)[i].key
                == s[i].key,
{
    let t = put(s, key, value);
    lemma_put_well_formed(s, key, value);
    let n = count(s);
    assert(filled_to(s, n));
    if holds(s, key) {
        let i = slot_of(s, key);
        assert(0 <= i < s.len() && s[i].key == key);
    } else if !is_full(s) {
        assert(s[n] == Entry::vacant());
    }
    let j = slot_of(s, held);
    assert(0 <= j < s.len() && s[j].key == held);
    assert(t[j].key == held);
    lemma_slot_is(t, held, j);
}

/// A second write for a key replaces the value of the first and claims no
/// further slot: the table is as if only the second had been made.
pub proof fn law_update_in_place(s: Seq<Entry>, key: i32, first: i32, second: i32)
    requires
        well_formed(s),
        key != EMPTY,
    ensures
        put(put(s, key, first), key, second) == put(s, key, second),
        count(put(put(s, key, first), key, second)) == count(put(s, key, first)),
        holds(s, key) || !is_full(s) ==> lookup(put(put(s, key, first), key, second), key)
            == second,
{
    let t = put(s, key, first);
    lemma_put_well_formed(s, key, first);
    lemma_put_well_formed(t, key, second);
    if holds(s, key) || !is_full(s) {
        law_read_after_write(s, key, first);
        law_read_after_write(s, key, second);
        let i = if holds(s, key) { slot_of(s, key) } else { count(s) };
        if holds(s, key) {
            assert(0 <= i < s.len() && s[i].key == key);
        }
        lemma_slot_is(t, key, i);
        assert(put(t, key, second) =~= put(s, key, second));
    } else {
        assert(t == s);
    }
}

/// A key that the table does not hold reads as `0`.
pub proof fn law_unknown_key_reads_zero(s: Seq<Entry>, key: i32)
    requires
        !holds(s, key),
    ensures
        lookup(s, key) == 0,
{
}

/// In a table without an unclaimed slot, a write for a key that the table
/// does not hold changes nothing, and the key still reads as `0`.
pub proof fn law_full_table_drops_new_key(s: Seq<Entry>, key: i32, value: i32)
    requires
        well_formed(s),
        is_full(s),
        !holds(s, key),
    ensures
        put(s, key, value) == s,
        lookup(put(s, key, value), key) == 0,
{
}

/// The first `n` of `writes`, one to a slot in their order, and unclaimed
/// slots behind them where the writes are fewer than `n`.
pub open spec fn laid_out(n: nat, writes: Seq<(i32, i32)>) -> Seq<Entry> {
    Seq::new(
        n,
        |i: int|
            if i < writes.len() {
                Entry { key: writes[i].0, value: writes[i].1 }
            } else {
                Entry::vacant()
            },
    )
}

/// Writes for keys that all differ, made to a table of `n` unclaimed slots,
/// take the slots in their order. So each of the first `n` keys reads as the
/// value written for it, and every key after them, for which no slot was
/// left, reads as `0`.
pub proof fn law_distinct_writes(n: nat, writes: Seq<(i32, i32)>)
    requires
        real_keys(writes),
        distinct_writes(writes),
    ensures
        put_all(vacant_slots(n), writes) == laid_out(n, writes),
        well_formed(put_all(vacant_slots(n), writes)),
        count(put_all(vacant_slots(n), writes)) == if writes.len() <= n {
            writes.len()
        } else {
            n
        },
        forall|j: int|
            0 <= j < writes.len() ==> lookup(
                put_all(vacant_slots(n), writes),
                (#[trigger] writes[j]).0,
            ) == if j < n {
                writes[j].1
            } else {
                0
            },
    decreases writes.len(),
{
    let t = put_all(vacant_slots(n), writes);
    let m: int = if writes.len() <= n { writes.len() as int } else { n as int };
    if writes.len() == 0 {
        lemma_vacant_slots(n);
        assert(t =~= laid_out(n, writes));
    } else {
        let before = writes.drop_last();
        let (key, value) = writes.last();
        let u = put_all(vacant_slots(n), before);
        law_distinct_writes(n, before);
        assert(u == laid_out(n, before));
        assert(!holds(u, key)) by {
            if holds(u, key) {
                let i = slot_of(u, key);
                assert(0 <= i < u.len() && u[i].key == key);
                if i < before.len() {
                    assert(before[i] == writes[i]);
                    assert(writes[i].0 != writes[writes.len() - 1].0);
                }
            }
        }
        lemma_put_well_formed(u, key, value);
        assert(t =~= laid_out(n, writes)) by {
            assert forall|i: int| 0 <= i < n implies t[i] == laid_out(n, writes)[i] by {
                if i < before.len() {
                    assert(before[i] == writes[i]);
                }
            }
        }
    }
    assert(filled_to(t, m));
    lemma_count_is(t, m);
    assert forall|j: int| 0 <= j < writes.len() implies lookup(t, (#[trigger] writes[j]).0) == if j
        < n {
        writes[j].1
    } else {
        0
    } by {
        if j < n {
            lemma_slot_is(t, writes[j].0, j);
        } else if holds(t, writes[j].0) {
            let i = slot_of(t, writes[j].0);
            assert(0 <= i < t.len() && t[i].key == writes[j].0);
            assert(writes[i].0 != writes[j].0);
        }
    }
}

/// Whatever was written to a table that started with unclaimed slots, a key
/// reads as `0` or as a value that was written for it; a key for which
/// nothing was written reads as `0`.
pub proof fn law_reads_only_what_was_written(n: nat, writes: Seq<(i32, i32)>, key: i32)
    requires
        real_keys(writes),
    ensures
        well_formed(put_all(vacant_slots(n), writes)),
        lookup(put_all(vacant_slots(n), writes), key) == 0 || exists|j: int|
            0 <= j < writes.len() && #[trigger] writes[j] == (
                key,
                lookup(put_all(vacant_slots(n), writes), key),
            ),
        !written(writes, key) ==> lookup(put_all(vacant_slots(n), writes), key) == 0,
    decreases writes.len(),
{
    let t = put_all(vacant_slots(n), writes);
    if writes.len() == 0 {
        lemma_vacant_slots(n);
    } else {
        let before = writes.drop_last();
        let last = writes.len() - 1;
        let u = put_all(vacant_slots(n), before);
        law_reads_only_what_was_written(n, before, key);
        lemma_put_well_formed(u, writes[last].0, writes[last].1);
        if key == writes[last].0 {
            if holds(u, key) || !is_full(u) {
                law_read_after_write(u, key, writes[last].1);
                assert(writes[last] == (key, lookup(t, key)));
            }
        } else {
            law_write_keeps_others(u, writes[last].0, writes[last].1, key);
            if lookup(t, key) != 0 {
                let j = choose|j: int|
                    0 <= j < before.len() && #[trigger] before[j] == (key, lookup(u, key));
                assert(writes[j] == before[j]);
            }
        }
    }
    if !written(writes, key) && lookup(t, key) != 0 {
        let j = choose|j: int| 0 <= j < writes.len() && #[trigger] writes[j] == (key, lookup(t, key));
        assert(writes[j].0 == key);
    }
}

/// A key that the table holds reads as the value of the latest write for it.
pub proof fn law_reads_latest_write(n: nat, writes: Seq<(i32, i32)>, key: i32)
    requires
        real_keys(writes),
        holds(put_all(vacant_slots(n), writes), key),
    ensures
        exists|j: int|
            0 <= j < writes.len() && #[trigger] writes[j] == (
                key,
                lookup(put_all(vacant_slots(n), writes), key),
            ) && forall|k: int| j < k < writes.len() ==> (#[trigger] writes[k]).0 != key,
    decreases writes.len(),
{
    let t = put_all(vacant_slots(n), writes);
    if writes.len() == 0 {
        lemma_vacant_slots(n);
    } else {
        let before = writes.drop_last();
        let last = writes.len() - 1;
        let u = put_all(vacant_slots(n), before);
        law_reads_only_what_was_written(n, before, key);
        if key == writes[last].0 {
            if !holds(u, key) && is_full(u) {
                assert(t == u);
            }
            law_read_after_write(u, key, writes[last].1);
            assert(writes[last] == (key, lookup(t, key)));
        } else {
            law_write_keeps_others(u, writes[last].0, writes[last].1, key);
            law_reads_latest_write(n, before, key);
            let j = choose|j: int|
                0 <= j < before.len() && #[trigger] before[j] == (key, lookup(u, key)) && forall|
                    k: int,
                | j < k < before.len() ==> (#[trigger] before[k]).0 != key;
            assert(writes[j] == before[j]);
            assert forall|k: int| j < k < writes.len() implies (#[trigger] writes[k]).0 != key by {
                if k < before.len() {
                    assert(before[k] == writes[k]);
                }
            }
        }
    }
}

} // verus!
