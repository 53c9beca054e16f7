//! Properties of sequences of store operations, stated over the store model
//! that the operations' contracts use.
use vstd::prelude::*;
use crate::store::{after_create, after_decrement, after_increment, counter_in, is_listing, Counter};

verus! {

/// One operation on the store, as the lock serializes it.
pub enum Operation {
    /// Creation of a counter at 0 under the given identifier, if not held.
    Create(u128),
    Increment(u128),
    Decrement(u128),
}

/// The store after one operation.
pub open spec fn apply(m: Map<u128, u32>, op: Operation) -> Map<u128, u32> {
    match op {
        Operation::Create(id) => if m.contains_key(id) {
            m
        } else {
            after_create(m, id)
        },
        Operation::Increment(id) => after_increment(m, id),
        Operation::Decrement(id) => after_decrement(m, id),
    }
}

/// The store after the operations, first to last.
pub open spec fn apply_all(m: Map<u128, u32>, ops: Seq<Operation>) -> Map<u128, u32>
    decreases ops.len(),
{
    if ops.len() == 0 {
        m
    } else {
        apply(apply_all(m, ops.drop_last()), ops.last())
    }
}

/// How many of the operations increment `id`.
pub open spec fn increments_of(ops: Seq<Operation>, id: u128) -> nat
    decreases ops.len(),
{
    if ops.len() == 0 {
        0
    } else {
        increments_of(ops.drop_last(), id) + if ops.last() == Operation::Increment(id) {
            1nat
        } else {
            0nat
        }
    }
}

/// The value under `id`, where an absent counter counts as 0.
pub open spec fn value_in(m: Map<u128, u32>, id: u128) -> nat {
    if m.contains_key(id) {
        m[id] as nat
    } else {
        0
    }
}

/// The store after creating each of `ids`, first to last.
pub open spec fn created_all(m: Map<u128, u32>, ids: Seq<u128>) -> Map<u128, u32>
    decreases ids.len(),
{
    if ids.len() == 0 {
        m
    } else {
        after_create(created_all(m, ids.drop_last()), ids.last())
    }
}

/// The store `k` increments of `id` after `m`.
pub open spec fn incremented(m: Map<u128, u32>, id: u128, k: nat) -> Map<u128, u32>
    decreases k,
{
    if k == 0 {
        m
    } else {
        after_increment(incremented(m, id, (k - 1) as nat), id)
    }
}

/// The store `k` decrements of `id` after `m`.
pub open spec fn decremented(m: Map<u128, u32>, id: u128, k: nat) -> Map<u128, u32>
    decreases k,
{
    if k == 0 {
        m
    } else {
        after_decrement(decremented(m, id, (k - 1) as nat), id)
    }
}

proof fn lemma_created_all(ids: Seq<u128>)
    ensures
        forall|k: u128| #[trigger]
            created_all(Map::empty(), ids).contains_key(k) <==> ids.contains(k),
        forall|k: u128| #[trigger]
            created_all(Map::empty(), ids).contains_key(k) ==> created_all(Map::empty(), ids)[k]
                == 0,
    decreases ids.len(),
{
    if ids.len() > 0 {
        let rest = ids.drop_last();
        lemma_created_all(rest);
        assert forall|k: u128| #[trigger] ids.contains(k) <==> (rest.contains(k) || k == ids.last()) by {
            if rest.contains(k) {
                let i = choose|i: int| 0 <= i < rest.len() && rest[i] == k;
                assert(ids[i] == k);
            }
            if ids.contains(k) && k != ids.last() {
                let i = choose|i: int| 0 <= i < ids.len() && ids[i] == k;
                assert(rest[i] == k);
            }
            if k == ids.last() {
                assert(ids[ids.len() - 1] == k);
            }
        }
        let m = created_all(Map::empty(), ids);
        let before = created_all(Map::empty(), rest);
        assert(m == after_create(before, ids.last()));
        assert forall|k: u128| #[trigger] m.contains_key(k) implies ids.contains(k) && m[k] == 0 by {
            if k != ids.last() {
                assert(before.contains_key(k));
            }
        }
        assert forall|k: u128| ids.contains(k) implies #[trigger] m.contains_key(k) by {
            if k != ids.last() {
                assert(rest.contains(k));
            }
        }
    }
}

/// Creating counters under distinct identifiers in an empty store, then
/// listing, gives one entry per creation, each at 0, with distinct
/// identifiers that are exactly the created ones.
pub proof fn law_listing_after_creations(ids: Seq<u128>, listing: Seq<Counter>)
    requires
        ids.no_duplicates(),
        is_listing(created_all(Map::empty(), ids), listing),
    ensures
        listing.len() == ids.len(),
        forall|i: int| 0 <= i < listing.len() ==> #[trigger] listing[i].value == 0,
        forall|i: int, j: int|
            0 <= i < j < listing.len() ==> #[trigger] listing[i].id != #[trigger] listing[j].id,
        forall|k: u128|
            #[trigger] ids.contains(k) <==> exists|i: int| 0 <= i < listing.len() && listing[i].id == k,
{
    let m = created_all(Map::empty(), ids);
    lemma_created_all(ids);
    let listed = listing.map_values(|c: Counter| c.id);
    assert forall|i: int| 0 <= i < listing.len() implies #[trigger] listing[i].value == 0 by {
        assert(counter_in(m, listing[i].id) == Some(listing[i]));
    }
    assert forall|i: int, j: int| 0 <= i < j < listed.len() implies listed[i] != listed[j] by {
        assert(listing[i].id != listing[j].id);
    }
    assert(listed.no_duplicates());
    assert forall|k: u128| #[trigger] listed.to_set().contains(k) <==> ids.to_set().contains(k) by {
        if listed.contains(k) {
            let i = choose|i: int| 0 <= i < listed.len() && listed[i] == k;
            assert(counter_in(m, listing[i].id) == Some(listing[i]));
        }
        if ids.contains(k) {
            assert(m.contains_key(k));
            let i = choose|i: int| 0 <= i < listing.len() && listing[i].id == k;
            assert(listed[i] == k);
        }
    }
    assert(listed.to_set() =~= ids.to_set());
    listed.unique_seq_to_set();
    ids.unique_seq_to_set();
    assert forall|k: u128| #[trigger] ids.contains(k) implies exists|i: int|
        0 <= i < listing.len() && listing[i].id == k by {
        assert(m.contains_key(k));
    }
    assert forall|k: u128| (exists|i: int| 0 <= i < listing.len() && listing[i].id == k) implies
        #[trigger] ids.contains(k) by {
        let i = choose|i: int| 0 <= i < listing.len() && listing[i].id == k;
        assert(counter_in(m, listing[i].id) == Some(listing[i]));
    }
}

/// A counter just created under `id` reads as 0.
pub proof fn law_created_counter_reads_zero(m: Map<u128, u32>, id: u128)
    requires
        !m.contains_key(id),
    ensures
        counter_in(after_create(m, id), id) == Some(Counter { id, value: 0 }),
{
}

/// `k` increments of a counter, absent ones counting as 0, add exactly `k`
/// (below the largest `u32`).
pub proof fn law_increments_add_up(m: Map<u128, u32>, id: u128, k: nat)
    requires
        value_in(m, id) + k <= u32::MAX,
    ensures
        k > 0 ==> incremented(m, id, k).contains_key(id),
        value_in(incremented(m, id, k), id) == value_in(m, id) + k,
    decreases k,
{
    if k > 0 {
        law_increments_add_up(m, id, (k - 1) as nat);
    }
}

/// `k` increments of a counter just created reach `k`.
pub proof fn law_increments_count_up(m: Map<u128, u32>, id: u128, k: nat)
    requires
        k <= u32::MAX,
    ensures
        incremented(after_create(m, id), id, k).contains_key(id),
        incremented(after_create(m, id), id, k)[id] == k,
{
    law_increments_add_up(after_create(m, id), id, k);
}

/// `n` increments of one counter, from any callers, serialized by the lock:
/// the `i`-th of them leaves, and so returns, the starting value plus `i`, so
/// the `n` calls see `n` distinct values and none is lost.
pub proof fn law_serialized_increments(m: Map<u128, u32>, id: u128, n: nat)
    requires
        value_in(m, id) + n <= u32::MAX,
    ensures
        forall|i: nat|
            1 <= i <= n ==> #[trigger] incremented(m, id, i).contains_key(id) && incremented(
                m,
                id,
                i,
            )[id] == value_in(m, id) + i,
        forall|i: nat, j: nat|
            1 <= i < j <= n ==> #[trigger] incremented(m, id, i)[id] != #[trigger] incremented(
                m,
                id,
                j,
            )[id],
{
    assert forall|i: nat| 1 <= i <= n implies #[trigger] incremented(m, id, i).contains_key(id)
        && incremented(m, id, i)[id] == value_in(m, id) + i by {
        law_increments_add_up(m, id, i);
    }
    assert forall|i: nat, j: nat| 1 <= i < j <= n implies #[trigger] incremented(m, id, i)[id]
        != #[trigger] incremented(m, id, j)[id] by {
        law_increments_add_up(m, id, i);
        law_increments_add_up(m, id, j);
    }
}

/// Any number of decrements of a counter at 0 leave it at 0.
pub proof fn law_decrements_stop_at_zero(m: Map<u128, u32>, id: u128, k: nat)
    requires
        m.contains_key(id),
        m[id] == 0,
    ensures
        decremented(m, id, k).contains_key(id),
        decremented(m, id, k)[id] == 0,
    decreases k,
{
    if k > 0 {
        law_decrements_stop_at_zero(m, id, (k - 1) as nat);
    }
}

/// Operations from any number of callers, serialized in any order: where
/// none of them creates or decrements `id`, the value under `id` grows by
/// exactly the number of its increments, none lost (below the largest `u32`).
pub proof fn law_no_lost_increments(m: Map<u128, u32>, ops: Seq<Operation>, id: u128)
    requires
        forall|i: int|
            0 <= i < ops.len() ==> #[trigger] ops[i] != Operation::Create(id) && ops[i]
                != Operation::Decrement(id),
        value_in(m, id) + increments_of(ops, id) <= u32::MAX,
    ensures
        value_in(apply_all(m, ops), id) == value_in(m, id) + increments_of(ops, id),
    decreases ops.len(),
{
    if ops.len() > 0 {
        let rest = ops.drop_last();
        assert forall|i: int| 0 <= i < rest.len() implies #[trigger] rest[i] != Operation::Create(
            id,
        ) && rest[i] != Operation::Decrement(id) by {
            assert(rest[i] == ops[i]);
        }
        law_no_lost_increments(m, rest, id);
        assert(ops[ops.len() - 1] == ops.last());
    }
}

} // verus!
