//! The counter store: a map from identifier to counter, with the order in
//! which identifiers first appeared kept beside it for listing.
use std::collections::HashMap;
use vstd::prelude::*;
use crate::ident::{is_random_id, random_id};

verus! {

broadcast use vstd::std_specs::hash::group_hash_axioms;

/// A counter: its identifier, fixed once assigned, and its current value.
#[derive(Clone, Copy, Debug, PartialEq, Eq, Structural)]
pub struct Counter {
    pub id: u128,
    pub value: u32,
}

/// A value after one increment; at the largest `u32` it stays there.
pub open spec fn raised(v: u32) -> u32 {
    if v < u32::MAX {
        (v + 1) as u32
    } else {
        v
    }
}

/// A value after one decrement; at zero it stays there.
pub open spec fn lowered(v: u32) -> u32 {
    if v > 0 {
        (v - 1) as u32
    } else {
        0
    }
}

/// The store after a counter is created at 0 under `id`.
pub open spec fn after_create(m: Map<u128, u32>, id: u128) -> Map<u128, u32> {
    m.insert(id, 0)
}

/// The store after an increment of `id`: an absent counter starts at 1.
pub open spec fn after_increment(m: Map<u128, u32>, id: u128) -> Map<u128, u32> {
    m.insert(id, if m.contains_key(id) { raised(m[id]) } else { 1 })
}

/// The store after a decrement of `id`: an absent counter starts at 0.
pub open spec fn after_decrement(m: Map<u128, u32>, id: u128) -> Map<u128, u32> {
    m.insert(id, if m.contains_key(id) { lowered(m[id]) } else { 0 })
}

/// The counter that `m` holds under `id`, if any.
pub open spec fn counter_in(m: Map<u128, u32>, id: u128) -> Option<Counter> {
    if m.contains_key(id) {
        Some(Counter { id, value: m[id] })
    } else {
        None
    }
}

/// `s` lists every counter of `m` exactly once, in some order.
pub open spec fn is_listing(m: Map<u128, u32>, s: Seq<Counter>) -> bool {
    &&& forall|i: int| 0 <= i < s.len() ==> #[trigger] counter_in(m, s[i].id) == Some(s[i])
    &&& forall|i: int, j: int| 0 <= i < j < s.len() ==> #[trigger] s[i].id != #[trigger] s[j].id
    &&& forall|k: u128| #[trigger] m.contains_key(k) ==> exists|i: int| 0 <= i < s.len() && s[i].id == k
}

/// All counters, keyed by identifier.
pub struct Store {
    counters: HashMap<u128, Counter>,
    order: Vec<u128>,
}

impl View for Store {
    type V = Map<u128, u32>;

    /// Each identifier held, with its counter's value.
    closed spec fn view(&self) -> Map<u128, u32> {
        self.counters@.map_values(|c: Counter| c.value)
    }
}

impl Store {
    /// Each counter sits under its own identifier, and the order of
    /// identifiers holds each held identifier exactly once.
    pub closed spec fn wf(&self) -> bool {
        &&& forall|k: u128| #[trigger] self.counters@.contains_key(k) ==> self.counters@[k].id == k
        &&& self.order@.no_duplicates()
        &&& forall|k: u128| #[trigger] self.counters@.contains_key(k) <==> self.order@.contains(k)
    }

    /// An empty store.
    pub fn new() -> (r: Store)
        ensures
            r.wf(),
            r@ == Map::<u128, u32>::empty(),
    {
        let r = Store { counters: HashMap::new(), order: Vec::new() };
        assert(r@ =~= Map::<u128, u32>::empty());
        r
    }

    /// Adds the identifier `id`, which the store does not hold, to the order.
    proof fn lemma_order_grows(old_order: Seq<u128>, new_order: Seq<u128>, id: u128)
        requires
            old_order.no_duplicates(),
            !old_order.contains(id),
            new_order == old_order.push(id),
        ensures
            new_order.no_duplicates(),
            forall|k: u128| new_order.contains(k) <==> (old_order.contains(k) || k == id),
    {
        assert forall|k: u128| new_order.contains(k) <==> (old_order.contains(k) || k == id) by {
            if old_order.contains(k) {
                let i = choose|i: int| 0 <= i < old_order.len() && old_order[i] == k;
                assert(new_order[i] == k);
            }
            if k == id {
                assert(new_order[old_order.len() as int] == k);
            }
        }
    }

    /// Creates a counter at 0 under `id`. Identifiers come from a 128-bit
    /// random draw, so `id` is taken to be new; were it held, its counter
    /// would start again at 0.
    pub fn create_with_id(&mut self, id: u128) -> (r: Counter)
        requires
            old(self).wf(),
        ensures
            final(self).wf(),
            final(self)@ == after_create(old(self)@, id),
            r == (Counter { id, value: 0 }),
    {
        self.put(id, 0);
        Counter { id, value: 0 }
    }

    /// Creates a counter at 0 under a freshly drawn random identifier.
    pub fn create(&mut self) -> (r: Counter)
        requires
            old(self).wf(),
        ensures
            final(self).wf(),
            r.value == 0,
            is_random_id(r.id),
            final(self)@ == after_create(old(self)@, r.id),
    {
        let id = random_id();
        self.create_with_id(id)
    }

    /// The store holds finitely many counters.
    pub proof fn lemma_finite(&self)
        requires
            self.wf(),
        ensures
            self@.dom().finite(),
    {
        assert(self@.dom() =~= self.counters@.dom());
    }

    /// The counter held under `id`, if any.
    pub fn get(&self, id: u128) -> (r: Option<Counter>)
        requires
            self.wf(),
        ensures
            r == counter_in(self@, id),
    {
        match self.counters.get(&id) {
            Some(c) => Some(*c),
            None => None,
        }
    }

    /// Every counter, each once, in the order their identifiers first appeared.
    pub fn list(&self) -> (r: Vec<Counter>)
        requires
            self.wf(),
        ensures
            is_listing(self@, r@),
            r@.len() == self@.len(),
    {
        let mut out: Vec<Counter> = Vec::new();
        let mut i: usize = 0;
        while i < self.order.len()
            invariant
                self.wf(),
                0 <= i <= self.order@.len(),
                out@.len() == i,
                forall|j: int|
                    0 <= j < i ==> #[trigger] out@[j] == (Counter {
                        id: self.order@[j],
                        value: self@[self.order@[j]],
                    }),
            decreases self.order@.len() - i,
        {
            let id = self.order[i];
            assert(self.order@.contains(id));
            match self.counters.get(&id) {
                Some(c) => out.push(*c),
                None => {},
            }
            i += 1;
        }
        proof {
            assert forall|j: int| 0 <= j < out@.len() implies #[trigger] counter_in(self@, out@[j].id)
                == Some(out@[j]) by {
                assert(self.order@.contains(self.order@[j]));
            }
            assert forall|j: int, l: int| 0 <= j < l < out@.len() implies #[trigger] out@[j].id
                != #[trigger] out@[l].id by {
                assert(out@[j].id == self.order@[j] && out@[l].id == self.order@[l]);
            }
            assert forall|k: u128| #[trigger] self@.contains_key(k) implies exists|j: int|
                0 <= j < out@.len() && out@[j].id == k by {
                assert(self.order@.contains(k));
                let j = choose|j: int| 0 <= j < self.order@.len() && self.order@[j] == k;
                assert(out@[j].id == k);
            }
            assert(self.order@.to_set() =~= self@.dom());
            self.order@.unique_seq_to_set();
        }
        out
    }

    /// Adds one to the counter under `id`, creating it at 1 if absent; the
    /// resulting counter comes back.
    pub fn increment(&mut self, id: u128) -> (r: Counter)
        requires
            old(self).wf(),
        ensures
            final(self).wf(),
            final(self)@ == after_increment(old(self)@, id),
            r == (Counter { id, value: final(self)@[id] }),
    {
        let value: u32 = match self.counters.get(&id) {
            Some(c) => if c.value < u32::MAX {
                c.value + 1
            } else {
                c.value
            },
            None => 1,
        };
        self.put(id, value);
        proof {
            assert(self@ =~= after_increment(old(self)@, id));
        }
        Counter { id, value }
    }

    /// Takes one from the counter under `id`, never below 0, creating it at 0
    /// if absent; the resulting counter comes back.
    pub fn decrement(&mut self, id: u128) -> (r: Counter)
        requires
            old(self).wf(),
        ensures
            final(self).wf(),
            final(self)@ == after_decrement(old(self)@, id),
            r == (Counter { id, value: final(self)@[id] }),
    {
        let value: u32 = match self.counters.get(&id) {
            Some(c) => if c.value > 0 {
                c.value - 1
            } else {
                0
            },
            None => 0,
        };
        self.put(id, value);
        proof {
            assert(self@ =~= after_decrement(old(self)@, id));
        }
        Counter { id, value }
    }

    /// Sets the counter under `id` to `value`, adding it if absent.
    fn put(&mut self, id: u128, value: u32)
        requires
            old(self).wf(),
        ensures
            final(self).wf(),
            final(self)@ == old(self)@.insert(id, value),
    {
        if !self.counters.contains_key(&id) {
            self.order.push(id);
            proof {
                Self::lemma_order_grows(old(self).order@, self.order@, id);
            }
        }
        self.counters.insert(id, Counter { id, value });
        assert(self@ =~= old(self)@.insert(id, value));
    }
}

} // verus!
