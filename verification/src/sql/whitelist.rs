//! The accounts that are never proposed for removal.
use std::collections::BTreeSet;
use vstd::prelude::*;

verus! {

/// A set of account ids.
pub struct Whitelist {
    ids: BTreeSet<u64>,
}

impl View for Whitelist {
    type V = Set<u64>;

    closed spec fn view(&self) -> Set<u64> {
        self.ids@
    }
}

proof fn lemma_ids_are_ordered()
    ensures
        vstd::laws_cmp::obeys_cmp::<u64>(),
{
    broadcast use vstd::laws_cmp::group_laws_cmp;

}

impl Whitelist {
    /// The empty set.
    pub fn new() -> (list: Self)
        ensures
            list@ == Set::<u64>::empty(),
    {
        Whitelist { ids: BTreeSet::new() }
    }

    /// Puts `id` on the list. Returns whether it was new.
    pub fn insert(&mut self, id: u64) -> (added: bool)
        ensures
            final(self)@ == old(self)@.insert(id),
            added == !old(self)@.contains(id),
    {
        proof {
            lemma_ids_are_ordered();
        }
        self.ids.insert(id)
    }

    /// Whether `id` is on the list.
    pub fn contains(&self, id: u64) -> (listed: bool)
        ensures
            listed == self@.contains(id),
    {
        proof {
            lemma_ids_are_ordered();
        }
        self.ids.contains(&id)
    }
}

} // verus!
