//! The values that a node has observed.

use std::collections::HashSet;
use vstd::prelude::*;

verus! {

broadcast use vstd::std_specs::hash::group_hash_axioms;

/// The set of values delivered to a node. It only grows.
pub struct DeliveredStore {
    values: HashSet<usize>,
}

impl View for DeliveredStore {
    type V = Set<usize>;

    closed spec fn view(&self) -> Set<usize> {
        self.values@
    }
}

/// Whether `order` lists each element of `values` exactly once.
pub open spec fn enumerates(order: Seq<usize>, values: Set<usize>) -> bool {
    order.no_duplicates() && order.to_set() == values
}

impl DeliveredStore {
    /// A store without values.
    pub fn new() -> (store: Self)
        ensures
            store@ == Set::<usize>::empty(),
    {
        DeliveredStore { values: HashSet::new() }
    }

    /// Adds `value`; says whether it was new.
    pub fn insert(&mut self, value: usize) -> (fresh: bool)
        ensures
            final(self)@ == old(self)@.insert(value),
            fresh == !old(self)@.contains(value),
    {
        self.values.insert(value)
    }

    /// Whether `value` was delivered.
    pub fn contains(&self, value: usize) -> (found: bool)
        ensures
            found == self@.contains(value),
    {
        self.values.contains(&value)
    }

    /// How many values were delivered.
    pub fn len(&self) -> (n: usize)
        ensures
            n == self@.len(),
    {
        self.values.len()
    }

    /// The stored values, each once, in no particular order.
    pub fn snapshot(&self) -> (order: Vec<usize>)
        ensures
            enumerates(order@, self@),
    {
        let mut order: Vec<usize> = Vec::new();
        for value in it: self.values.iter()
            invariant
                order@ == it.seq().unref().take(it.index()),
                it.seq().unref().take(it.seq().len() as int) == it.seq().unref(),
                it.seq().unref().to_set() == self.values@,
                it.seq().unref().no_duplicates(),
        {
            order.push(*value);
        }
        order
    }
}

} // verus!
