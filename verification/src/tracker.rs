//! The messages sent for a value and not yet acknowledged.

use std::collections::HashMap;
use vstd::prelude::*;

verus! {

broadcast use vstd::std_specs::hash::group_hash_axioms;

/// For each message id under which a value went out and no acknowledgement
/// has come back, that value.
pub struct OutstandingTracker {
    waiting: HashMap<usize, usize>,
}

impl View for OutstandingTracker {
    type V = Map<usize, usize>;

    closed spec fn view(&self) -> Map<usize, usize> {
        self.waiting@
    }
}

impl OutstandingTracker {
    /// A tracker with nothing outstanding.
    pub fn new() -> (tracker: Self)
        ensures
            tracker@ == Map::<usize, usize>::empty(),
    {
        OutstandingTracker { waiting: HashMap::new() }
    }

    /// Notes that `value` went out under `msg_id`.
    pub fn record(&mut self, msg_id: usize, value: usize)
        ensures
            final(self)@ == old(self)@.insert(msg_id, value),
    {
        self.waiting.insert(msg_id, value);
    }

    /// Takes out the entry for `msg_id` and hands back its value. Without
    /// such an entry nothing changes.
    pub fn acknowledge(&mut self, msg_id: usize) -> (value: Option<usize>)
        ensures
            final(self)@ == old(self)@.remove(msg_id),
            value == if old(self)@.contains_key(msg_id) {
                Some(old(self)@[msg_id])
            } else {
                None
            },
    {
        self.waiting.remove(&msg_id)
    }

    /// The value that went out under `msg_id`, while it is unacknowledged.
    pub fn get(&self, msg_id: usize) -> (value: Option<usize>)
        ensures
            value == if self@.contains_key(msg_id) {
                Some(self@[msg_id])
            } else {
                None
            },
    {
        match self.waiting.get(&msg_id) {
            Some(value) => Some(*value),
            None => None,
        }
    }

    /// How many envelopes are unacknowledged.
    pub fn len(&self) -> (n: usize)
        ensures
            n == self@.len(),
    {
        self.waiting.len()
    }
}

} // verus!
