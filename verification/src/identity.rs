//! A node's name and its message counter.

use vstd::prelude::*;

use crate::error::NodeError;
use crate::message::Type;

verus! {

/// The name that a node answers under before one is assigned.
pub open spec fn unassigned_name() -> Seq<char> {
    "NO_ID_YET"@
}

/// The id that the handshake assigned, once it has, and the sequence number
/// of the next envelope to go out.
pub struct NodeIdentity {
    id: Option<String>,
    next_msg_id: usize,
}

impl NodeIdentity {
    /// The assigned id, if there is one.
    pub closed spec fn assigned(&self) -> Option<Seq<char>> {
        match self.id {
            Some(id) => Some(id@),
            None => None,
        }
    }

    /// The sequence number that the next envelope gets.
    pub closed spec fn counter(&self) -> usize {
        self.next_msg_id
    }

    /// The name that replies carry as their sender.
    pub open spec fn name(&self) -> Seq<char> {
        match self.assigned() {
            Some(id) => id,
            None => unassigned_name(),
        }
    }

    /// An identity without an id, counting from zero.
    pub fn new() -> (identity: Self)
        ensures
            identity.assigned() is None,
            identity.counter() == 0,
    {
        NodeIdentity { id: None, next_msg_id: 0 }
    }

    /// An identity without an id whose first envelope gets the sequence
    /// number `next_msg_id`.
    pub fn starting_at(next_msg_id: usize) -> (identity: Self)
        ensures
            identity.assigned() is None,
            identity.counter() == next_msg_id,
    {
        NodeIdentity { id: None, next_msg_id }
    }

    /// The name that replies carry as their sender.
    pub fn id(&self) -> (name: &str)
        ensures
            name@ == self.name(),
    {
        match &self.id {
            Some(id) => id.as_str(),
            None => "NO_ID_YET",
        }
    }

    /// Whether an id is assigned.
    pub fn is_assigned(&self) -> (yes: bool)
        ensures
            yes == self.assigned() is Some,
    {
        self.id.is_some()
    }

    /// The sequence number that the next envelope gets.
    pub fn next_msg_id(&self) -> (next: usize)
        ensures
            next == self.counter(),
    {
        self.next_msg_id
    }

    /// Whether `count` more sequence numbers can be handed out.
    pub fn has_room(&self, count: usize) -> (yes: bool)
        ensures
            yes == (self.counter() + count <= usize::MAX),
    {
        count <= usize::MAX - self.next_msg_id
    }

    /// Takes `id` as this node's id. An identity that has one keeps it and
    /// reports a protocol violation.
    pub fn assign(&mut self, id: String) -> (done: Result<(), NodeError>)
        ensures
            final(self).counter() == old(self).counter(),
            match done {
                Ok(()) => old(self).assigned() is None && final(self).assigned() == Some(id@),
                Err(e) => old(self).assigned() is Some && final(self).assigned() == old(
                    self,
                ).assigned() && e == (NodeError::ProtocolViolation { received: Type::Init }),
            },
    {
        if self.id.is_some() {
            return Err(NodeError::ProtocolViolation { received: Type::Init });
        }
        self.id = Some(id);
        Ok(())
    }

    /// Hands out the next sequence number.
    pub fn issue(&mut self) -> (msg_id: usize)
        requires
            old(self).counter() < usize::MAX,
        ensures
            msg_id == old(self).counter(),
            final(self).counter() == msg_id + 1,
            final(self).assigned() == old(self).assigned(),
    {
        let msg_id = self.next_msg_id;
        self.next_msg_id = msg_id + 1;
        msg_id
    }
}

} // verus!
