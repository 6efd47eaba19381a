//! Errors that the node reports to its caller.

use vstd::prelude::*;

use crate::message::Type;

verus! {

/// Why an envelope was not processed, or why a lookup found nothing.
#[derive(Debug, Clone, Copy, PartialEq, Eq, Structural)]
pub enum NodeError {
    /// The envelope's kind is not acceptable in the node's current state: a
    /// second `init`, or a reply kind that this node never asks for.
    ProtocolViolation { received: Type },
    /// The topology holds no neighbours for the node asked about.
    TopologyLookupMiss,
    /// Answering would need more message ids than are left.
    CounterExhausted,
}

} // verus!
