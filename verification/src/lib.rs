//! A single participant of a message-passing cluster: identity handshake,
//! echo and unique-id replies, and best-effort broadcast dissemination with
//! read/read-ok reconciliation.
//!
//! The node is a state machine. It is handed one decoded envelope at a time and
//! answers with the envelopes to send, in order. Encoding, decoding and the
//! transport stay with the caller.

mod clock;
pub mod decimal;
pub mod error;
pub mod identity;
pub mod laws;
pub mod message;
pub mod model;
pub mod node;
pub mod store;
pub mod topology;
pub mod tracker;

pub use error::NodeError;
pub use identity::NodeIdentity;
pub use message::{Body, Message, Payload, Type};
pub use node::Node;
pub use store::DeliveredStore;
pub use topology::Topology;
pub use tracker::OutstandingTracker;
