//! The vocabulary of requests and replies.

use vstd::prelude::*;
use vstd::string::*;

use crate::topology::{names, Topology};

verus! {

/// The kind of a body.
#[derive(Debug, Clone, Copy, PartialEq, Eq, Hash, Structural)]
pub enum Type {
    Init,
    InitOk,
    Echo,
    EchoOk,
    Generate,
    GenerateOk,
    Broadcast,
    BroadcastOk,
    Read,
    ReadOk,
    Topology,
    TopologyOk,
}

impl Type {
    /// The kind's name in diagnostics, in upper case.
    pub open spec fn name(self) -> Seq<char> {
        match self {
            Type::Init => "INIT"@,
            Type::InitOk => "INIT_OK"@,
            Type::Echo => "ECHO"@,
            Type::EchoOk => "ECHO_OK"@,
            Type::Generate => "GENERATE"@,
            Type::GenerateOk => "GENERATE_OK"@,
            Type::Broadcast => "BROADCAST"@,
            Type::BroadcastOk => "BROADCAST_OK"@,
            Type::Read => "READ"@,
            Type::ReadOk => "READ_OK"@,
            Type::Topology => "TOPOLOGY"@,
            Type::TopologyOk => "TOPOLOGY_OK"@,
        }
    }

    /// The kind's name in diagnostics, in upper case.
    pub fn kind_name(&self) -> (name: String)
        ensures
            name@ == self.name(),
    {
        match self {
            Type::Init => String::from_str("INIT"),
            Type::InitOk => String::from_str("INIT_OK"),
            Type::Echo => String::from_str("ECHO"),
            Type::EchoOk => String::from_str("ECHO_OK"),
            Type::Generate => String::from_str("GENERATE"),
            Type::GenerateOk => String::from_str("GENERATE_OK"),
            Type::Broadcast => String::from_str("BROADCAST"),
            Type::BroadcastOk => String::from_str("BROADCAST_OK"),
            Type::Read => String::from_str("READ"),
            Type::ReadOk => String::from_str("READ_OK"),
            Type::Topology => String::from_str("TOPOLOGY"),
            Type::TopologyOk => String::from_str("TOPOLOGY_OK"),
        }
    }
}

/// What a body carries besides its two ids, one variant for each kind.
#[derive(Debug, Clone, PartialEq, Eq)]
pub enum Payload {
    Init { node_id: String, node_ids: Vec<String> },
    InitOk,
    Echo { echo: String },
    EchoOk { echo: String },
    Generate,
    GenerateOk { id: String },
    Broadcast { message: usize },
    BroadcastOk,
    Read,
    /// The values are an array on the wire and are read as a set: neither
    /// their order nor a repetition means anything.
    ReadOk { messages: Vec<usize> },
    Topology { topology: Topology },
    TopologyOk,
}

/// A payload as a mathematical value.
#[verifier::ext_equal]
pub enum PayloadView {
    Init { node_id: Seq<char>, node_ids: Seq<Seq<char>> },
    InitOk,
    Echo { echo: Seq<char> },
    EchoOk { echo: Seq<char> },
    Generate,
    GenerateOk { id: Seq<char> },
    Broadcast { message: usize },
    BroadcastOk,
    Read,
    ReadOk { messages: Set<usize> },
    Topology { topology: Map<Seq<char>, Seq<Seq<char>>> },
    TopologyOk,
}

impl PayloadView {
    /// The kind that tags this payload.
    pub open spec fn kind(self) -> Type {
        match self {
            PayloadView::Init { .. } => Type::Init,
            PayloadView::InitOk => Type::InitOk,
            PayloadView::Echo { .. } => Type::Echo,
            PayloadView::EchoOk { .. } => Type::EchoOk,
            PayloadView::Generate => Type::Generate,
            PayloadView::GenerateOk { .. } => Type::GenerateOk,
            PayloadView::Broadcast { .. } => Type::Broadcast,
            PayloadView::BroadcastOk => Type::BroadcastOk,
            PayloadView::Read => Type::Read,
            PayloadView::ReadOk { .. } => Type::ReadOk,
            PayloadView::Topology { .. } => Type::Topology,
            PayloadView::TopologyOk => Type::TopologyOk,
        }
    }
}

impl View for Payload {
    type V = PayloadView;

    open spec fn view(&self) -> PayloadView {
        match self {
            Payload::Init { node_id, node_ids } => PayloadView::Init {
                node_id: node_id@,
                node_ids: names(node_ids@),
            },
            Payload::InitOk => PayloadView::InitOk,
            Payload::Echo { echo } => PayloadView::Echo { echo: echo@ },
            Payload::EchoOk { echo } => PayloadView::EchoOk { echo: echo@ },
            Payload::Generate => PayloadView::Generate,
            Payload::GenerateOk { id } => PayloadView::GenerateOk { id: id@ },
            Payload::Broadcast { message } => PayloadView::Broadcast { message: *message },
            Payload::BroadcastOk => PayloadView::BroadcastOk,
            Payload::Read => PayloadView::Read,
            Payload::ReadOk { messages } => PayloadView::ReadOk { messages: messages@.to_set() },
            Payload::Topology { topology } => PayloadView::Topology { topology: topology@ },
            Payload::TopologyOk => PayloadView::TopologyOk,
        }
    }
}

impl Payload {
    /// The kind that tags this payload.
    pub fn kind(&self) -> (kind: Type)
        ensures
            kind == self@.kind(),
    {
        match self {
            Payload::Init { .. } => Type::Init,
            Payload::InitOk => Type::InitOk,
            Payload::Echo { .. } => Type::Echo,
            Payload::EchoOk { .. } => Type::EchoOk,
            Payload::Generate => Type::Generate,
            Payload::GenerateOk { .. } => Type::GenerateOk,
            Payload::Broadcast { .. } => Type::Broadcast,
            Payload::BroadcastOk => Type::BroadcastOk,
            Payload::Read => Type::Read,
            Payload::ReadOk { .. } => Type::ReadOk,
            Payload::Topology { .. } => Type::Topology,
            Payload::TopologyOk => Type::TopologyOk,
        }
    }
}

/// The body of an envelope: the sender's sequence number, the sequence
/// number of the request that it answers, and the payload.
#[derive(Debug, Clone, PartialEq, Eq)]
pub struct Body {
    pub msg_id: Option<usize>,
    pub in_reply_to: Option<usize>,
    pub payload: Payload,
}

/// A body as a mathematical value.
#[verifier::ext_equal]
pub struct BodyView {
    pub msg_id: Option<usize>,
    pub in_reply_to: Option<usize>,
    pub payload: PayloadView,
}

impl View for Body {
    type V = BodyView;

    open spec fn view(&self) -> BodyView {
        BodyView { msg_id: self.msg_id, in_reply_to: self.in_reply_to, payload: self.payload@ }
    }
}

/// An envelope: who sent it, whom it is for, and the body.
#[derive(Debug, Clone, PartialEq, Eq)]
pub struct Message {
    pub src: String,
    pub dest: String,
    pub body: Body,
}

/// An envelope as a mathematical value.
#[verifier::ext_equal]
pub struct MessageView {
    pub src: Seq<char>,
    pub dest: Seq<char>,
    pub body: BodyView,
}

impl View for Message {
    type V = MessageView;

    open spec fn view(&self) -> MessageView {
        MessageView { src: self.src@, dest: self.dest@, body: self.body@ }
    }
}

/// The envelopes of `list`, each as its mathematical value.
pub open spec fn envelopes(list: Seq<Message>) -> Seq<MessageView> {
    list.map_values(|message: Message| message@)
}

} // verus!
