//! The node as a mathematical state machine: what each kind of envelope does
//! to the state, and which envelopes go out in answer.

use vstd::prelude::*;

use crate::decimal::decimal;
use crate::error::NodeError;
use crate::identity::unassigned_name;
use crate::message::{BodyView, MessageView, PayloadView, Type};
use crate::store::enumerates;

verus! {

/// The state of a node.
#[verifier::ext_equal]
pub struct NodeView {
    /// The assigned id, once the handshake has happened.
    pub id: Option<Seq<char>>,
    /// The sequence number of the next envelope to go out.
    pub next_msg_id: usize,
    /// The values observed so far.
    pub delivered: Set<usize>,
    /// For each node the neighbours that were supplied for it.
    pub topology: Map<Seq<char>, Seq<Seq<char>>>,
    /// For each envelope sent for a value and not acknowledged, that value.
    pub outstanding: Map<usize, usize>,
}

/// What handling one envelope comes to: the state afterwards, and the
/// envelopes to send or the reason for sending none.
#[verifier::ext_equal]
pub struct Step {
    pub next: NodeView,
    pub sent: Result<Seq<MessageView>, NodeError>,
}

/// The values of `order` that `known` lacks, in the order of `order`.
pub open spec fn missing(order: Seq<usize>, known: Set<usize>) -> Seq<usize> {
    order.filter(|value: usize| !known.contains(value))
}

/// The neighbours to probe: all of `neighbors` but `sender`.
pub open spec fn probe_targets(neighbors: Seq<Seq<char>>, sender: Seq<char>) -> Seq<Seq<char>> {
    neighbors.filter(|name: Seq<char>| name != sender)
}

/// `waiting` with an entry more for each of `values`: the first under
/// `first`, the next under `first + 1`, and so on.
pub open spec fn with_pending(waiting: Map<usize, usize>, first: int, values: Seq<usize>) -> Map<
    usize,
    usize,
> {
    Map::new(
        |k: usize| waiting.contains_key(k) || first <= k < first + values.len(),
        |k: usize|
            if first <= k < first + values.len() {
                values[k - first]
            } else {
                waiting[k]
            },
    )
}

/// The id minted for a `generate` request at time `stamp`: the node's name,
/// a hyphen, and the stamp in decimal.
pub open spec fn minted_id(name: Seq<char>, stamp: u128) -> Seq<char> {
    name + seq!['-'] + decimal(stamp as nat)
}

impl NodeView {
    /// A node that has seen nothing.
    pub open spec fn initial() -> NodeView {
        NodeView {
            id: None,
            next_msg_id: 0,
            delivered: Set::empty(),
            topology: Map::empty(),
            outstanding: Map::empty(),
        }
    }

    /// The name that the node's envelopes carry as their sender.
    pub open spec fn name(self) -> Seq<char> {
        match self.id {
            Some(id) => id,
            None => unassigned_name(),
        }
    }

    /// The node's own neighbours; none where the topology has no entry for it.
    pub open spec fn neighbors(self) -> Seq<Seq<char>> {
        if self.topology.contains_key(self.name()) {
            self.topology[self.name()]
        } else {
            Seq::empty()
        }
    }

    /// Whether `count` more envelopes can be numbered.
    pub open spec fn has_room(self, count: nat) -> bool {
        self.next_msg_id + count <= usize::MAX
    }

    /// The state after `count` envelopes went out.
    pub open spec fn after_sending(self, count: nat) -> NodeView {
        NodeView { next_msg_id: (self.next_msg_id + count) as usize, ..self }
    }

    /// The envelope that goes out as number `k` of one answer.
    pub open spec fn envelope(
        self,
        k: int,
        dest: Seq<char>,
        in_reply_to: Option<usize>,
        payload: PayloadView,
    ) -> MessageView {
        MessageView {
            src: self.name(),
            dest,
            body: BodyView { msg_id: Some((self.next_msg_id + k) as usize), in_reply_to, payload },
        }
    }

    /// Nothing changes and a protocol violation is reported.
    pub open spec fn refuse(self, received: Type) -> Step {
        Step { next: self, sent: Err(NodeError::ProtocolViolation { received }) }
    }

    /// Nothing changes and the counter is reported as used up.
    pub open spec fn give_up(self) -> Step {
        Step { next: self, sent: Err(NodeError::CounterExhausted) }
    }

    /// One reply with `payload` goes back to the sender of `request`.
    pub open spec fn reply(self, request: MessageView, payload: PayloadView) -> Step {
        Step {
            next: self.after_sending(1),
            sent: Ok(seq![self.envelope(0, request.src, request.body.msg_id, payload)]),
        }
    }

    /// `init`: the node takes the id, once, and confirms.
    pub open spec fn on_init(self, request: MessageView) -> Step {
        match request.body.payload {
            PayloadView::Init { node_id, node_ids } => {
                if self.id is Some {
                    self.refuse(Type::Init)
                } else if !self.has_room(1) {
                    self.give_up()
                } else {
                    NodeView { id: Some(node_id), ..self }.reply(request, PayloadView::InitOk)
                }
            },
            other => self.refuse(other.kind()),
        }
    }

    /// `echo`: the text comes back.
    pub open spec fn on_echo(self, request: MessageView) -> Step {
        match request.body.payload {
            PayloadView::Echo { echo } => {
                if !self.has_room(1) {
                    self.give_up()
                } else {
                    self.reply(request, PayloadView::EchoOk { echo })
                }
            },
            other => self.refuse(other.kind()),
        }
    }

    /// `generate` at time `stamp`: a fresh id goes back.
    pub open spec fn on_generate(self, request: MessageView, stamp: u128) -> Step {
        match request.body.payload {
            PayloadView::Generate => {
                if !self.has_room(1) {
                    self.give_up()
                } else {
                    self.reply(
                        request,
                        PayloadView::GenerateOk { id: minted_id(self.name(), stamp) },
                    )
                }
            },
            other => self.refuse(other.kind()),
        }
    }

    /// `topology`: the supplied mapping replaces the one held.
    pub open spec fn on_topology(self, request: MessageView) -> Step {
        match request.body.payload {
            PayloadView::Topology { topology } => {
                if !self.has_room(1) {
                    self.give_up()
                } else {
                    NodeView { topology, ..self }.reply(request, PayloadView::TopologyOk)
                }
            },
            other => self.refuse(other.kind()),
        }
    }

    /// `read`: the delivered values go back.
    pub open spec fn on_read(self, request: MessageView) -> Step {
        match request.body.payload {
            PayloadView::Read => {
                if !self.has_room(1) {
                    self.give_up()
                } else {
                    self.reply(request, PayloadView::ReadOk { messages: self.delivered })
                }
            },
            other => self.refuse(other.kind()),
        }
    }

    /// `broadcast`: the value is delivered; the sender gets an
    /// acknowledgement if the envelope names this node as its destination;
    /// every neighbour but the sender gets a `read`, and each of those is
    /// noted as outstanding for the value.
    pub open spec fn on_broadcast(self, request: MessageView) -> Step {
        match request.body.payload {
            PayloadView::Broadcast { message } => {
                let acks: int = if request.dest == self.name() {
                    1
                } else {
                    0
                };
                let targets = probe_targets(self.neighbors(), request.src);
                if !self.has_room((acks + targets.len()) as nat) {
                    self.give_up()
                } else {
                    let ack = if acks == 1 {
                        seq![
                            self.envelope(
                                0,
                                request.src,
                                request.body.msg_id,
                                PayloadView::BroadcastOk,
                            ),
                        ]
                    } else {
                        Seq::empty()
                    };
                    let probes = Seq::new(
                        targets.len(),
                        |i: int| self.envelope(acks + i, targets[i], None, PayloadView::Read),
                    );
                    Step {
                        next: NodeView {
                            delivered: self.delivered.insert(message),
                            outstanding: with_pending(
                                self.outstanding,
                                self.next_msg_id + acks,
                                Seq::new(targets.len(), |i: int| message),
                            ),
                            ..self.after_sending((acks + targets.len()) as nat)
                        },
                        sent: Ok(ack + probes),
                    }
                }
            },
            other => self.refuse(other.kind()),
        }
    }

    /// `broadcast_ok`: the entry that it answers is outstanding no longer.
    pub open spec fn on_broadcast_ok(self, request: MessageView) -> Step {
        match request.body.payload {
            PayloadView::BroadcastOk => Step {
                next: NodeView {
                    outstanding: match request.body.in_reply_to {
                        Some(msg_id) => self.outstanding.remove(msg_id),
                        None => self.outstanding,
                    },
                    ..self
                },
                sent: Ok(Seq::empty()),
            },
            other => self.refuse(other.kind()),
        }
    }

    /// Each of `values` goes to `peer` as a `broadcast` that answers
    /// `in_reply_to`, and each is noted as outstanding under the sequence
    /// number of its envelope.
    pub open spec fn offer(
        self,
        peer: Seq<char>,
        in_reply_to: Option<usize>,
        values: Seq<usize>,
    ) -> Step {
        if !self.has_room(values.len()) {
            self.give_up()
        } else {
            Step {
                next: NodeView {
                    outstanding: with_pending(self.outstanding, self.next_msg_id as int, values),
                    ..self.after_sending(values.len())
                },
                sent: Ok(
                    Seq::new(
                        values.len(),
                        |i: int|
                            self.envelope(
                                i,
                                peer,
                                in_reply_to,
                                PayloadView::Broadcast { message: values[i] },
                            ),
                    ),
                ),
            }
        }
    }

    /// `read_ok`, with the delivered values walked in the order `order`: each
    /// value that the sender lacks is offered to it.
    pub open spec fn on_read_ok(self, request: MessageView, order: Seq<usize>) -> Step {
        match request.body.payload {
            PayloadView::ReadOk { messages } => self.offer(
                request.src,
                request.body.msg_id,
                missing(order, messages),
            ),
            other => self.refuse(other.kind()),
        }
    }

    /// What handling `request` comes to, where the clock reads `stamp` and
    /// the delivered values are walked in the order `order`.
    pub open spec fn handle(self, request: MessageView, stamp: u128, order: Seq<usize>) -> Step {
        match request.body.payload.kind() {
            Type::Init => self.on_init(request),
            Type::Echo => self.on_echo(request),
            Type::Generate => self.on_generate(request, stamp),
            Type::Topology => self.on_topology(request),
            Type::Read => self.on_read(request),
            Type::Broadcast => self.on_broadcast(request),
            Type::BroadcastOk => self.on_broadcast_ok(request),
            Type::ReadOk => self.on_read_ok(request, order),
            Type::InitOk => self.refuse(Type::InitOk),
            Type::EchoOk => self.refuse(Type::EchoOk),
            Type::GenerateOk => self.refuse(Type::GenerateOk),
            Type::TopologyOk => self.refuse(Type::TopologyOk),
        }
    }

    /// Whether handling `request` can leave the node in the state `next`
    /// with the result `sent`: it does so for some reading of the clock and
    /// some order in which the delivered values are walked.
    pub open spec fn handles(
        self,
        request: MessageView,
        next: NodeView,
        sent: Result<Seq<MessageView>, NodeError>,
    ) -> bool {
        exists|stamp: u128, order: Seq<usize>|
            (request.body.payload is ReadOk ==> enumerates(order, self.delivered))
                && #[trigger] self.handle(request, stamp, order) == (Step { next, sent })
    }
}

} // verus!
