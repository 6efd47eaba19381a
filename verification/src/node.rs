//! The node: its state and what it does with each envelope.

use std::collections::HashSet;
use vstd::prelude::*;
use vstd::string::*;

use crate::clock::micros_since_epoch;
use crate::decimal::append_decimal;
use crate::error::NodeError;
use crate::identity::NodeIdentity;
use crate::message::{envelopes, Body, BodyView, Message, MessageView, Payload, PayloadView, Type};
use crate::model::{minted_id, missing, probe_targets, with_pending, NodeView, Step};
use crate::store::{enumerates, DeliveredStore};
use crate::topology::{names, Topology};
use crate::tracker::OutstandingTracker;

verus! {

broadcast use vstd::std_specs::hash::group_hash_axioms;

/// One participant of the cluster.
pub struct Node {
    identity: NodeIdentity,
    messages: DeliveredStore,
    topo: Topology,
    outstanding: OutstandingTracker,
}

impl View for Node {
    type V = NodeView;

    closed spec fn view(&self) -> NodeView {
        NodeView {
            id: self.identity.assigned(),
            next_msg_id: self.identity.counter(),
            delivered: self.messages@,
            topology: self.topo@,
            outstanding: self.outstanding@,
        }
    }
}

/// What a handler returned, as a mathematical value.
pub open spec fn outcome(sent: Result<Vec<Message>, NodeError>) -> Result<
    Seq<MessageView>,
    NodeError,
> {
    match sent {
        Ok(list) => Ok(envelopes(list@)),
        Err(e) => Err(e),
    }
}

/// Whether the envelopes of `sent`, where it holds any, stand one for one
/// beside their mathematical values. This holds of every result; a contract
/// states it so that a caller can go from an envelope to its value.
pub open spec fn itemized(sent: Result<Vec<Message>, NodeError>) -> bool {
    sent matches Ok(list) ==> envelopes(list@).len() == list@.len() && forall|i: int|
        0 <= i < list@.len() ==> (#[trigger] list@[i])@ == envelopes(list@)[i]
}

proof fn lemma_probe_targets_push(prefix: Seq<Seq<char>>, next: Seq<char>, sender: Seq<char>)
    ensures
        probe_targets(prefix.push(next), sender) == if next != sender {
            probe_targets(prefix, sender).push(next)
        } else {
            probe_targets(prefix, sender)
        },
{
    reveal(Seq::filter);
    assert(prefix.push(next).drop_last() =~= prefix);
}

proof fn lemma_missing_push(prefix: Seq<usize>, next: usize, known: Set<usize>)
    ensures
        missing(prefix.push(next), known) == if !known.contains(next) {
            missing(prefix, known).push(next)
        } else {
            missing(prefix, known)
        },
{
    reveal(Seq::filter);
    assert(prefix.push(next).drop_last() =~= prefix);
}

/// The values of `list` as a set.
fn collect(list: &Vec<usize>) -> (set: HashSet<usize>)
    ensures
        set@ == list@.to_set(),
{
    let mut set: HashSet<usize> = HashSet::new();
    let mut i: usize = 0;
    while i < list.len()
        invariant
            i <= list@.len(),
            set@ == list@.take(i as int).to_set(),
        decreases list@.len() - i,
    {
        set.insert(list[i]);
        proof {
            let before = list@.take(i as int);
            let after = list@.take(i + 1);
            assert(after =~= before.push(list@[i as int]));
            assert(after.to_set() =~= before.to_set().insert(list@[i as int])) by {
                assert forall|v: usize| after.to_set().contains(v) <==> before.to_set().insert(
                    list@[i as int],
                ).contains(v) by {
                    if after.contains(v) {
                        let j = choose|j: int| 0 <= j < after.len() && after[j] == v;
                        if j < before.len() {
                            assert(before[j] == v);
                        }
                    }
                    if before.contains(v) {
                        let j = choose|j: int| 0 <= j < before.len() && before[j] == v;
                        assert(after[j] == v);
                    }
                    if v == list@[i as int] {
                        assert(after[i as int] == v);
                    }
                }
            }
        }
        i += 1;
    }
    proof {
        assert(list@.take(i as int) =~= list@);
    }
    set
}

/// The values of `order` that `known` lacks.
fn pick_missing(order: &Vec<usize>, known: &HashSet<usize>) -> (values: Vec<usize>)
    ensures
        values@ == missing(order@, known@),
{
    let mut values: Vec<usize> = Vec::new();
    let mut i: usize = 0;
    proof {
        reveal(Seq::filter);
        assert(order@.take(0) =~= Seq::<usize>::empty());
    }
    while i < order.len()
        invariant
            i <= order@.len(),
            values@ == missing(order@.take(i as int), known@),
        decreases order@.len() - i,
    {
        let value = order[i];
        proof {
            lemma_missing_push(order@.take(i as int), value, known@);
            assert(order@.take(i + 1) =~= order@.take(i as int).push(value));
        }
        if !known.contains(&value) {
            values.push(value);
        }
        i += 1;
    }
    proof {
        assert(order@.take(i as int) =~= order@);
    }
    values
}

impl Default for Node {
    fn default() -> (node: Self)
        ensures
            node@ == NodeView::initial(),
    {
        Node::new()
    }
}

impl Node {
    /// A node without an id that has seen nothing.
    pub fn new() -> (node: Self)
        ensures
            node@ == NodeView::initial(),
    {
        Node {
            identity: NodeIdentity::new(),
            messages: DeliveredStore::new(),
            topo: Topology::new(),
            outstanding: OutstandingTracker::new(),
        }
    }

    /// A node without an id that has seen nothing and numbers its envelopes
    /// from `next_msg_id` on.
    pub fn starting_at(next_msg_id: usize) -> (node: Self)
        ensures
            node@ == (NodeView { next_msg_id, ..NodeView::initial() }),
    {
        Node {
            identity: NodeIdentity::starting_at(next_msg_id),
            messages: DeliveredStore::new(),
            topo: Topology::new(),
            outstanding: OutstandingTracker::new(),
        }
    }

    /// Whether the handshake has assigned an id.
    pub fn is_initialized(&self) -> (yes: bool)
        ensures
            yes == self@.id is Some,
    {
        self.identity.is_assigned()
    }

    /// The sequence number that the next envelope gets.
    pub fn next_msg_id(&self) -> (next: usize)
        ensures
            next == self@.next_msg_id,
    {
        self.identity.next_msg_id()
    }

    /// The values delivered so far.
    pub fn delivered(&self) -> (store: &DeliveredStore)
        ensures
            store@ == self@.delivered,
    {
        &self.messages
    }

    /// The topology held.
    pub fn topology(&self) -> (topology: &Topology)
        ensures
            topology@ == self@.topology,
    {
        &self.topo
    }

    /// What went out for a value and is not acknowledged.
    pub fn outstanding(&self) -> (tracker: &OutstandingTracker)
        ensures
            tracker@ == self@.outstanding,
    {
        &self.outstanding
    }

    /// The node's id; before one is assigned, a placeholder.
    pub fn id(&self) -> (name: &str)
        ensures
            name@ == self@.name(),
    {
        self.identity.id()
    }

    /// Delivers `message` to this node.
    pub fn push_message(&mut self, message: usize)
        ensures
            final(self)@ == (NodeView {
                delivered: old(self)@.delivered.insert(message),
                ..old(self)@
            }),
    {
        self.messages.insert(message);
    }

    /// Puts `topo` in place of the topology held.
    pub fn create_topo(&mut self, topo: Topology)
        ensures
            final(self)@ == (NodeView { topology: topo@, ..old(self)@ }),
    {
        self.topo = topo;
    }

    /// An envelope from this node under the sequence number `msg_id`.
    fn envelope(
        &self,
        msg_id: usize,
        dest: String,
        in_reply_to: Option<usize>,
        payload: Payload,
    ) -> (message: Message)
        ensures
            message@ == (MessageView {
                src: self@.name(),
                dest: dest@,
                body: BodyView { msg_id: Some(msg_id), in_reply_to, payload: payload@ },
            }),
    {
        Message {
            src: String::from_str(self.identity.id()),
            dest,
            body: Body { msg_id: Some(msg_id), in_reply_to, payload },
        }
    }

    /// Sends one envelope back to `to`.
    fn reply(&mut self, to: String, in_reply_to: Option<usize>, payload: Payload) -> (sent: Vec<
        Message,
    >)
        requires
            old(self)@.has_room(1),
        ensures
            final(self)@ == old(self)@.after_sending(1),
            envelopes(sent@) == seq![old(self)@.envelope(0, to@, in_reply_to, payload@)],
    {
        let msg_id = self.identity.issue();
        let message = self.envelope(msg_id, to, in_reply_to, payload);
        let mut sent: Vec<Message> = Vec::new();
        sent.push(message);
        assert(envelopes(sent@) =~= seq![message@]);
        sent
    }

    /// Handles an `init`: takes the id and confirms. A node that already
    /// has an id keeps it and reports a protocol violation.
    pub fn handle_init(&mut self, message: Message) -> (sent: Result<Vec<Message>, NodeError>)
        ensures
            itemized(sent),
            (Step { next: final(self)@, sent: outcome(sent) }) == old(self)@.on_init(message@),
    {
        let kind = message.body.payload.kind();
        match message.body.payload {
            Payload::Init { node_id, node_ids: _ } => {
                if self.identity.is_assigned() {
                    return Err(NodeError::ProtocolViolation { received: Type::Init });
                }
                if !self.identity.has_room(1) {
                    return Err(NodeError::CounterExhausted);
                }
                match self.identity.assign(node_id) {
                    Ok(()) => Ok(self.reply(message.src, message.body.msg_id, Payload::InitOk)),
                    Err(e) => Err(e),
                }
            },
            _ => Err(NodeError::ProtocolViolation { received: kind }),
        }
    }

    /// Handles an `echo`: the text goes back.
    pub fn handle_echo(&mut self, message: Message) -> (sent: Result<Vec<Message>, NodeError>)
        ensures
            itemized(sent),
            (Step { next: final(self)@, sent: outcome(sent) }) == old(self)@.on_echo(message@),
    {
        let kind = message.body.payload.kind();
        match message.body.payload {
            Payload::Echo { echo } => {
                if !self.identity.has_room(1) {
                    return Err(NodeError::CounterExhausted);
                }
                Ok(self.reply(message.src, message.body.msg_id, Payload::EchoOk { echo }))
            },
            _ => Err(NodeError::ProtocolViolation { received: kind }),
        }
    }

    /// Handles a `generate` that arrives when the clock reads `stamp`: an id
    /// made of the node's name, a hyphen and the stamp goes back.
    pub fn handle_generate_at(&mut self, message: Message, stamp: u128) -> (sent: Result<
        Vec<Message>,
        NodeError,
    >)
        ensures
            itemized(sent),
            (Step { next: final(self)@, sent: outcome(sent) }) == old(self)@.on_generate(
                message@,
                stamp,
            ),
    {
        let kind = message.body.payload.kind();
        match message.body.payload {
            Payload::Generate => {
                if !self.identity.has_room(1) {
                    return Err(NodeError::CounterExhausted);
                }
                let mut id = String::from_str(self.identity.id());
                proof {
                    reveal_strlit("-");
                }
                id.append("-");
                append_decimal(&mut id, stamp);
                assert(id@ =~= minted_id(self@.name(), stamp));
                Ok(self.reply(message.src, message.body.msg_id, Payload::GenerateOk { id }))
            },
            _ => Err(NodeError::ProtocolViolation { received: kind }),
        }
    }

    /// Handles a `generate` by the system clock. Which id goes back depends
    /// on the reading; a clock that stands before its epoch reads as zero.
    pub fn handle_generate(&mut self, message: Message) -> (sent: Result<Vec<Message>, NodeError>)
        ensures
            itemized(sent),
            exists|stamp: u128|
                (Step { next: final(self)@, sent: outcome(sent) }) == old(self)@.on_generate(
                    message@,
                    stamp,
                ),
    {
        let stamp = match micros_since_epoch() {
            Some(stamp) => stamp,
            None => 0,
        };
        self.handle_generate_at(message, stamp)
    }

    /// Handles a `topology`: the supplied mapping replaces the one held.
    pub fn handle_topology(&mut self, message: Message) -> (sent: Result<Vec<Message>, NodeError>)
        ensures
            itemized(sent),
            (Step { next: final(self)@, sent: outcome(sent) }) == old(self)@.on_topology(
                message@,
            ),
    {
        let kind = message.body.payload.kind();
        match message.body.payload {
            Payload::Topology { topology } => {
                if !self.identity.has_room(1) {
                    return Err(NodeError::CounterExhausted);
                }
                self.create_topo(topology);
                Ok(self.reply(message.src, message.body.msg_id, Payload::TopologyOk))
            },
            _ => Err(NodeError::ProtocolViolation { received: kind }),
        }
    }

    /// Handles a `read`: the delivered values go back.
    pub fn handle_read(&mut self, message: Message) -> (sent: Result<Vec<Message>, NodeError>)
        ensures
            itemized(sent),
            (Step { next: final(self)@, sent: outcome(sent) }) == old(self)@.on_read(message@),
    {
        let kind = message.body.payload.kind();
        match message.body.payload {
            Payload::Read => {
                if !self.identity.has_room(1) {
                    return Err(NodeError::CounterExhausted);
                }
                let messages = self.messages.snapshot();
                Ok(self.reply(message.src, message.body.msg_id, Payload::ReadOk { messages }))
            },
            _ => Err(NodeError::ProtocolViolation { received: kind }),
        }
    }

    /// Handles a `broadcast_ok`: what it answers is outstanding no longer.
    /// An acknowledgement of nothing outstanding changes nothing.
    pub fn handle_broadcast_ok(&mut self, message: Message) -> (sent: Result<
        Vec<Message>,
        NodeError,
    >)
        ensures
            itemized(sent),
            (Step { next: final(self)@, sent: outcome(sent) }) == old(self)@.on_broadcast_ok(
                message@,
            ),
    {
        let kind = message.body.payload.kind();
        match message.body.payload {
            Payload::BroadcastOk => {
                match message.body.in_reply_to {
                    Some(msg_id) => {
                        self.outstanding.acknowledge(msg_id);
                    },
                    None => {},
                }
                let sent: Vec<Message> = Vec::new();
                assert(envelopes(sent@) =~= Seq::<MessageView>::empty());
                Ok(sent)
            },
            _ => Err(NodeError::ProtocolViolation { received: kind }),
        }
    }

    /// The neighbours to probe after an envelope from `sender`: this node's
    /// own, but for the sender. A node without neighbours has none to probe.
    fn probe_list(&self, sender: &String) -> (targets: Vec<String>)
        ensures
            names(targets@) == probe_targets(self@.neighbors(), sender@),
    {
        let me = String::from_str(self.identity.id());
        let mut targets: Vec<String> = Vec::new();
        proof {
            reveal(Seq::filter);
            assert(names(targets@) =~= Seq::<Seq<char>>::empty());
        }
        match self.topo.neighbors_of(&me) {
            Err(_) => {
                assert(self@.neighbors() =~= Seq::<Seq<char>>::empty());
                targets
            },
            Ok(list) => {
                let mut i: usize = 0;
                assert(names(list@).take(0) =~= Seq::<Seq<char>>::empty());
                while i < list.len()
                    invariant
                        i <= list@.len(),
                        names(targets@) == probe_targets(names(list@).take(i as int), sender@),
                    decreases list@.len() - i,
                {
                    proof {
                        lemma_probe_targets_push(
                            names(list@).take(i as int),
                            list@[i as int]@,
                            sender@,
                        );
                        assert(names(list@).take(i + 1) =~= names(list@).take(i as int).push(
                            list@[i as int]@,
                        ));
                    }
                    if list[i] != *sender {
                        let ghost before = targets@;
                        let name = list[i].clone();
                        targets.push(name);
                        assert(names(targets@) =~= names(before).push(name@));
                    }
                    i += 1;
                }
                assert(names(list@).take(i as int) =~= names(list@));
                targets
            },
        }
    }

    /// Handles a `broadcast`: delivers the value; acknowledges it to the
    /// sender if the envelope names this node as its destination; and sends
    /// a `read` to every neighbour but the sender, each noted as outstanding
    /// for the value.
    pub fn handle_broadcast(&mut self, message: Message) -> (sent: Result<Vec<Message>, NodeError>)
        ensures
            itemized(sent),
            (Step { next: final(self)@, sent: outcome(sent) }) == old(self)@.on_broadcast(
                message@,
            ),
    {
        let kind = message.body.payload.kind();
        let ghost before = self@;
        match message.body.payload {
            Payload::Broadcast { message: value } => {
                let me = String::from_str(self.identity.id());
                let addressed = message.dest == me;
                let targets = self.probe_list(&message.src);
                let free = usize::MAX - self.identity.next_msg_id();
                if targets.len() > free || (addressed && targets.len() == free) {
                    return Err(NodeError::CounterExhausted);
                }
                let ghost acks: int = if addressed {
                    1
                } else {
                    0
                };
                let ghost first = before.next_msg_id + acks;
                let ghost wanted = names(targets@);
                self.messages.insert(value);
                let mut sent: Vec<Message> = Vec::new();
                if addressed {
                    let msg_id = self.identity.issue();
                    let ack = self.envelope(
                        msg_id,
                        message.src.clone(),
                        message.body.msg_id,
                        Payload::BroadcastOk,
                    );
                    sent.push(ack);
                }
                let ghost ack = envelopes(sent@);
                assert(ack =~= if acks == 1 {
                    seq![
                        before.envelope(
                            0,
                            message@.src,
                            message@.body.msg_id,
                            PayloadView::BroadcastOk,
                        ),
                    ]
                } else {
                    Seq::empty()
                });
                assert(self@.outstanding =~= with_pending(
                    before.outstanding,
                    first,
                    Seq::new(0, |j: int| value),
                ));
                let mut i: usize = 0;
                while i < targets.len()
                    invariant
                        i <= targets@.len(),
                        wanted == names(targets@),
                        first == before.next_msg_id + acks,
                        0 <= acks <= 1,
                        first + targets@.len() <= usize::MAX,
                        self@.id == before.id,
                        self@.next_msg_id == first + i,
                        self@.delivered == before.delivered.insert(value),
                        self@.topology == before.topology,
                        self@.outstanding == with_pending(
                            before.outstanding,
                            first,
                            Seq::new(i as nat, |j: int| value),
                        ),
                        envelopes(sent@) == ack + Seq::new(
                            i as nat,
                            |j: int| before.envelope(acks + j, wanted[j], None, PayloadView::Read),
                        ),
                    decreases targets@.len() - i,
                {
                    let ghost so_far = envelopes(sent@);
                    let ghost waiting = self@.outstanding;
                    let msg_id = self.identity.issue();
                    let probe = self.envelope(msg_id, targets[i].clone(), None, Payload::Read);
                    self.outstanding.record(msg_id, value);
                    sent.push(probe);
                    proof {
                        assert(wanted[i as int] == targets@[i as int]@);
                        assert(probe@ == before.envelope(
                            acks + i,
                            wanted[i as int],
                            None,
                            PayloadView::Read,
                        ));
                        assert(envelopes(sent@) =~= so_far.push(probe@));
                        assert(envelopes(sent@) =~= ack + Seq::new(
                            (i + 1) as nat,
                            |j: int| before.envelope(acks + j, wanted[j], None, PayloadView::Read),
                        ));
                        assert(self@.outstanding =~= with_pending(
                            before.outstanding,
                            first,
                            Seq::new((i + 1) as nat, |j: int| value),
                        ));
                    }
                    i += 1;
                }
                proof {
                    let want = before.on_broadcast(message@);
                    assert(self@ =~= want.next);
                    assert(Ok::<Seq<MessageView>, NodeError>(envelopes(sent@)) == want.sent);
                }
                Ok(sent)
            },
            _ => Err(NodeError::ProtocolViolation { received: kind }),
        }
    }

    /// Offers `values` to `peer`: each goes out as a `broadcast` that
    /// answers `in_reply_to`, and is noted as outstanding under the sequence
    /// number of its envelope. Where the counter has too few numbers left
    /// for all of them, nothing is sent and nothing changes.
    pub fn offer(&mut self, peer: &String, in_reply_to: Option<usize>, values: &Vec<usize>) -> (sent:
        Result<Vec<Message>, NodeError>)
        ensures
            itemized(sent),
            (Step { next: final(self)@, sent: outcome(sent) }) == old(self)@.offer(
                peer@,
                in_reply_to,
                values@,
            ),
    {
        let ghost before = self@;
        if !self.identity.has_room(values.len()) {
            return Err(NodeError::CounterExhausted);
        }
        let mut sent: Vec<Message> = Vec::new();
        assert(envelopes(sent@) =~= Seq::<MessageView>::empty());
        assert(self@.outstanding =~= with_pending(
            before.outstanding,
            before.next_msg_id as int,
            values@.take(0),
        ));
        let mut i: usize = 0;
        while i < values.len()
            invariant
                i <= values@.len(),
                before.next_msg_id + values@.len() <= usize::MAX,
                self@.id == before.id,
                self@.next_msg_id == before.next_msg_id + i,
                self@.delivered == before.delivered,
                self@.topology == before.topology,
                self@.outstanding == with_pending(
                    before.outstanding,
                    before.next_msg_id as int,
                    values@.take(i as int),
                ),
                envelopes(sent@) == Seq::new(
                    i as nat,
                    |j: int|
                        before.envelope(
                            j,
                            peer@,
                            in_reply_to,
                            PayloadView::Broadcast { message: values@[j] },
                        ),
                ),
            decreases values@.len() - i,
        {
            let ghost so_far = envelopes(sent@);
            let value = values[i];
            let msg_id = self.identity.issue();
            let message = self.envelope(
                msg_id,
                peer.clone(),
                in_reply_to,
                Payload::Broadcast { message: value },
            );
            self.outstanding.record(msg_id, value);
            sent.push(message);
            proof {
                assert(envelopes(sent@) =~= so_far.push(message@));
                assert(envelopes(sent@) =~= Seq::new(
                    (i + 1) as nat,
                    |j: int|
                        before.envelope(
                            j,
                            peer@,
                            in_reply_to,
                            PayloadView::Broadcast { message: values@[j] },
                        ),
                ));
                assert(self@.outstanding =~= with_pending(
                    before.outstanding,
                    before.next_msg_id as int,
                    values@.take(i + 1),
                ));
            }
            i += 1;
        }
        proof {
            assert(values@.take(i as int) =~= values@);
            let want = before.offer(peer@, in_reply_to, values@);
            assert(self@ =~= want.next);
            assert(Ok::<Seq<MessageView>, NodeError>(envelopes(sent@)) == want.sent);
        }
        Ok(sent)
    }

    /// Handles a `read_ok` with the delivered values walked in the order
    /// `order`: every value of `order` that the sender lacks is offered to
    /// it.
    pub fn reconcile(&mut self, message: Message, order: &Vec<usize>) -> (sent: Result<
        Vec<Message>,
        NodeError,
    >)
        ensures
            itemized(sent),
            (Step { next: final(self)@, sent: outcome(sent) }) == old(self)@.on_read_ok(
                message@,
                order@,
            ),
    {
        let kind = message.body.payload.kind();
        match message.body.payload {
            Payload::ReadOk { messages } => {
                let known = collect(&messages);
                let values = pick_missing(order, &known);
                self.offer(&message.src, message.body.msg_id, &values)
            },
            _ => Err(NodeError::ProtocolViolation { received: kind }),
        }
    }

    /// Handles a `read_ok`: every delivered value that the sender lacks is
    /// offered to it. The order of the offers is that in which the store
    /// hands out its values.
    pub fn handle_read_ok(&mut self, message: Message) -> (sent: Result<Vec<Message>, NodeError>)
        ensures
            itemized(sent),
            exists|order: Seq<usize>|
                enumerates(order, old(self)@.delivered) && (Step {
                    next: final(self)@,
                    sent: outcome(sent),
                }) == #[trigger] old(self)@.on_read_ok(message@, order),
    {
        let order = self.messages.snapshot();
        self.reconcile(message, &order)
    }

    /// Handles one envelope: routes it by its kind. `init_ok`, `echo_ok`,
    /// `generate_ok` and `topology_ok` are never asked for and are reported
    /// as protocol violations, as is a second `init`. Whatever is reported,
    /// the node is left as it was.
    pub fn handle_message(&mut self, message: Message) -> (sent: Result<Vec<Message>, NodeError>)
        ensures
            itemized(sent),
            old(self)@.handles(message@, final(self)@, outcome(sent)),
    {
        let ghost before = self@;
        let ghost request = message@;
        let ghost idle = Seq::<usize>::empty();
        let kind = message.body.payload.kind();
        match kind {
            Type::Init => {
                let sent = self.handle_init(message);
                assert(before.handle(request, 0, idle) == (Step {
                    next: self@,
                    sent: outcome(sent),
                }));
                sent
            },
            Type::Echo => {
                let sent = self.handle_echo(message);
                assert(before.handle(request, 0, idle) == (Step {
                    next: self@,
                    sent: outcome(sent),
                }));
                sent
            },
            Type::Generate => {
                let sent = self.handle_generate(message);
                proof {
                    let stamp = choose|stamp: u128|
                        (Step { next: self@, sent: outcome(sent) }) == before.on_generate(
                            request,
                            stamp,
                        );
                    assert(before.handle(request, stamp, idle) == (Step {
                        next: self@,
                        sent: outcome(sent),
                    }));
                }
                sent
            },
            Type::Topology => {
                let sent = self.handle_topology(message);
                assert(before.handle(request, 0, idle) == (Step {
                    next: self@,
                    sent: outcome(sent),
                }));
                sent
            },
            Type::Read => {
                let sent = self.handle_read(message);
                assert(before.handle(request, 0, idle) == (Step {
                    next: self@,
                    sent: outcome(sent),
                }));
                sent
            },
            Type::Broadcast => {
                let sent = self.handle_broadcast(message);
                assert(before.handle(request, 0, idle) == (Step {
                    next: self@,
                    sent: outcome(sent),
                }));
                sent
            },
            Type::BroadcastOk => {
                let sent = self.handle_broadcast_ok(message);
                assert(before.handle(request, 0, idle) == (Step {
                    next: self@,
                    sent: outcome(sent),
                }));
                sent
            },
            Type::ReadOk => {
                let sent = self.handle_read_ok(message);
                proof {
                    let order = choose|order: Seq<usize>|
                        enumerates(order, before.delivered) && (Step {
                            next: self@,
                            sent: outcome(sent),
                        }) == #[trigger] before.on_read_ok(request, order);
                    assert(before.handle(request, 0, order) == (Step {
                        next: self@,
                        sent: outcome(sent),
                    }));
                }
                sent
            },
            Type::InitOk | Type::EchoOk | Type::GenerateOk | Type::TopologyOk => {
                let sent: Result<Vec<Message>, NodeError> = Err(
                    NodeError::ProtocolViolation { received: kind },
                );
                assert(before.handle(request, 0, idle) == (Step {
                    next: self@,
                    sent: outcome(sent),
                }));
                sent
            },
        }
    }
}

} // verus!
