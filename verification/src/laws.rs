//! What holds of the node whatever it is sent.

use vstd::prelude::*;

use crate::error::NodeError;
use crate::decimal::{decimal, lemma_decimal_has_no_hyphen, lemma_decimal_injective};
use crate::message::{MessageView, PayloadView, Type};
use crate::model::{minted_id, missing, probe_targets, NodeView, Step};
use crate::store::enumerates;

verus! {

/// One envelope that arrives, together with what the surroundings decide
/// while it is handled: the reading of the clock, and the order in which the
/// delivered values are walked.
pub struct Arrival {
    pub request: MessageView,
    pub stamp: u128,
    pub order: Seq<usize>,
}

/// The step that the node takes from `state` on `arrival`.
pub open spec fn step(state: NodeView, arrival: Arrival) -> Step {
    state.handle(arrival.request, arrival.stamp, arrival.order)
}

/// The state after the envelopes of `arrivals` were handled one by one,
/// starting from `state`.
pub open spec fn state_after(state: NodeView, arrivals: Seq<Arrival>) -> NodeView
    decreases arrivals.len(),
{
    if arrivals.len() == 0 {
        state
    } else {
        step(state_after(state, arrivals.drop_last()), arrivals.last()).next
    }
}

/// What a step sends; nothing where it reports an error.
pub open spec fn sent_by(step: Step) -> Seq<MessageView> {
    match step.sent {
        Ok(sent) => sent,
        Err(_) => Seq::empty(),
    }
}

/// All envelopes that go out while `arrivals` are handled one by one from
/// `state`, in the order in which they are produced.
pub open spec fn sent_during(state: NodeView, arrivals: Seq<Arrival>) -> Seq<MessageView>
    decreases arrivals.len(),
{
    if arrivals.len() == 0 {
        Seq::empty()
    } else {
        sent_during(state, arrivals.drop_last()) + sent_by(
            step(state_after(state, arrivals.drop_last()), arrivals.last()),
        )
    }
}

/// Delivering a value that is already delivered changes neither the
/// contents of the store nor its size.
pub proof fn law_delivery_idempotent(delivered: Set<usize>, value: usize)
    ensures
        delivered.insert(value).insert(value) == delivered.insert(value),
        delivered.insert(value).insert(value).len() == delivered.insert(value).len(),
        delivered.contains(value) ==> delivered.insert(value) == delivered
            && delivered.insert(value).len() == delivered.len(),
{
    assert(delivered.insert(value).insert(value) =~= delivered.insert(value));
    if delivered.contains(value) {
        assert(delivered.insert(value) =~= delivered);
    }
}

/// A step that reports an error leaves the state as it was.
pub proof fn law_error_changes_nothing(state: NodeView, arrival: Arrival)
    ensures
        step(state, arrival).sent is Err ==> step(state, arrival).next == state,
{
}

/// An `init` to a node that has an id is a protocol violation, and the node
/// keeps its id and everything else.
pub proof fn law_second_init_refused(state: NodeView, arrival: Arrival)
    requires
        state.id is Some,
        arrival.request.body.payload is Init,
    ensures
        step(state, arrival).sent == Err::<Seq<MessageView>, NodeError>(
            NodeError::ProtocolViolation { received: Type::Init },
        ),
        step(state, arrival).next == state,
{
}

/// A reply that the node never asks for is a protocol violation, and the
/// node stays as it was.
pub proof fn law_unrequested_reply_refused(state: NodeView, arrival: Arrival)
    requires
        ({
            let kind = arrival.request.body.payload.kind();
            kind is InitOk || kind is EchoOk || kind is GenerateOk || kind is TopologyOk
        }),
    ensures
        step(state, arrival) == state.refuse(arrival.request.body.payload.kind()),
        step(state, arrival).next == state,
{
}

/// No step changes an id that is assigned.
pub proof fn law_step_keeps_identity(state: NodeView, arrival: Arrival)
    requires
        state.id is Some,
    ensures
        step(state, arrival).next.id == state.id,
{
}

/// The id changes at most once: from the moment it is assigned it stays what
/// it is, whatever arrives.
pub proof fn law_identity_assigned_once(
    state: NodeView,
    arrivals: Seq<Arrival>,
    earlier: int,
    later: int,
)
    requires
        0 <= earlier <= later <= arrivals.len(),
        state_after(state, arrivals.take(earlier)).id is Some,
    ensures
        state_after(state, arrivals.take(later)).id == state_after(
            state,
            arrivals.take(earlier),
        ).id,
    decreases later - earlier,
{
    if earlier < later {
        law_identity_assigned_once(state, arrivals, earlier, later - 1);
        let prefix = arrivals.take(later);
        assert(prefix.drop_last() =~= arrivals.take(later - 1));
        law_step_keeps_identity(state_after(state, arrivals.take(later - 1)), prefix.last());
    }
}

/// The envelopes of one step carry consecutive sequence numbers that start
/// at the node's counter, and the counter moves past them.
pub proof fn law_step_numbers(state: NodeView, arrival: Arrival)
    ensures
        step(state, arrival).next.next_msg_id == state.next_msg_id + sent_by(
            step(state, arrival),
        ).len(),
        forall|k: int|
            0 <= k < sent_by(step(state, arrival)).len() ==> (#[trigger] sent_by(
                step(state, arrival),
            )[k]).body.msg_id == Some((state.next_msg_id + k) as usize),
{
    state.neighbors().lemma_filter_len(|name: Seq<char>| name != arrival.request.src);
}

/// The `k`-th envelope that a node ever sends carries its starting counter
/// plus `k`, and the counter has moved past all of them.
pub proof fn law_numbers_consecutive(state: NodeView, arrivals: Seq<Arrival>)
    ensures
        state_after(state, arrivals).next_msg_id == state.next_msg_id + sent_during(
            state,
            arrivals,
        ).len(),
        forall|k: int|
            0 <= k < sent_during(state, arrivals).len() ==> (#[trigger] sent_during(
                state,
                arrivals,
            )[k]).body.msg_id == Some((state.next_msg_id + k) as usize),
    decreases arrivals.len(),
{
    if arrivals.len() > 0 {
        let before = state_after(state, arrivals.drop_last());
        law_numbers_consecutive(state, arrivals.drop_last());
        law_step_numbers(before, arrivals.last());
    }
}

/// Of two envelopes that a node sends, the earlier has the smaller sequence
/// number: numbers are never repeated.
pub proof fn law_numbers_increase(state: NodeView, arrivals: Seq<Arrival>, a: int, b: int)
    requires
        0 <= a < b < sent_during(state, arrivals).len(),
    ensures
        sent_during(state, arrivals)[a].body.msg_id is Some,
        sent_during(state, arrivals)[b].body.msg_id is Some,
        sent_during(state, arrivals)[a].body.msg_id->0 < sent_during(
            state,
            arrivals,
        )[b].body.msg_id->0,
{
    law_numbers_consecutive(state, arrivals);
}

/// The first `init` assigns the id that it names, and the confirmation goes
/// out under that id, answers the request and carries the counter's value.
pub proof fn law_first_init_assigns(state: NodeView, arrival: Arrival, node_id: Seq<char>)
    requires
        state.id is None,
        state.has_room(1),
        arrival.request.body.payload is Init,
        arrival.request.body.payload->Init_node_id == node_id,
    ensures
        step(state, arrival).next.id == Some(node_id),
        step(state, arrival).sent is Ok,
        step(state, arrival).sent->Ok_0.len() == 1,
        step(state, arrival).sent->Ok_0[0].src == node_id,
        step(state, arrival).sent->Ok_0[0].dest == arrival.request.src,
        step(state, arrival).sent->Ok_0[0].body.payload == PayloadView::InitOk,
        step(state, arrival).sent->Ok_0[0].body.in_reply_to == arrival.request.body.msg_id,
        step(state, arrival).sent->Ok_0[0].body.msg_id == Some(state.next_msg_id),
{
}

/// Minted ids are unique: two of them are equal only where both the names
/// and the stamps are. So nodes with different names never mint the same
/// id, and one node mints the same id twice only if its clock reads the same
/// both times.
pub proof fn law_minted_ids_differ(
    name: Seq<char>,
    stamp: u128,
    other_name: Seq<char>,
    other_stamp: u128,
)
    requires
        minted_id(name, stamp) == minted_id(other_name, other_stamp),
    ensures
        name == other_name,
        stamp == other_stamp,
{
    let digits = decimal(stamp as nat);
    let other_digits = decimal(other_stamp as nat);
    let id = minted_id(name, stamp);
    let other_id = minted_id(other_name, other_stamp);
    lemma_decimal_has_no_hyphen(stamp as nat);
    lemma_decimal_has_no_hyphen(other_stamp as nat);
    assert(id.len() == name.len() + 1 + digits.len());
    assert(other_id.len() == other_name.len() + 1 + other_digits.len());
    if digits.len() < other_digits.len() {
        let at = name.len() as int;
        assert(id[at] == '-');
        assert(other_id[at] == other_digits[at - other_name.len() - 1]);
    } else if other_digits.len() < digits.len() {
        let at = other_name.len() as int;
        assert(other_id[at] == '-');
        assert(id[at] == digits[at - name.len() - 1]);
    } else {
        assert(name =~= other_name) by {
            assert forall|i: int| 0 <= i < name.len() implies name[i] == other_name[i] by {
                assert(id[i] == name[i]);
                assert(other_id[i] == other_name[i]);
            }
        }
        assert(digits =~= other_digits) by {
            assert forall|i: int| 0 <= i < digits.len() implies digits[i] == other_digits[i] by {
                assert(id[name.len() + 1 + i] == digits[i]);
                assert(other_id[name.len() + 1 + i] == other_digits[i]);
            }
        }
        lemma_decimal_injective(stamp as nat, other_stamp as nat);
    }
}

/// The reply to an `echo` carries the request's text, answers the request's
/// sequence number and goes back to the request's sender.
pub proof fn law_echo_reply(state: NodeView, arrival: Arrival, text: Seq<char>)
    requires
        arrival.request.body.payload == (PayloadView::Echo { echo: text }),
        state.has_room(1),
    ensures
        step(state, arrival).sent is Ok,
        step(state, arrival).sent->Ok_0.len() == 1,
        step(state, arrival).sent->Ok_0[0].body.payload == (PayloadView::EchoOk { echo: text }),
        step(state, arrival).sent->Ok_0[0].body.in_reply_to == arrival.request.body.msg_id,
        step(state, arrival).sent->Ok_0[0].dest == arrival.request.src,
        step(state, arrival).sent->Ok_0[0].src == state.name(),
{
}

/// No step takes a value out of the store.
pub proof fn law_step_keeps_delivered(state: NodeView, arrival: Arrival)
    ensures
        state.delivered.subset_of(step(state, arrival).next.delivered),
{
}

/// The store never shrinks: what is delivered at one moment is delivered at
/// every later one.
pub proof fn law_store_never_shrinks(
    state: NodeView,
    arrivals: Seq<Arrival>,
    earlier: int,
    later: int,
)
    requires
        0 <= earlier <= later <= arrivals.len(),
    ensures
        state_after(state, arrivals.take(earlier)).delivered.subset_of(
            state_after(state, arrivals.take(later)).delivered,
        ),
    decreases later - earlier,
{
    if earlier < later {
        law_store_never_shrinks(state, arrivals, earlier, later - 1);
        let prefix = arrivals.take(later);
        assert(prefix.drop_last() =~= arrivals.take(later - 1));
        law_step_keeps_delivered(state_after(state, arrivals.take(later - 1)), prefix.last());
    }
}

/// Offering one value to a peer sends one `broadcast` and notes exactly one
/// entry as outstanding: the value, under that envelope's sequence number.
pub proof fn law_offer_notes_one_entry(
    state: NodeView,
    peer: Seq<char>,
    in_reply_to: Option<usize>,
    value: usize,
)
    requires
        state.has_room(1),
    ensures
        state.offer(peer, in_reply_to, seq![value]).sent == Ok::<Seq<MessageView>, NodeError>(
            seq![
                state.envelope(0, peer, in_reply_to, PayloadView::Broadcast { message: value }),
            ],
        ),
        state.offer(peer, in_reply_to, seq![value]).next.outstanding == state.outstanding.insert(
            state.next_msg_id,
            value,
        ),
{
    let taken = state.offer(peer, in_reply_to, seq![value]);
    assert(taken.sent->Ok_0 =~= seq![
        state.envelope(0, peer, in_reply_to, PayloadView::Broadcast { message: value }),
    ]);
    assert(taken.next.outstanding =~= state.outstanding.insert(state.next_msg_id, value));
}

/// Every `broadcast` that an offer sends is noted as outstanding for its
/// value under its own sequence number, and nothing else is noted or
/// changed.
pub proof fn law_offers_noted(
    state: NodeView,
    peer: Seq<char>,
    in_reply_to: Option<usize>,
    values: Seq<usize>,
)
    requires
        state.has_room(values.len()),
    ensures
        state.offer(peer, in_reply_to, values).sent is Ok,
        state.offer(peer, in_reply_to, values).sent->Ok_0.len() == values.len(),
        forall|k: int|
            #![trigger values[k]]
            0 <= k < values.len() ==> {
                let taken = state.offer(peer, in_reply_to, values);
                let message = taken.sent->Ok_0[k];
                &&& message.dest == peer
                &&& message.body.payload == (PayloadView::Broadcast { message: values[k] })
                &&& message.body.msg_id == Some((state.next_msg_id + k) as usize)
                &&& taken.next.outstanding.contains_key((state.next_msg_id + k) as usize)
                &&& taken.next.outstanding[(state.next_msg_id + k) as usize] == values[k]
            },
        forall|msg_id: usize|
            #![trigger state.outstanding.contains_key(msg_id)]
            !(state.next_msg_id <= msg_id < state.next_msg_id + values.len()) ==> {
                let taken = state.offer(peer, in_reply_to, values);
                &&& taken.next.outstanding.contains_key(msg_id) == state.outstanding.contains_key(
                    msg_id,
                )
                &&& state.outstanding.contains_key(msg_id) ==> taken.next.outstanding[msg_id]
                    == state.outstanding[msg_id]
            },
{
}

/// A `broadcast_ok` takes out the entry that it answers and no other, and
/// sends nothing.
pub proof fn law_acknowledgement_removes_one_entry(
    state: NodeView,
    arrival: Arrival,
    msg_id: usize,
)
    requires
        arrival.request.body.payload is BroadcastOk,
        arrival.request.body.in_reply_to == Some(msg_id),
    ensures
        step(state, arrival).sent == Ok::<Seq<MessageView>, NodeError>(Seq::empty()),
        step(state, arrival).next == (NodeView {
            outstanding: state.outstanding.remove(msg_id),
            ..state
        }),
        !step(state, arrival).next.outstanding.contains_key(msg_id),
        forall|other: usize|
            other != msg_id ==> {
                &&& #[trigger] step(state, arrival).next.outstanding.contains_key(other)
                    == state.outstanding.contains_key(other)
                &&& state.outstanding.contains_key(other) ==> step(
                    state,
                    arrival,
                ).next.outstanding[other] == state.outstanding[other]
            },
{
}

/// A `broadcast_ok` that answers nothing outstanding changes nothing.
pub proof fn law_late_acknowledgement_is_harmless(state: NodeView, arrival: Arrival)
    requires
        arrival.request.body.payload is BroadcastOk,
        match arrival.request.body.in_reply_to {
            Some(msg_id) => !state.outstanding.contains_key(msg_id),
            None => true,
        },
    ensures
        step(state, arrival).next == state,
        step(state, arrival).sent == Ok::<Seq<MessageView>, NodeError>(Seq::empty()),
{
    match arrival.request.body.in_reply_to {
        Some(msg_id) => {
            assert(state.outstanding.remove(msg_id) =~= state.outstanding);
        },
        None => {},
    }
}

/// A `broadcast` that is handled delivers its value, and every neighbour of
/// the node but the sender is sent a `read`.
pub proof fn law_broadcast_probes_neighbors(
    state: NodeView,
    request: MessageView,
    value: usize,
    neighbor: Seq<char>,
)
    requires
        request.body.payload == (PayloadView::Broadcast { message: value }),
        state.on_broadcast(request).sent is Ok,
        state.neighbors().contains(neighbor),
        neighbor != request.src,
    ensures
        state.on_broadcast(request).next.delivered.contains(value),
        exists|k: int|
            #![trigger state.on_broadcast(request).sent->Ok_0[k]]
            0 <= k < state.on_broadcast(request).sent->Ok_0.len() && {
                let probe = state.on_broadcast(request).sent->Ok_0[k];
                &&& probe.src == state.name()
                &&& probe.dest == neighbor
                &&& probe.body.payload == PayloadView::Read
            },
{
    let pred = |name: Seq<char>| name != request.src;
    let targets = probe_targets(state.neighbors(), request.src);
    let at = choose|i: int| 0 <= i < state.neighbors().len() && state.neighbors()[i] == neighbor;
    state.neighbors().lemma_filter_contains(pred, at);
    assert(targets.contains(neighbor));
    let t = choose|t: int| 0 <= t < targets.len() && targets[t] == neighbor;
    let acks: int = if request.dest == state.name() {
        1
    } else {
        0
    };
    let ack = if acks == 1 {
        seq![state.envelope(0, request.src, request.body.msg_id, PayloadView::BroadcastOk)]
    } else {
        Seq::empty()
    };
    let probes = Seq::new(
        targets.len(),
        |i: int| state.envelope(acks + i, targets[i], None, PayloadView::Read),
    );
    let sent = state.on_broadcast(request).sent->Ok_0;
    assert(sent == ack + probes);
    assert(sent[acks + t] == probes[t]);
}

/// A `read_ok` offers the sender every delivered value that it lacks.
pub proof fn law_read_ok_offers_missing(
    state: NodeView,
    answer: MessageView,
    known: Set<usize>,
    order: Seq<usize>,
    value: usize,
)
    requires
        answer.body.payload == (PayloadView::ReadOk { messages: known }),
        enumerates(order, state.delivered),
        state.on_read_ok(answer, order).sent is Ok,
        state.delivered.contains(value),
        !known.contains(value),
    ensures
        exists|k: int|
            #![trigger state.on_read_ok(answer, order).sent->Ok_0[k]]
            0 <= k < state.on_read_ok(answer, order).sent->Ok_0.len() && {
                let offer = state.on_read_ok(answer, order).sent->Ok_0[k];
                &&& offer.src == state.name()
                &&& offer.dest == answer.src
                &&& offer.body.payload == (PayloadView::Broadcast { message: value })
            },
{
    let pred = |v: usize| !known.contains(v);
    let values = missing(order, known);
    assert(order.to_set().contains(value));
    let at = choose|i: int| 0 <= i < order.len() && order[i] == value;
    order.lemma_filter_contains(pred, at);
    let k = choose|k: int| 0 <= k < values.len() && values[k] == value;
    let sent = state.on_read_ok(answer, order).sent->Ok_0;
    assert(sent[k].body.payload == (PayloadView::Broadcast { message: value }));
}

/// Reconciliation converges. A node `a` handles a `broadcast` of `value` and
/// probes its neighbour `b` with `probe`; `b` answers the probe with
/// `answer`; `a` handles the answer and makes its offers; `b` handles those
/// offers one by one. If none of these steps is refused, `b` has `value`
/// delivered at the end.
pub proof fn law_reconciliation_converges(
    a: NodeView,
    b: NodeView,
    request: MessageView,
    value: usize,
    probe: MessageView,
    answer: MessageView,
    order: Seq<usize>,
    offers: Seq<Arrival>,
)
    requires
        request.body.payload == (PayloadView::Broadcast { message: value }),
        a.on_broadcast(request).sent is Ok,
        a.on_broadcast(request).sent->Ok_0.contains(probe),
        probe.body.payload == PayloadView::Read,
        b.on_read(probe).sent == Ok::<Seq<MessageView>, NodeError>(seq![answer]),
        enumerates(order, a.on_broadcast(request).next.delivered),
        a.on_broadcast(request).next.on_read_ok(answer, order).sent is Ok,
        offers.len() == a.on_broadcast(request).next.on_read_ok(answer, order).sent->Ok_0.len(),
        forall|i: int|
            0 <= i < offers.len() ==> (#[trigger] offers[i]).request == a.on_broadcast(
                request,
            ).next.on_read_ok(answer, order).sent->Ok_0[i],
        forall|i: int|
            0 <= i < offers.len() ==> step(
                state_after(b.on_read(probe).next, offers.take(i)),
                #[trigger] offers[i],
            ).sent is Ok,
    ensures
        state_after(b.on_read(probe).next, offers).delivered.contains(value),
{
    let a1 = a.on_broadcast(request).next;
    let b1 = b.on_read(probe).next;
    assert(a1.delivered.contains(value));
    assert(b1.delivered == b.delivered);
    assert(answer == seq![answer][0]);
    assert(answer.body.payload == (PayloadView::ReadOk { messages: b.delivered }));
    assert(offers.take(0) =~= Seq::<Arrival>::empty());
    assert(offers.take(offers.len() as int) =~= offers);
    if b.delivered.contains(value) {
        law_store_never_shrinks(b1, offers, 0, offers.len() as int);
    } else {
        law_read_ok_offers_missing(a1, answer, b.delivered, order, value);
        let sent = a1.on_read_ok(answer, order).sent->Ok_0;
        let k = choose|k: int|
            0 <= k < sent.len() && (#[trigger] sent[k]).body.payload == (PayloadView::Broadcast {
                message: value,
            });
        let prefix = offers.take(k + 1);
        assert(prefix.drop_last() =~= offers.take(k));
        assert(prefix.last() == offers[k]);
        assert(state_after(b1, prefix).delivered.contains(value));
        law_store_never_shrinks(b1, offers, k + 1, offers.len() as int);
    }
}

} // verus!
