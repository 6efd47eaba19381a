use flydis::{Body, Message, Node, NodeError, Payload, Topology, Type};

fn envelope(src: &str, dest: &str, msg_id: Option<usize>, payload: Payload) -> Message {
    Message {
        src: src.to_string(),
        dest: dest.to_string(),
        body: Body { msg_id, in_reply_to: None, payload },
    }
}

fn init(node_id: &str, msg_id: usize) -> Message {
    envelope(
        "c1",
        node_id,
        Some(msg_id),
        Payload::Init { node_id: node_id.to_string(), node_ids: vec![node_id.to_string()] },
    )
}

fn ready(node_id: &str) -> Node {
    let mut node = Node::new();
    node.handle_message(init(node_id, 1)).unwrap();
    node
}

fn line(neighbors: &[(&str, &[&str])]) -> Topology {
    let mut topology = Topology::new();
    for (node, list) in neighbors {
        topology.insert(node.to_string(), list.iter().map(|n| n.to_string()).collect());
    }
    topology
}

fn sorted(mut values: Vec<usize>) -> Vec<usize> {
    values.sort();
    values
}

#[test]
fn init_is_confirmed_with_the_first_sequence_number() {
    let mut node = Node::new();
    assert!(!node.is_initialized());
    assert_eq!(node.id(), "NO_ID_YET");
    let sent = node.handle_message(init("n1", 1)).unwrap();
    assert_eq!(
        sent,
        vec![Message {
            src: "n1".to_string(),
            dest: "c1".to_string(),
            body: Body { msg_id: Some(0), in_reply_to: Some(1), payload: Payload::InitOk },
        }]
    );
    assert!(node.is_initialized());
    assert_eq!(node.id(), "n1");
    assert_eq!(node.next_msg_id(), 1);
}

#[test]
fn echo_after_init_returns_the_text() {
    let mut node = ready("n1");
    let sent = node
        .handle_message(envelope("c1", "n1", Some(2), Payload::Echo { echo: "hello".to_string() }))
        .unwrap();
    assert_eq!(sent.len(), 1);
    assert_eq!(sent[0].src, "n1");
    assert_eq!(sent[0].dest, "c1");
    assert_eq!(sent[0].body.payload, Payload::EchoOk { echo: "hello".to_string() });
    assert_eq!(sent[0].body.in_reply_to, Some(2));
    assert_eq!(sent[0].body.msg_id, Some(1));
}

#[test]
fn broadcast_is_stored_and_the_neighbour_is_probed() {
    let mut node = ready("n1");
    let topology = line(&[("n1", &["n2"])]);
    let confirmed = node
        .handle_message(envelope("c1", "n1", Some(2), Payload::Topology { topology }))
        .unwrap();
    assert_eq!(confirmed.len(), 1);
    assert_eq!(confirmed[0].body.payload, Payload::TopologyOk);
    assert_eq!(confirmed[0].body.in_reply_to, Some(2));
    assert_eq!(confirmed[0].body.msg_id, Some(1));

    let sent = node
        .handle_message(envelope("c1", "n1", Some(3), Payload::Broadcast { message: 5 }))
        .unwrap();
    assert_eq!(sorted(node.delivered().snapshot()), vec![5]);
    assert_eq!(
        sent,
        vec![
            Message {
                src: "n1".to_string(),
                dest: "c1".to_string(),
                body: Body { msg_id: Some(2), in_reply_to: Some(3), payload: Payload::BroadcastOk },
            },
            Message {
                src: "n1".to_string(),
                dest: "n2".to_string(),
                body: Body { msg_id: Some(3), in_reply_to: None, payload: Payload::Read },
            },
        ]
    );
    assert_eq!(node.outstanding().len(), 1);
    assert_eq!(node.outstanding().get(3), Some(5));
    assert_eq!(node.outstanding().get(2), None);
    assert_eq!(node.next_msg_id(), 4);
}

#[test]
fn broadcast_does_not_probe_the_sender() {
    let mut node = ready("n1");
    node.create_topo(line(&[("n1", &["n2", "n3", "n4"])]));
    let sent = node
        .handle_message(envelope("n3", "n1", Some(9), Payload::Broadcast { message: 8 }))
        .unwrap();
    let dests: Vec<&str> = sent.iter().map(|m| m.dest.as_str()).collect();
    assert_eq!(dests, vec!["n3", "n2", "n4"]);
    assert_eq!(sent[0].body.payload, Payload::BroadcastOk);
    assert_eq!(sent[1].body.payload, Payload::Read);
    assert_eq!(sent[2].body.payload, Payload::Read);
    assert_eq!(sent[1].body.msg_id, Some(2));
    assert_eq!(sent[2].body.msg_id, Some(3));
    assert_eq!(node.outstanding().get(2), Some(8));
    assert_eq!(node.outstanding().get(3), Some(8));
    assert_eq!(node.outstanding().len(), 2);
}

#[test]
fn broadcast_for_another_node_is_stored_but_not_acknowledged() {
    let mut node = ready("n1");
    node.create_topo(line(&[("n1", &["n2"])]));
    let sent = node
        .handle_message(envelope("c1", "n7", Some(4), Payload::Broadcast { message: 11 }))
        .unwrap();
    assert!(node.delivered().contains(11));
    assert_eq!(sent.len(), 1);
    assert_eq!(sent[0].dest, "n2");
    assert_eq!(sent[0].body.payload, Payload::Read);
    assert_eq!(sent[0].body.msg_id, Some(1));
    assert_eq!(node.outstanding().get(1), Some(11));
}

#[test]
fn broadcast_without_a_topology_entry_only_acknowledges() {
    let mut node = ready("n1");
    let sent = node
        .handle_message(envelope("c1", "n1", Some(4), Payload::Broadcast { message: 3 }))
        .unwrap();
    assert_eq!(sent.len(), 1);
    assert_eq!(sent[0].body.payload, Payload::BroadcastOk);
    assert!(node.delivered().contains(3));
    assert_eq!(node.outstanding().len(), 0);

    node.create_topo(line(&[("n1", &[]), ("n2", &["n1"])]));
    let sent = node
        .handle_message(envelope("c1", "n1", Some(5), Payload::Broadcast { message: 4 }))
        .unwrap();
    assert_eq!(sent.len(), 1);
    assert_eq!(sent[0].body.payload, Payload::BroadcastOk);
}

#[test]
fn second_init_is_a_protocol_violation_and_keeps_the_id() {
    let mut node = ready("n1");
    let refused = node.handle_message(init("n2", 7));
    assert_eq!(refused, Err(NodeError::ProtocolViolation { received: Type::Init }));
    assert_eq!(node.id(), "n1");
    assert_eq!(node.next_msg_id(), 1);
    let refused = node.handle_init(init("n3", 8));
    assert_eq!(refused, Err(NodeError::ProtocolViolation { received: Type::Init }));
    assert_eq!(node.id(), "n1");
}

#[test]
fn unrequested_replies_are_protocol_violations() {
    let mut node = ready("n1");
    node.push_message(1);
    let replies = vec![
        (Payload::InitOk, Type::InitOk),
        (Payload::EchoOk { echo: "x".to_string() }, Type::EchoOk),
        (Payload::GenerateOk { id: "x".to_string() }, Type::GenerateOk),
        (Payload::TopologyOk, Type::TopologyOk),
    ];
    for (payload, kind) in replies {
        let refused = node.handle_message(envelope("n2", "n1", Some(1), payload));
        assert_eq!(refused, Err(NodeError::ProtocolViolation { received: kind }));
        assert_eq!(node.next_msg_id(), 1);
        assert_eq!(node.delivered().len(), 1);
        assert_eq!(node.outstanding().len(), 0);
    }
}

#[test]
fn a_handler_refuses_an_envelope_of_another_kind() {
    let mut node = ready("n1");
    let refused = node.handle_echo(envelope("c1", "n1", Some(1), Payload::Read));
    assert_eq!(refused, Err(NodeError::ProtocolViolation { received: Type::Read }));
    let refused = node.handle_broadcast(envelope("c1", "n1", Some(1), Payload::Generate));
    assert_eq!(refused, Err(NodeError::ProtocolViolation { received: Type::Generate }));
    let refused = node.handle_read(envelope("c1", "n1", Some(1), Payload::BroadcastOk));
    assert_eq!(refused, Err(NodeError::ProtocolViolation { received: Type::BroadcastOk }));
    let refused =
        node.handle_topology(envelope("c1", "n1", Some(1), Payload::Broadcast { message: 1 }));
    assert_eq!(refused, Err(NodeError::ProtocolViolation { received: Type::Broadcast }));
    let refused = node.handle_generate(envelope("c1", "n1", Some(1), Payload::TopologyOk));
    assert_eq!(refused, Err(NodeError::ProtocolViolation { received: Type::TopologyOk }));
    let refused = node.handle_broadcast_ok(envelope("c1", "n1", Some(1), Payload::Read));
    assert_eq!(refused, Err(NodeError::ProtocolViolation { received: Type::Read }));
    let refused = node.handle_read_ok(envelope("c1", "n1", Some(1), Payload::InitOk));
    assert_eq!(refused, Err(NodeError::ProtocolViolation { received: Type::InitOk }));
    assert_eq!(node.next_msg_id(), 1);
}

#[test]
fn sequence_numbers_increase_without_repeats() {
    let mut node = ready("n1");
    node.create_topo(line(&[("n1", &["n2", "n3"])]));
    let mut all: Vec<Message> = Vec::new();
    all.extend(
        node.handle_message(envelope("c1", "n1", Some(2), Payload::Echo { echo: "a".to_string() }))
            .unwrap(),
    );
    all.extend(
        node.handle_message(envelope("c1", "n1", Some(3), Payload::Broadcast { message: 1 }))
            .unwrap(),
    );
    assert!(node.handle_message(envelope("c1", "n1", Some(4), Payload::InitOk)).is_err());
    all.extend(
        node.handle_message(envelope("c1", "n1", Some(5), Payload::Broadcast { message: 2 }))
            .unwrap(),
    );
    all.extend(
        node.handle_message(envelope("n2", "n1", Some(6), Payload::ReadOk { messages: vec![] }))
            .unwrap(),
    );
    all.extend(node.handle_message(envelope("c1", "n1", Some(7), Payload::Read)).unwrap());
    all.extend(node.handle_message(envelope("c1", "n1", Some(8), Payload::Generate)).unwrap());
    let ids: Vec<usize> = all.iter().map(|m| m.body.msg_id.unwrap()).collect();
    assert_eq!(ids, (1..=11).collect::<Vec<usize>>());
    assert_eq!(node.next_msg_id(), 12);
}

#[test]
fn read_reports_the_delivered_values() {
    let mut node = ready("n1");
    node.push_message(4);
    node.push_message(9);
    node.push_message(4);
    let sent = node.handle_message(envelope("n2", "n1", Some(3), Payload::Read)).unwrap();
    assert_eq!(sent.len(), 1);
    assert_eq!(sent[0].dest, "n2");
    assert_eq!(sent[0].body.in_reply_to, Some(3));
    assert_eq!(sent[0].body.msg_id, Some(1));
    match &sent[0].body.payload {
        Payload::ReadOk { messages } => assert_eq!(sorted(messages.clone()), vec![4, 9]),
        other => panic!("unexpected payload {:?}", other),
    }
    assert_eq!(node.delivered().len(), 2);
}

#[test]
fn read_ok_offers_what_the_sender_lacks() {
    let mut node = ready("n1");
    for value in [1, 2, 3, 4] {
        node.push_message(value);
    }
    let sent = node
        .handle_message(envelope("n2", "n1", Some(6), Payload::ReadOk { messages: vec![2, 4, 4, 7] }))
        .unwrap();
    assert_eq!(sent.len(), 2);
    let mut offered = Vec::new();
    for (k, message) in sent.iter().enumerate() {
        assert_eq!(message.src, "n1");
        assert_eq!(message.dest, "n2");
        assert_eq!(message.body.in_reply_to, Some(6));
        assert_eq!(message.body.msg_id, Some(1 + k));
        match message.body.payload {
            Payload::Broadcast { message: value } => {
                assert_eq!(node.outstanding().get(1 + k), Some(value));
                offered.push(value);
            }
            _ => panic!("unexpected payload"),
        }
    }
    assert_eq!(sorted(offered), vec![1, 3]);
    assert_eq!(node.outstanding().len(), 2);
    assert_eq!(node.next_msg_id(), 3);
    assert_eq!(node.delivered().len(), 4);
}

#[test]
fn reconcile_walks_the_given_order() {
    let mut node = ready("n1");
    for value in [10, 20, 30] {
        node.push_message(value);
    }
    let sent = node
        .reconcile(
            envelope("n2", "n1", None, Payload::ReadOk { messages: vec![20] }),
            &vec![30, 20, 10],
        )
        .unwrap();
    assert_eq!(
        sent,
        vec![
            Message {
                src: "n1".to_string(),
                dest: "n2".to_string(),
                body: Body {
                    msg_id: Some(1),
                    in_reply_to: None,
                    payload: Payload::Broadcast { message: 30 },
                },
            },
            Message {
                src: "n1".to_string(),
                dest: "n2".to_string(),
                body: Body {
                    msg_id: Some(2),
                    in_reply_to: None,
                    payload: Payload::Broadcast { message: 10 },
                },
            },
        ]
    );
    assert_eq!(node.outstanding().get(1), Some(30));
    assert_eq!(node.outstanding().get(2), Some(10));
}

#[test]
fn offer_notes_one_entry_and_its_acknowledgement_removes_it() {
    let mut node = ready("n1");
    let sent = node.offer(&"n2".to_string(), Some(4), &vec![7]).unwrap();
    assert_eq!(sent.len(), 1);
    assert_eq!(sent[0].body.payload, Payload::Broadcast { message: 7 });
    assert_eq!(sent[0].body.msg_id, Some(1));
    assert_eq!(sent[0].body.in_reply_to, Some(4));
    assert_eq!(node.outstanding().len(), 1);
    assert_eq!(node.outstanding().get(1), Some(7));

    let more = node.offer(&"n3".to_string(), None, &vec![8]).unwrap();
    assert_eq!(more[0].body.msg_id, Some(2));
    assert_eq!(node.outstanding().len(), 2);

    let mut ack = envelope("n2", "n1", Some(1), Payload::BroadcastOk);
    ack.body.in_reply_to = Some(1);
    assert_eq!(node.handle_message(ack.clone()), Ok(vec![]));
    assert_eq!(node.outstanding().len(), 1);
    assert_eq!(node.outstanding().get(1), None);
    assert_eq!(node.outstanding().get(2), Some(8));

    assert_eq!(node.handle_message(ack), Ok(vec![]));
    assert_eq!(node.outstanding().len(), 1);
    assert_eq!(node.outstanding().get(2), Some(8));
    assert_eq!(node.next_msg_id(), 3);
}

#[test]
fn acknowledgement_without_a_request_number_changes_nothing() {
    let mut node = ready("n1");
    node.offer(&"n2".to_string(), None, &vec![7]).unwrap();
    let sent = node.handle_message(envelope("n2", "n1", Some(1), Payload::BroadcastOk));
    assert_eq!(sent, Ok(vec![]));
    assert_eq!(node.outstanding().len(), 1);
}

#[test]
fn reconciliation_brings_the_value_to_the_neighbour() {
    let mut a = ready("A");
    let mut b = ready("B");
    a.create_topo(line(&[("A", &["B"]), ("B", &["A"])]));
    b.create_topo(line(&[("A", &["B"]), ("B", &["A"])]));

    let first = a
        .handle_message(envelope("c1", "A", Some(1), Payload::Broadcast { message: 7 }))
        .unwrap();
    assert_eq!(first.len(), 2);
    let probe = first[1].clone();
    assert_eq!(probe.dest, "B");
    assert_eq!(probe.body.payload, Payload::Read);
    assert!(!b.delivered().contains(7));

    let answer = b.handle_message(probe).unwrap();
    assert_eq!(answer.len(), 1);
    assert_eq!(answer[0].dest, "A");
    assert_eq!(answer[0].body.payload, Payload::ReadOk { messages: vec![] });

    let offers = a.handle_message(answer[0].clone()).unwrap();
    assert_eq!(offers.len(), 1);
    assert_eq!(offers[0].dest, "B");
    assert_eq!(offers[0].body.payload, Payload::Broadcast { message: 7 });
    let offered_as = offers[0].body.msg_id.unwrap();
    assert_eq!(a.outstanding().get(offered_as), Some(7));

    let mut acks = Vec::new();
    for offer in offers {
        acks.extend(b.handle_message(offer).unwrap());
    }
    assert!(b.delivered().contains(7));
    assert_eq!(acks.len(), 1);
    assert_eq!(acks[0].dest, "A");
    assert_eq!(acks[0].body.payload, Payload::BroadcastOk);
    assert_eq!(acks[0].body.in_reply_to, Some(offered_as));

    a.handle_message(acks[0].clone()).unwrap();
    assert_eq!(a.outstanding().get(offered_as), None);
}

#[test]
fn generate_at_mints_name_hyphen_stamp() {
    let mut node = ready("n1");
    let sent = node
        .handle_generate_at(envelope("c1", "n1", Some(5), Payload::Generate), 1_700_000_000_123_456)
        .unwrap();
    assert_eq!(
        sent,
        vec![Message {
            src: "n1".to_string(),
            dest: "c1".to_string(),
            body: Body {
                msg_id: Some(1),
                in_reply_to: Some(5),
                payload: Payload::GenerateOk { id: "n1-1700000000123456".to_string() },
            },
        }]
    );
    let sent = node.handle_generate_at(envelope("c1", "n1", None, Payload::Generate), 0).unwrap();
    assert_eq!(sent[0].body.payload, Payload::GenerateOk { id: "n1-0".to_string() });
    assert_eq!(sent[0].body.in_reply_to, None);
}

#[test]
fn generate_by_the_clock_mints_name_hyphen_digits() {
    let mut node = ready("n1");
    let sent = node.handle_message(envelope("c1", "n1", Some(5), Payload::Generate)).unwrap();
    assert_eq!(sent.len(), 1);
    assert_eq!(sent[0].body.in_reply_to, Some(5));
    match &sent[0].body.payload {
        Payload::GenerateOk { id } => {
            let digits = id.strip_prefix("n1-").unwrap();
            assert!(!digits.is_empty());
            assert!(digits.chars().all(|c| c.is_ascii_digit()));
            assert!(digits.parse::<u128>().unwrap() > 1_000_000_000_000_000);
        }
        other => panic!("unexpected payload {:?}", other),
    }
}

#[test]
fn requests_before_init_are_answered_under_the_placeholder() {
    let mut node = Node::default();
    let sent = node
        .handle_message(envelope("c1", "n1", Some(1), Payload::Echo { echo: "x".to_string() }))
        .unwrap();
    assert_eq!(sent[0].src, "NO_ID_YET");
    assert_eq!(sent[0].body.msg_id, Some(0));
    let sent = node.handle_message(init("n1", 2)).unwrap();
    assert_eq!(sent[0].src, "n1");
    assert_eq!(sent[0].body.msg_id, Some(1));
}

#[test]
fn topology_is_replaced_by_the_last_one() {
    let mut node = ready("n1");
    node.handle_message(envelope(
        "c1",
        "n1",
        Some(2),
        Payload::Topology { topology: line(&[("n1", &["n2", "n3"])]) },
    ))
    .unwrap();
    node.handle_message(envelope(
        "c1",
        "n1",
        Some(3),
        Payload::Topology { topology: line(&[("n1", &["n4"])]) },
    ))
    .unwrap();
    assert_eq!(node.topology().neighbors_of(&"n1".to_string()), Ok(&vec!["n4".to_string()]));
    let sent = node
        .handle_message(envelope("c1", "n1", Some(4), Payload::Broadcast { message: 1 }))
        .unwrap();
    let dests: Vec<&str> = sent.iter().map(|m| m.dest.as_str()).collect();
    assert_eq!(dests, vec!["c1", "n4"]);
}

#[test]
fn exhausted_counter_is_reported_and_changes_nothing() {
    let mut node = Node::starting_at(usize::MAX);
    assert_eq!(node.handle_message(init("n1", 1)), Err(NodeError::CounterExhausted));
    assert!(!node.is_initialized());
    assert_eq!(
        node.handle_message(envelope("c1", "n1", Some(1), Payload::Echo { echo: "x".to_string() })),
        Err(NodeError::CounterExhausted)
    );
    assert_eq!(
        node.handle_message(envelope("c1", "n1", Some(1), Payload::Generate)),
        Err(NodeError::CounterExhausted)
    );
    assert_eq!(
        node.handle_message(envelope("c1", "n1", Some(1), Payload::Read)),
        Err(NodeError::CounterExhausted)
    );
    assert_eq!(
        node.handle_message(envelope(
            "c1",
            "n1",
            Some(1),
            Payload::Topology { topology: line(&[("NO_ID_YET", &["n2"])]) },
        )),
        Err(NodeError::CounterExhausted)
    );
    assert_eq!(node.topology().neighbors_of(&"NO_ID_YET".to_string()), Err(NodeError::TopologyLookupMiss));
    assert_eq!(
        node.handle_message(envelope("c1", "NO_ID_YET", Some(1), Payload::Broadcast { message: 1 })),
        Err(NodeError::CounterExhausted)
    );
    assert!(!node.delivered().contains(1));
    assert_eq!(node.next_msg_id(), usize::MAX);
}

#[test]
fn counter_with_too_little_room_refuses_the_whole_answer() {
    let mut node = Node::starting_at(usize::MAX - 2);
    node.handle_message(init("n1", 1)).unwrap();
    node.create_topo(line(&[("n1", &["n2", "n3"])]));
    assert_eq!(
        node.handle_message(envelope("c1", "n1", Some(2), Payload::Broadcast { message: 1 })),
        Err(NodeError::CounterExhausted)
    );
    assert!(!node.delivered().contains(1));
    assert_eq!(node.outstanding().len(), 0);
    assert_eq!(node.next_msg_id(), usize::MAX - 1);

    node.push_message(1);
    node.push_message(2);
    assert_eq!(
        node.handle_message(envelope("n2", "n1", Some(3), Payload::ReadOk { messages: vec![] })),
        Err(NodeError::CounterExhausted)
    );
    assert_eq!(node.outstanding().len(), 0);
    let sent = node
        .handle_message(envelope("n2", "n1", Some(3), Payload::ReadOk { messages: vec![2] }))
        .unwrap();
    assert_eq!(sent.len(), 1);
    assert_eq!(sent[0].body.msg_id, Some(usize::MAX - 1));
    assert_eq!(node.next_msg_id(), usize::MAX);

    assert_eq!(
        node.handle_message(envelope("n2", "n9", Some(3), Payload::Broadcast { message: 5 })),
        Err(NodeError::CounterExhausted)
    );
    assert!(!node.delivered().contains(5));
    node.create_topo(line(&[("n1", &["n2"])]));
    let sent = node
        .handle_message(envelope("n2", "n9", Some(3), Payload::Broadcast { message: 5 }))
        .unwrap();
    assert_eq!(sent.len(), 0);
    assert!(node.delivered().contains(5));
}

#[test]
fn minted_ids_differ_by_name_and_by_stamp() {
    let mut ids = Vec::new();
    for name in ["n1", "n2", "n1-1", "n"] {
        let mut node = ready(name);
        for stamp in [0u128, 1, 10, 11, 101] {
            let sent = node
                .handle_generate_at(envelope("c1", name, Some(1), Payload::Generate), stamp)
                .unwrap();
            match &sent[0].body.payload {
                Payload::GenerateOk { id } => {
                    assert_eq!(id, &format!("{}-{}", name, stamp));
                    ids.push((name, stamp, id.clone()));
                }
                other => panic!("unexpected payload {:?}", other),
            }
        }
    }
    for (name, stamp, id) in &ids {
        for (other_name, other_stamp, other_id) in &ids {
            assert_eq!(id == other_id, name == other_name && stamp == other_stamp);
        }
    }
}

#[test]
fn delivered_values_stay_whatever_arrives() {
    let mut node = ready("n1");
    node.create_topo(line(&[("n1", &["n2"])]));
    node.handle_message(envelope("c1", "n1", Some(2), Payload::Broadcast { message: 1 })).unwrap();
    node.handle_message(envelope("c1", "n1", Some(3), Payload::Broadcast { message: 2 })).unwrap();
    assert!(node.handle_message(init("n9", 4)).is_err());
    assert!(node.handle_message(envelope("c1", "n1", Some(5), Payload::TopologyOk)).is_err());
    node.handle_message(envelope("n2", "n1", Some(6), Payload::ReadOk { messages: vec![1, 2] }))
        .unwrap();
    node.handle_message(envelope("n2", "n1", Some(7), Payload::Read)).unwrap();
    node.handle_message(envelope("c1", "n1", Some(8), Payload::Broadcast { message: 1 })).unwrap();
    node.handle_message(envelope(
        "c1",
        "n1",
        Some(9),
        Payload::Topology { topology: line(&[]) },
    ))
    .unwrap();
    assert_eq!(sorted(node.delivered().snapshot()), vec![1, 2]);
    assert_eq!(node.delivered().len(), 2);
}
