use std::collections::HashSet;

use maelstrom::{
    Broadcast, BroadcastOk, Echo, EchoOk, Generate, GenerateOk, Init, InitOk, Message, Node,
    Payload, Read, ReadOk, Topology, TopologyOk,
};

fn envelope(src: &str, dest: &str, body: Payload) -> Message {
    Message { src: src.to_string(), dest: dest.to_string(), body }
}

fn init(node: &mut Node, id: &str) -> Vec<Message> {
    let request = envelope(
        "c1",
        id,
        Payload::Init(Init {
            msg_id: 1,
            node_id: id.to_string(),
            node_ids: vec!["n1".to_string(), "n2".to_string()],
        }),
    );
    assert!(node.has_ids_for(&request));
    node.process_message(&request)
}

fn send(node: &mut Node, src: &str, dest: &str, body: Payload) -> Vec<Message> {
    let request = envelope(src, dest, body);
    assert!(node.has_ids_for(&request));
    node.process_message(&request)
}

fn tick(node: &mut Node) -> Vec<Message> {
    assert!(node.has_ids_for_retries());
    node.pending_broadcasts()
}

fn set_topology(node: &mut Node, entries: &[(&str, &[&str])]) -> Vec<Message> {
    let topology = entries
        .iter()
        .map(|(id, peers)| (id.to_string(), peers.iter().map(|peer| peer.to_string()).collect()))
        .collect();
    send(node, "c1", "n1", Payload::Topology(Topology { msg_id: 2, topology }))
}

fn broadcast(src: &str, dest: &str, msg_id: usize, message: i64) -> Message {
    envelope(src, dest, Payload::Broadcast(Broadcast { msg_id, message }))
}

fn read_values(node: &mut Node) -> HashSet<i64> {
    let replies = send(node, "c1", "n1", Payload::Read(Read { msg_id: 90 }));
    assert_eq!(replies.len(), 1);
    match &replies[0].body {
        Payload::ReadOk(ok) => ok.messages.iter().copied().collect(),
        other => panic!("expected a read_ok, got {:?}", other),
    }
}

/// A node named `n1` whose peers are `n2` and `n3`; it has issued id 1.
fn node_with_two_peers() -> Node {
    let mut node = Node::new();
    init(&mut node, "n1");
    set_topology(&mut node, &[("n1", &["n2", "n3"]), ("n2", &["n1"]), ("n3", &["n1"])]);
    node
}

#[test]
fn init_is_acknowledged_to_the_sender() {
    let mut node = Node::new();
    let replies = init(&mut node, "n1");
    assert_eq!(
        replies,
        vec![envelope("n1", "c1", Payload::InitOk(InitOk { in_reply_to: 1 }))]
    );
}

#[test]
fn init_then_echo() {
    let mut node = Node::new();
    let replies = init(&mut node, "n1");
    assert_eq!(
        replies,
        vec![envelope("n1", "c1", Payload::InitOk(InitOk { in_reply_to: 1 }))]
    );
    let replies = send(
        &mut node,
        "c1",
        "n1",
        Payload::Echo(Echo { msg_id: 5, echo: "hi".to_string() }),
    );
    assert_eq!(
        replies,
        vec![envelope(
            "n1",
            "c1",
            Payload::EchoOk(EchoOk { msg_id: 1, in_reply_to: 5, echo: "hi".to_string() })
        )]
    );
}

#[test]
fn a_node_without_init_answers_under_its_placeholder_name() {
    let mut node = Node::new();
    let replies = send(
        &mut node,
        "c1",
        "n1",
        Payload::Echo(Echo { msg_id: 1, echo: String::new() }),
    );
    assert_eq!(
        replies,
        vec![envelope(
            "UNKNOWN_NODE",
            "c1",
            Payload::EchoOk(EchoOk { msg_id: 1, in_reply_to: 1, echo: String::new() })
        )]
    );
}

#[test]
fn a_second_init_renames_the_node() {
    let mut node = Node::new();
    init(&mut node, "n1");
    let replies = init(&mut node, "n7");
    assert_eq!(
        replies,
        vec![envelope("n7", "c1", Payload::InitOk(InitOk { in_reply_to: 1 }))]
    );
    let replies = send(&mut node, "c2", "n7", Payload::Generate(Generate { msg_id: 3 }));
    assert_eq!(
        replies,
        vec![envelope(
            "n7",
            "c2",
            Payload::GenerateOk(GenerateOk { msg_id: 1, in_reply_to: 3, id: "n7-1".to_string() })
        )]
    );
}

#[test]
fn generate_joins_node_id_and_sequence_number() {
    let mut node = Node::new();
    init(&mut node, "n1");
    let first = send(&mut node, "c1", "n1", Payload::Generate(Generate { msg_id: 10 }));
    let second = send(&mut node, "c1", "n1", Payload::Generate(Generate { msg_id: 11 }));
    let third = send(&mut node, "c2", "n1", Payload::Generate(Generate { msg_id: 12 }));
    assert_eq!(
        first,
        vec![envelope(
            "n1",
            "c1",
            Payload::GenerateOk(GenerateOk { msg_id: 1, in_reply_to: 10, id: "n1-1".to_string() })
        )]
    );
    assert_eq!(
        second,
        vec![envelope(
            "n1",
            "c1",
            Payload::GenerateOk(GenerateOk { msg_id: 2, in_reply_to: 11, id: "n1-2".to_string() })
        )]
    );
    assert_eq!(
        third,
        vec![envelope(
            "n1",
            "c2",
            Payload::GenerateOk(GenerateOk { msg_id: 3, in_reply_to: 12, id: "n1-3".to_string() })
        )]
    );
}

#[test]
fn generate_on_two_nodes_at_the_same_sequence_number_differs() {
    let mut ids = Vec::new();
    for name in ["n1", "n2"] {
        let mut node = Node::new();
        init(&mut node, name);
        send(&mut node, "c1", name, Payload::Generate(Generate { msg_id: 1 }));
        send(&mut node, "c1", name, Payload::Generate(Generate { msg_id: 2 }));
        let replies = send(&mut node, "c1", name, Payload::Generate(Generate { msg_id: 3 }));
        match &replies[0].body {
            Payload::GenerateOk(ok) => {
                assert_eq!(ok.msg_id, 3);
                ids.push(ok.id.clone());
            }
            other => panic!("expected a generate_ok, got {:?}", other),
        }
    }
    assert_eq!(ids, vec!["n1-3".to_string(), "n2-3".to_string()]);
    assert_ne!(ids[0], ids[1]);
}

#[test]
fn read_of_a_fresh_node_is_empty() {
    let mut node = Node::new();
    init(&mut node, "n1");
    let replies = send(&mut node, "c1", "n1", Payload::Read(Read { msg_id: 4 }));
    assert_eq!(
        replies,
        vec![envelope(
            "n1",
            "c1",
            Payload::ReadOk(ReadOk { msg_id: 1, in_reply_to: 4, messages: HashSet::new() })
        )]
    );
}

#[test]
fn read_returns_every_value_seen() {
    let mut node = Node::new();
    init(&mut node, "n1");
    for (msg_id, value) in [(1, 3), (2, -8), (3, i64::MAX), (4, i64::MIN)] {
        let request = broadcast("c1", "n1", msg_id, value);
        assert!(node.has_ids_for(&request));
        node.process_message(&request);
    }
    let replies = send(&mut node, "c1", "n1", Payload::Read(Read { msg_id: 9 }));
    let expected: HashSet<i64> = [3, -8, i64::MAX, i64::MIN].into_iter().collect();
    assert_eq!(
        replies,
        vec![envelope(
            "n1",
            "c1",
            Payload::ReadOk(ReadOk { msg_id: 5, in_reply_to: 9, messages: expected })
        )]
    );
}

#[test]
fn a_value_broadcast_by_two_sources_is_read_once() {
    let mut node = node_with_two_peers();
    let first = broadcast("c1", "n1", 10, 5);
    let second = broadcast("n2", "n1", 11, 5);
    assert!(node.has_ids_for(&first));
    node.process_message(&first);
    assert!(node.has_ids_for(&second));
    let replies = node.process_message(&second);
    // The second broadcast is acknowledged and passed on to nobody.
    assert_eq!(
        replies,
        vec![envelope(
            "n1",
            "n2",
            Payload::BroadcastOk(BroadcastOk { msg_id: 5, in_reply_to: 11 })
        )]
    );
    let values = read_values(&mut node);
    assert_eq!(values.len(), 1);
    assert!(values.contains(&5));
}

#[test]
fn topology_is_acknowledged() {
    let mut node = Node::new();
    init(&mut node, "n1");
    let replies = set_topology(&mut node, &[("n1", &["n2"])]);
    assert_eq!(
        replies,
        vec![envelope(
            "n1",
            "c1",
            Payload::TopologyOk(TopologyOk { msg_id: 1, in_reply_to: 2 })
        )]
    );
}

#[test]
fn a_new_value_is_acknowledged_and_fanned_out() {
    let mut node = Node::new();
    init(&mut node, "n1");
    set_topology(&mut node, &[("n1", &["n2", "n3"])]);
    let request = broadcast("c", "n1", 30, 7);
    assert!(node.has_ids_for(&request));
    let replies = node.process_message(&request);
    assert_eq!(
        replies,
        vec![
            envelope("n1", "c", Payload::BroadcastOk(BroadcastOk { msg_id: 2, in_reply_to: 30 })),
            broadcast("n1", "n2", 3, 7),
            broadcast("n1", "n3", 4, 7),
        ]
    );
}

#[test]
fn fan_out_leaves_out_the_sender() {
    let mut node = node_with_two_peers();
    let request = broadcast("n2", "n1", 30, 7);
    assert!(node.has_ids_for(&request));
    let replies = node.process_message(&request);
    assert_eq!(
        replies,
        vec![
            envelope("n1", "n2", Payload::BroadcastOk(BroadcastOk { msg_id: 2, in_reply_to: 30 })),
            broadcast("n1", "n3", 3, 7),
        ]
    );
    assert!(replies.iter().skip(1).all(|reply| reply.dest != "n2"));
}

#[test]
fn a_node_without_topology_only_acknowledges() {
    let mut node = Node::new();
    init(&mut node, "n1");
    let request = broadcast("c1", "n1", 30, 7);
    assert!(node.has_ids_for(&request));
    let replies = node.process_message(&request);
    assert_eq!(
        replies,
        vec![envelope(
            "n1",
            "c1",
            Payload::BroadcastOk(BroadcastOk { msg_id: 1, in_reply_to: 30 })
        )]
    );
    assert_eq!(tick(&mut node), vec![]);
}

#[test]
fn a_topology_without_the_node_itself_gives_no_fan_out() {
    let mut node = Node::new();
    init(&mut node, "n1");
    set_topology(&mut node, &[("n2", &["n1", "n3"])]);
    let request = broadcast("c1", "n1", 30, 7);
    assert!(node.has_ids_for(&request));
    let replies = node.process_message(&request);
    assert_eq!(replies.len(), 1);
    assert_eq!(tick(&mut node), vec![]);
}

#[test]
fn a_later_topology_replaces_the_earlier_one() {
    let mut node = Node::new();
    init(&mut node, "n1");
    set_topology(&mut node, &[("n1", &["n2", "n3"])]);
    set_topology(&mut node, &[("n1", &["n4"])]);
    let request = broadcast("c1", "n1", 30, 7);
    assert!(node.has_ids_for(&request));
    let replies = node.process_message(&request);
    assert_eq!(
        replies,
        vec![
            envelope("n1", "c1", Payload::BroadcastOk(BroadcastOk { msg_id: 3, in_reply_to: 30 })),
            broadcast("n1", "n4", 4, 7),
        ]
    );
}

#[test]
fn of_two_topology_entries_for_one_node_the_later_counts() {
    let mut node = Node::new();
    init(&mut node, "n1");
    set_topology(&mut node, &[("n1", &["n2"]), ("n5", &[]), ("n1", &["n3"])]);
    let request = broadcast("c1", "n1", 30, 7);
    assert!(node.has_ids_for(&request));
    let replies = node.process_message(&request);
    assert_eq!(
        replies,
        vec![
            envelope("n1", "c1", Payload::BroadcastOk(BroadcastOk { msg_id: 2, in_reply_to: 30 })),
            broadcast("n1", "n3", 3, 7),
        ]
    );
}

#[test]
fn a_peer_listed_twice_is_sent_to_twice_and_retried_once() {
    let mut node = Node::new();
    init(&mut node, "n1");
    set_topology(&mut node, &[("n1", &["n2", "n2"])]);
    let request = broadcast("c1", "n1", 30, 7);
    assert!(node.has_ids_for(&request));
    let replies = node.process_message(&request);
    assert_eq!(
        replies,
        vec![
            envelope("n1", "c1", Payload::BroadcastOk(BroadcastOk { msg_id: 2, in_reply_to: 30 })),
            broadcast("n1", "n2", 3, 7),
            broadcast("n1", "n2", 4, 7),
        ]
    );
    assert_eq!(tick(&mut node), vec![broadcast("n1", "n2", 5, 7)]);
}

#[test]
fn an_acknowledged_delivery_is_not_resent() {
    let mut node = node_with_two_peers();
    let request = broadcast("c1", "n1", 30, 7);
    assert!(node.has_ids_for(&request));
    let replies = node.process_message(&request);
    assert_eq!(replies[1], broadcast("n1", "n2", 3, 7));
    // n2 acknowledges the message with id 3.
    let replies = send(
        &mut node,
        "n2",
        "n1",
        Payload::BroadcastOk(BroadcastOk { msg_id: 1, in_reply_to: 3 }),
    );
    assert_eq!(replies, vec![]);
    // Only the delivery to n3 is still open.
    assert_eq!(tick(&mut node), vec![broadcast("n1", "n3", 5, 7)]);
    let replies = send(
        &mut node,
        "n3",
        "n1",
        Payload::BroadcastOk(BroadcastOk { msg_id: 1, in_reply_to: 5 }),
    );
    assert_eq!(replies, vec![]);
    assert_eq!(tick(&mut node), vec![]);
}

#[test]
fn every_tick_resends_each_open_delivery_once() {
    let mut node = node_with_two_peers();
    for (msg_id, value) in [(30, 7), (31, 8)] {
        let request = broadcast("c1", "n1", msg_id, value);
        assert!(node.has_ids_for(&request));
        node.process_message(&request);
    }
    // Ids 2 to 4 went to the first broadcast, 5 to 7 to the second.
    assert_eq!(
        tick(&mut node),
        vec![
            broadcast("n1", "n2", 8, 7),
            broadcast("n1", "n3", 9, 7),
            broadcast("n1", "n2", 10, 8),
            broadcast("n1", "n3", 11, 8),
        ]
    );
    assert_eq!(
        tick(&mut node),
        vec![
            broadcast("n1", "n2", 12, 7),
            broadcast("n1", "n3", 13, 7),
            broadcast("n1", "n2", 14, 8),
            broadcast("n1", "n3", 15, 8),
        ]
    );
}

#[test]
fn a_tick_of_a_fresh_node_sends_nothing() {
    let mut node = Node::new();
    assert_eq!(tick(&mut node), vec![]);
    init(&mut node, "n1");
    assert_eq!(tick(&mut node), vec![]);
    // No id was taken.
    let replies = send(&mut node, "c1", "n1", Payload::Generate(Generate { msg_id: 1 }));
    assert_eq!(
        replies,
        vec![envelope(
            "n1",
            "c1",
            Payload::GenerateOk(GenerateOk { msg_id: 1, in_reply_to: 1, id: "n1-1".to_string() })
        )]
    );
}

#[test]
fn an_unknown_acknowledgment_is_ignored() {
    let mut node = node_with_two_peers();
    let request = broadcast("c1", "n1", 30, 7);
    assert!(node.has_ids_for(&request));
    node.process_message(&request);
    let replies = send(
        &mut node,
        "n2",
        "n1",
        Payload::BroadcastOk(BroadcastOk { msg_id: 1, in_reply_to: 999 }),
    );
    assert_eq!(replies, vec![]);
    assert_eq!(
        tick(&mut node),
        vec![broadcast("n1", "n2", 5, 7), broadcast("n1", "n3", 6, 7)]
    );
}

#[test]
fn an_acknowledgment_of_a_superseded_id_is_ignored() {
    let mut node = node_with_two_peers();
    let request = broadcast("c1", "n1", 30, 7);
    assert!(node.has_ids_for(&request));
    node.process_message(&request);
    // The tick replaces the ids 3 and 4 by 5 and 6.
    tick(&mut node);
    send(&mut node, "n2", "n1", Payload::BroadcastOk(BroadcastOk { msg_id: 1, in_reply_to: 3 }));
    assert_eq!(
        tick(&mut node),
        vec![broadcast("n1", "n2", 7, 7), broadcast("n1", "n3", 8, 7)]
    );
    // The id of the latest retry settles the delivery.
    send(&mut node, "n2", "n1", Payload::BroadcastOk(BroadcastOk { msg_id: 1, in_reply_to: 7 }));
    assert_eq!(tick(&mut node), vec![broadcast("n1", "n3", 9, 7)]);
}

#[test]
fn an_acknowledgment_counts_whoever_sends_it() {
    let mut node = node_with_two_peers();
    let request = broadcast("c1", "n1", 30, 7);
    assert!(node.has_ids_for(&request));
    node.process_message(&request);
    // Id 3 was sent to n2; the acknowledgment is matched by id alone.
    send(&mut node, "n3", "n1", Payload::BroadcastOk(BroadcastOk { msg_id: 1, in_reply_to: 3 }));
    assert_eq!(tick(&mut node), vec![broadcast("n1", "n3", 5, 7)]);
}

#[test]
fn answers_that_the_node_never_asked_for_do_nothing() {
    let mut node = node_with_two_peers();
    let answers = [
        Payload::EchoOk(EchoOk { msg_id: 1, in_reply_to: 1, echo: "x".to_string() }),
        Payload::GenerateOk(GenerateOk { msg_id: 1, in_reply_to: 1, id: "n2-1".to_string() }),
        Payload::ReadOk(ReadOk { msg_id: 1, in_reply_to: 1, messages: [4].into_iter().collect() }),
        Payload::TopologyOk(TopologyOk { msg_id: 1, in_reply_to: 1 }),
    ];
    for answer in answers {
        assert_eq!(send(&mut node, "n2", "n1", answer), vec![]);
    }
    assert!(read_values(&mut node).is_empty());
    // Only the read took an id: the next one is 3.
    let replies = send(&mut node, "c1", "n1", Payload::Generate(Generate { msg_id: 1 }));
    match &replies[0].body {
        Payload::GenerateOk(ok) => assert_eq!(ok.id, "n1-3"),
        other => panic!("expected a generate_ok, got {:?}", other),
    }
}

#[test]
fn ids_ascend_over_a_mixed_run() {
    let mut node = node_with_two_peers();
    let mut issued = Vec::new();
    let mut collect = |replies: Vec<Message>| {
        for reply in replies {
            let id = match reply.body {
                Payload::EchoOk(ok) => ok.msg_id,
                Payload::GenerateOk(ok) => ok.msg_id,
                Payload::Broadcast(b) => b.msg_id,
                Payload::BroadcastOk(ok) => ok.msg_id,
                Payload::ReadOk(ok) => ok.msg_id,
                Payload::TopologyOk(ok) => ok.msg_id,
                other => panic!("unexpected reply {:?}", other),
            };
            issued.push(id);
        }
    };
    collect(send(&mut node, "c1", "n1", Payload::Echo(Echo { msg_id: 1, echo: "a".to_string() })));
    collect(send(&mut node, "c1", "n1", Payload::Broadcast(Broadcast { msg_id: 2, message: 1 })));
    collect(tick(&mut node));
    collect(send(&mut node, "c1", "n1", Payload::Generate(Generate { msg_id: 3 })));
    collect(send(&mut node, "n3", "n1", Payload::Broadcast(Broadcast { msg_id: 4, message: 2 })));
    collect(send(&mut node, "c1", "n1", Payload::Read(Read { msg_id: 5 })));
    collect(tick(&mut node));
    assert_eq!(issued, (2..=14).collect::<Vec<usize>>());
    assert!(issued.windows(2).all(|pair| pair[0] < pair[1]));
}

#[test]
fn every_reply_names_the_node_as_source() {
    let mut node = node_with_two_peers();
    let mut replies = Vec::new();
    replies.extend(send(&mut node, "c1", "n1", Payload::Read(Read { msg_id: 1 })));
    replies.extend(send(&mut node, "c1", "n1", Payload::Broadcast(Broadcast { msg_id: 2, message: 1 })));
    replies.extend(tick(&mut node));
    assert_eq!(replies.len(), 6);
    assert!(replies.iter().all(|reply| reply.src == "n1"));
}

#[test]
fn has_ids_for_holds_for_an_unexpected_init_ok() {
    // The check speaks of ids alone; an init_ok takes none.
    let node = Node::new();
    let request = envelope("c1", "n1", Payload::InitOk(InitOk { in_reply_to: 1 }));
    assert!(node.has_ids_for(&request));
}

#[test]
fn awaits_tells_which_acknowledgments_are_expected() {
    let mut node = node_with_two_peers();
    assert!(!node.awaits(0));
    assert!(!node.awaits(1));
    let request = broadcast("c1", "n1", 30, 7);
    assert!(node.has_ids_for(&request));
    node.process_message(&request);
    // Id 2 went to the client as an acknowledgment, 3 and 4 to the peers.
    assert!(!node.awaits(2));
    assert!(node.awaits(3));
    assert!(node.awaits(4));
    assert!(!node.awaits(5));
    send(&mut node, "n2", "n1", Payload::BroadcastOk(BroadcastOk { msg_id: 1, in_reply_to: 3 }));
    assert!(!node.awaits(3));
    assert!(node.awaits(4));
    tick(&mut node);
    assert!(!node.awaits(4));
    assert!(node.awaits(5));
}

#[test]
fn has_ids_for_retries_holds_while_ids_are_left() {
    let mut node = node_with_two_peers();
    assert!(node.has_ids_for_retries());
    let request = broadcast("c1", "n1", 30, 7);
    assert!(node.has_ids_for(&request));
    node.process_message(&request);
    assert!(node.has_ids_for_retries());
}
