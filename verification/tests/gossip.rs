use fly_dist_rs::broadcast::{
    handle_broadcast, handle_propagate, handle_propagate_ok, handle_read, handle_topology, Body,
    State,
};
use fly_dist_rs::messages::broadcast::{BroadcastBody, BroadcastOkBody};
use fly_dist_rs::messages::init::{InitBody, InitOkBody};
use fly_dist_rs::messages::read::{ReadBody, ReadOkBody};
use fly_dist_rs::messages::topology::{TopologyBody, TopologyOkBody};
use fly_dist_rs::messages::{Message, Payload};
use fly_dist_rs::node::Node;

type TestNode = Node<State, Body, u8>;

fn s(text: &str) -> String {
    text.to_string()
}

fn started(id: &str, all: &[&str]) -> TestNode {
    let mut node: TestNode = Node::new().with_state(State::new());
    let reply = node.try_init(Message {
        src: s("c0"),
        dest: s(id),
        body: InitBody::Init {
            msg_id: 1,
            node_id: s(id),
            node_ids: all.iter().map(|n| s(n)).collect(),
        },
    });
    assert_eq!(reply.body, InitOkBody::InitOk { msg_id: 1, in_reply_to: 1 });
    node
}

fn line_topology() -> Vec<(String, Vec<String>)> {
    vec![
        (s("n1"), vec![s("n2")]),
        (s("n2"), vec![s("n1"), s("n3")]),
        (s("n3"), vec![s("n2")]),
    ]
}

fn tell_topology(node: &mut TestNode, id: &str, topology: Vec<(String, Vec<String>)>) {
    let body = Body::Topology(TopologyBody::Topology { msg_id: 7, topology });
    handle_topology(node, Message { src: s("c1"), dest: s(id), body });
}

fn broadcast(node: &mut TestNode, id: &str, msg_id: u32, value: i32) {
    let body = Body::Broadcast(BroadcastBody::Broadcast { msg_id, message: value });
    handle_broadcast(node, Message { src: s("c1"), dest: s(id), body });
}

fn sorted(mut values: Vec<i32>) -> Vec<i32> {
    values.sort();
    values
}

fn sorted_names(mut names: Vec<String>) -> Vec<String> {
    names.sort();
    names
}

fn read(node: &mut TestNode, id: &str) -> Vec<i32> {
    node.take_outbox();
    let body = Body::Read(ReadBody::Read { msg_id: 77 });
    handle_read(node, Message { src: s("c9"), dest: s(id), body });
    let mut out = node.take_outbox();
    assert_eq!(out.len(), 1);
    let reply = out.remove(0);
    assert_eq!(reply.src, id);
    assert_eq!(reply.dest, "c9");
    match reply.body {
        Body::ReadOk(ReadOkBody::ReadOk { in_reply_to, messages, .. }) => {
            assert_eq!(in_reply_to, 77);
            messages
        }
        other => panic!("expected read_ok, got {:?}", other),
    }
}

fn state(node: &TestNode) -> &State {
    node.state_ref().unwrap()
}

/// A node on the line n1 - n2 - n3 that has been told the topology and has
/// an empty outbox.
fn on_the_line(id: &str) -> TestNode {
    let mut node = started(id, &["n1", "n2", "n3"]);
    tell_topology(&mut node, id, line_topology());
    node.take_outbox();
    node
}

#[test]
fn flush_sends_one_batch_per_neighbour() {
    let mut node = started("n1", &["n1", "n2"]);
    tell_topology(&mut node, "n1", vec![(s("n1"), vec![s("n2")])]);
    broadcast(&mut node, "n1", 10, 1);
    broadcast(&mut node, "n1", 11, 2);
    broadcast(&mut node, "n1", 12, 3);
    node.take_outbox();
    assert_eq!(sorted(state(&node).queued_for(&s("n2"))), vec![1, 2, 3]);
    assert_eq!(state(&node).queued_neighbours(), 1);

    node.propagate_to_friends();
    let sent = node.take_outbox();
    assert_eq!(sent.len(), 1);
    assert_eq!(sent[0].src, "n1");
    assert_eq!(sent[0].dest, "n2");
    match &sent[0].body {
        Body::Propagate { msg_id, values, known_nodes } => {
            assert_eq!(*msg_id, 3);
            assert_eq!(sorted(values.clone()), vec![1, 2, 3]);
            assert_eq!(sorted_names(known_nodes.clone()), vec![s("n1"), s("n2")]);
        }
        other => panic!("expected a propagate message, got {:?}", other),
    }
    assert!(state(&node).is_outstanding(3));
    assert_eq!(state(&node).outstanding(), 1);
    assert_eq!(state(&node).queued_neighbours(), 0);
    assert!(state(&node).queued_for(&s("n2")).is_empty());

    node.propagate_to_friends();
    assert!(node.take_outbox().is_empty());
}

#[test]
fn flush_numbers_batches_consecutively_and_skips_nobody() {
    let mut node = on_the_line("n2");
    broadcast(&mut node, "n2", 1, 40);
    broadcast(&mut node, "n2", 2, 41);
    node.take_outbox();
    let before = u32::MAX - node.msg_ids_left();
    assert_eq!(before, 2);

    node.propagate_to_friends();
    let sent = node.take_outbox();
    assert_eq!(sent.len(), 2);
    let mut dests: Vec<String> = sent.iter().map(|m| m.dest.clone()).collect();
    dests.sort();
    assert_eq!(dests, vec![s("n1"), s("n3")]);
    for (i, msg) in sent.iter().enumerate() {
        assert_eq!(msg.src, "n2");
        match &msg.body {
            Body::Propagate { msg_id, values, known_nodes } => {
                assert_eq!(*msg_id, before + 1 + i as u32);
                assert_eq!(sorted(values.clone()), vec![40, 41]);
                assert_eq!(sorted_names(known_nodes.clone()), vec![s("n1"), s("n2"), s("n3")]);
                assert!(state(&node).is_outstanding(*msg_id));
            }
            other => panic!("expected a propagate message, got {:?}", other),
        }
    }
    assert_eq!(u32::MAX - node.msg_ids_left(), before + 2);
}

#[test]
fn flush_does_nothing_before_the_handshake_or_the_topology() {
    let mut fresh: TestNode = Node::new().with_state(State::new());
    assert!(!fresh.is_init());
    assert!(!fresh.ready());
    fresh.propagate_to_friends();
    assert!(fresh.take_outbox().is_empty());

    let mut node = started("n1", &["n1", "n2"]);
    assert!(!node.ready());
    broadcast(&mut node, "n1", 1, 9);
    node.take_outbox();
    node.propagate_to_friends();
    assert!(node.take_outbox().is_empty());
    assert_eq!(read(&mut node, "n1"), vec![9]);
}

#[test]
fn broadcast_is_acknowledged_and_learned() {
    let mut node = on_the_line("n1");
    broadcast(&mut node, "n1", 31, 5);
    let out = node.take_outbox();
    assert_eq!(out.len(), 1);
    assert_eq!(out[0].src, "n1");
    assert_eq!(out[0].dest, "c1");
    assert_eq!(out[0].body, Body::BroadcastOk(BroadcastOkBody::BroadcastOk { in_reply_to: 31 }));
    assert!(state(&node).is_known(5));
    assert!(!state(&node).is_known(6));
    assert_eq!(state(&node).queued_for(&s("n2")), vec![5]);
    assert!(state(&node).queued_for(&s("n3")).is_empty());
}

#[test]
fn known_values_are_not_queued_again() {
    let mut node = on_the_line("n2");
    broadcast(&mut node, "n2", 1, 5);
    broadcast(&mut node, "n2", 2, 5);
    assert_eq!(state(&node).queued_for(&s("n1")), vec![5]);
    assert_eq!(state(&node).queued_for(&s("n3")), vec![5]);
    node.take_outbox();
    node.propagate_to_friends();
    assert_eq!(node.take_outbox().len(), 2);

    // The value is known now: neither a client nor a peer makes the node
    // queue it again, whatever the peer claims.
    broadcast(&mut node, "n2", 3, 5);
    handle_propagate(
        &mut node,
        Message {
            src: s("n1"),
            dest: s("n2"),
            body: Body::Propagate { msg_id: 9, values: vec![5, 5], known_nodes: vec![] },
        },
    );
    assert!(state(&node).queued_for(&s("n1")).is_empty());
    assert!(state(&node).queued_for(&s("n3")).is_empty());
    assert_eq!(state(&node).queued_neighbours(), 0);
    node.take_outbox();
    node.propagate_to_friends();
    assert!(node.take_outbox().is_empty());
    assert_eq!(read(&mut node, "n2"), vec![5]);
}

#[test]
fn nothing_is_queued_for_nodes_said_to_know() {
    let mut node = on_the_line("n2");
    handle_propagate(
        &mut node,
        Message {
            src: s("n1"),
            dest: s("n2"),
            body: Body::Propagate {
                msg_id: 4,
                values: vec![8, 9, 8],
                known_nodes: vec![s("n1"), s("n2")],
            },
        },
    );
    let out = node.take_outbox();
    assert_eq!(out.len(), 1);
    assert_eq!(out[0].src, "n2");
    assert_eq!(out[0].dest, "n1");
    assert_eq!(out[0].body, Body::PropagateOk { in_reply_to: 4 });
    assert!(state(&node).queued_for(&s("n1")).is_empty());
    assert_eq!(sorted(state(&node).queued_for(&s("n3"))), vec![8, 9]);
    assert_eq!(sorted(read(&mut node, "n2")), vec![8, 9]);

    // When every neighbour is said to know, nothing is queued at all.
    let mut other = on_the_line("n2");
    handle_propagate(
        &mut other,
        Message {
            src: s("n1"),
            dest: s("n2"),
            body: Body::Propagate {
                msg_id: 4,
                values: vec![8],
                known_nodes: vec![s("n3"), s("n1"), s("n2")],
            },
        },
    );
    assert_eq!(state(&other).queued_neighbours(), 0);
    assert!(state(&other).is_known(8));
}

#[test]
fn a_neighbour_listed_twice_gets_each_value_once() {
    let mut node = started("n1", &["n1", "n2"]);
    tell_topology(&mut node, "n1", vec![(s("n1"), vec![s("n2"), s("n2"), s("n1")])]);
    broadcast(&mut node, "n1", 1, 3);
    assert_eq!(state(&node).queued_for(&s("n2")), vec![3]);
    assert_eq!(state(&node).queued_for(&s("n1")), vec![3]);
    node.take_outbox();
    node.propagate_to_friends();
    let sent = node.take_outbox();
    assert_eq!(sent.len(), 2);
    for msg in &sent {
        match &msg.body {
            Body::Propagate { values, known_nodes, .. } => {
                assert_eq!(values, &vec![3]);
                assert_eq!(sorted_names(known_nodes.clone()), vec![s("n1"), s("n2")]);
            }
            other => panic!("expected a propagate message, got {:?}", other),
        }
    }
}

#[test]
fn a_node_outside_the_topology_has_no_neighbours() {
    let mut node = started("n9", &["n9"]);
    tell_topology(&mut node, "n9", line_topology());
    assert!(node.ready());
    broadcast(&mut node, "n9", 1, 5);
    assert_eq!(state(&node).queued_neighbours(), 0);
    node.take_outbox();
    node.propagate_to_friends();
    assert!(node.take_outbox().is_empty());
    assert_eq!(read(&mut node, "n9"), vec![5]);
}

#[test]
fn topology_is_acknowledged_and_replaced_wholesale() {
    let mut node = started("n1", &["n1", "n2", "n3"]);
    handle_topology(
        &mut node,
        Message {
            src: s("c1"),
            dest: s("n1"),
            body: Body::Topology(TopologyBody::Topology {
                msg_id: 12,
                topology: vec![(s("n1"), vec![s("n2")])],
            }),
        },
    );
    let out = node.take_outbox();
    assert_eq!(out.len(), 1);
    assert_eq!(out[0].src, "n1");
    assert_eq!(out[0].dest, "c1");
    assert_eq!(
        out[0].body,
        Body::TopologyOk(TopologyOkBody::TopologyOk { in_reply_to: 12, msg_id: 2 })
    );

    // Of two entries for one node the later counts; a second message
    // replaces the first altogether.
    tell_topology(
        &mut node,
        "n1",
        vec![(s("n1"), vec![s("n2")]), (s("n2"), vec![]), (s("n1"), vec![s("n3")])],
    );
    broadcast(&mut node, "n1", 1, 5);
    assert!(state(&node).queued_for(&s("n2")).is_empty());
    assert_eq!(state(&node).queued_for(&s("n3")), vec![5]);

    tell_topology(&mut node, "n1", vec![]);
    assert!(!node.ready());
}

#[test]
fn acknowledging_twice_is_harmless() {
    let mut node = on_the_line("n1");
    broadcast(&mut node, "n1", 1, 5);
    node.take_outbox();
    node.propagate_to_friends();
    let sent = node.take_outbox();
    let id = sent[0].body.msg_id().unwrap();
    assert!(state(&node).is_outstanding(id));

    let ack = || Message { src: s("n2"), dest: s("n1"), body: Body::PropagateOk {
        in_reply_to: id,
    } };
    handle_propagate_ok(&mut node, ack());
    assert!(!state(&node).is_outstanding(id));
    assert_eq!(state(&node).outstanding(), 0);
    handle_propagate_ok(&mut node, ack());
    assert!(!state(&node).is_outstanding(id));
    assert_eq!(state(&node).outstanding(), 0);
    assert!(node.take_outbox().is_empty());
    assert_eq!(read(&mut node, "n1"), vec![5]);

    // Acknowledging what was never sent changes nothing either.
    handle_propagate_ok(
        &mut node,
        Message { src: s("n2"), dest: s("n1"), body: Body::PropagateOk { in_reply_to: 999 } },
    );
    assert_eq!(state(&node).outstanding(), 0);
}

#[test]
fn unacknowledged_batches_are_resent_unchanged_at_every_tick() {
    let mut node = on_the_line("n2");
    broadcast(&mut node, "n2", 1, 5);
    node.take_outbox();
    node.propagate_to_friends();
    let mut sent = node.take_outbox();
    sent.sort_by_key(|m| m.body.msg_id());
    assert_eq!(sent.len(), 2);

    for _ in 0..3 {
        node.resend_un_resp_msgs();
        let mut again = node.take_outbox();
        again.sort_by_key(|m| m.body.msg_id());
        assert_eq!(again, sent);
    }

    let first = sent[0].body.msg_id().unwrap();
    handle_propagate_ok(
        &mut node,
        Message {
            src: sent[0].dest.clone(),
            dest: s("n2"),
            body: Body::PropagateOk { in_reply_to: first },
        },
    );
    node.resend_un_resp_msgs();
    let again = node.take_outbox();
    assert_eq!(again, vec![sent[1].clone()]);

    handle_propagate_ok(
        &mut node,
        Message {
            src: sent[1].dest.clone(),
            dest: s("n2"),
            body: Body::PropagateOk { in_reply_to: sent[1].body.msg_id().unwrap() },
        },
    );
    node.resend_un_resp_msgs();
    assert!(node.take_outbox().is_empty());
}

#[test]
fn a_resent_batch_is_not_propagated_again_by_its_receiver() {
    let mut n3 = on_the_line("n3");
    let batch = || Message {
        src: s("n2"),
        dest: s("n3"),
        body: Body::Propagate {
            msg_id: 4,
            values: vec![5],
            known_nodes: vec![s("n1"), s("n2"), s("n3")],
        },
    };
    handle_propagate(&mut n3, batch());
    handle_propagate(&mut n3, batch());
    handle_propagate(&mut n3, batch());
    let acks = n3.take_outbox();
    assert_eq!(acks.len(), 3);
    for ack in &acks {
        assert_eq!(ack.body, Body::PropagateOk { in_reply_to: 4 });
    }
    assert_eq!(state(&n3).queued_neighbours(), 0);
    n3.propagate_to_friends();
    assert!(n3.take_outbox().is_empty());
}

#[test]
fn values_only_grow_and_do_not_depend_on_the_order_of_delivery() {
    let deliveries: Vec<Vec<i32>> = vec![vec![1, 2], vec![2, 3], vec![], vec![3, 1], vec![4]];
    let mut forward = on_the_line("n2");
    let mut seen: Vec<i32> = Vec::new();
    for (i, values) in deliveries.iter().enumerate() {
        handle_propagate(
            &mut forward,
            Message {
                src: s("n1"),
                dest: s("n2"),
                body: Body::Propagate {
                    msg_id: i as u32,
                    values: values.clone(),
                    known_nodes: vec![s("n1")],
                },
            },
        );
        for v in &seen {
            assert!(state(&forward).is_known(*v));
        }
        for v in values {
            assert!(state(&forward).is_known(*v));
            seen.push(*v);
        }
    }
    let mut backward = on_the_line("n2");
    for (i, values) in deliveries.iter().rev().enumerate() {
        for _ in 0..2 {
            handle_propagate(
                &mut backward,
                Message {
                    src: s("n3"),
                    dest: s("n2"),
                    body: Body::Propagate {
                        msg_id: i as u32,
                        values: values.clone(),
                        known_nodes: vec![],
                    },
                },
            );
        }
    }
    assert_eq!(sorted(read(&mut forward, "n2")), vec![1, 2, 3, 4]);
    assert_eq!(sorted(read(&mut backward, "n2")), vec![1, 2, 3, 4]);
}

#[test]
fn read_lists_each_value_once_under_a_fresh_id() {
    let mut node = on_the_line("n1");
    assert!(read(&mut node, "n1").is_empty());
    broadcast(&mut node, "n1", 1, 7);
    broadcast(&mut node, "n1", 2, -3);
    broadcast(&mut node, "n1", 3, 7);
    node.take_outbox();
    let before = u32::MAX - node.msg_ids_left();
    let body = Body::Read(ReadBody::Read { msg_id: 8 });
    handle_read(&mut node, Message { src: s("c4"), dest: s("n1"), body });
    let out = node.take_outbox();
    assert_eq!(out.len(), 1);
    match &out[0].body {
        Body::ReadOk(ReadOkBody::ReadOk { in_reply_to, msg_id, messages }) => {
            assert_eq!(*in_reply_to, 8);
            assert_eq!(*msg_id, before + 1);
            assert_eq!(sorted(messages.clone()), vec![-3, 7]);
        }
        other => panic!("expected read_ok, got {:?}", other),
    }
    assert_eq!(sorted(state(&node).known_values()), vec![-3, 7]);
}

/// Carries every message of `from`'s outbox that is addressed to a node to
/// that node, and returns how many were carried.
fn deliver(from: usize, nodes: &mut Vec<TestNode>, names: &[&str]) -> usize {
    let out = nodes[from].take_outbox();
    let mut carried = 0;
    for msg in out {
        if let Some(to) = names.iter().position(|n| *n == msg.dest) {
            carried += 1;
            match msg.body {
                Body::Propagate { .. } => handle_propagate(&mut nodes[to], msg),
                Body::PropagateOk { .. } => handle_propagate_ok(&mut nodes[to], msg),
                other => panic!("nodes do not send each other {:?}", other),
            }
        }
    }
    carried
}

#[test]
fn a_value_broadcast_at_one_end_of_a_line_reaches_the_other() {
    let names = ["n1", "n2", "n3"];
    let mut nodes: Vec<TestNode> = names.iter().map(|n| on_the_line(n)).collect();

    broadcast(&mut nodes[0], "n1", 1, 5);
    assert_eq!(nodes[0].take_outbox().len(), 1);
    assert!(read(&mut nodes[2], "n3").is_empty());

    // Rounds of flushing, resending and delivering, until nothing moves.
    for _ in 0..10 {
        for i in 0..3 {
            nodes[i].propagate_to_friends();
            nodes[i].resend_un_resp_msgs();
        }
        let mut carried = 0;
        for i in 0..3 {
            carried += deliver(i, &mut nodes, &names);
        }
        // Acknowledgments written while delivering go out too.
        for i in 0..3 {
            carried += deliver(i, &mut nodes, &names);
        }
        if carried == 0 {
            break;
        }
    }
    for i in 0..3 {
        assert_eq!(state(&nodes[i]).outstanding(), 0);
        assert_eq!(state(&nodes[i]).queued_neighbours(), 0);
        assert_eq!(read(&mut nodes[i], names[i]), vec![5]);
    }

    // A duplicate of the batch that brought the value leaves n3 as it was.
    handle_propagate(
        &mut nodes[2],
        Message {
            src: s("n2"),
            dest: s("n3"),
            body: Body::Propagate {
                msg_id: 3,
                values: vec![5],
                known_nodes: vec![s("n1"), s("n2"), s("n3")],
            },
        },
    );
    assert_eq!(read(&mut nodes[2], "n3"), vec![5]);
    assert_eq!(state(&nodes[2]).queued_neighbours(), 0);
}

#[test]
fn a_lost_batch_arrives_with_a_later_resend() {
    let names = ["n1", "n2", "n3"];
    let mut nodes: Vec<TestNode> = names.iter().map(|n| on_the_line(n)).collect();
    broadcast(&mut nodes[0], "n1", 1, 5);
    nodes[0].take_outbox();
    nodes[0].propagate_to_friends();
    // The network drops the batch, and the first resend as well.
    assert_eq!(nodes[0].take_outbox().len(), 1);
    nodes[0].resend_un_resp_msgs();
    assert_eq!(nodes[0].take_outbox().len(), 1);
    assert!(!state(&nodes[1]).is_known(5));
    // The second resend gets through, and so does its acknowledgment.
    nodes[0].resend_un_resp_msgs();
    assert_eq!(deliver(0, &mut nodes, &names), 1);
    assert!(state(&nodes[1]).is_known(5));
    assert_eq!(deliver(1, &mut nodes, &names), 1);
    assert_eq!(state(&nodes[0]).outstanding(), 0);
    nodes[0].resend_un_resp_msgs();
    assert!(nodes[0].take_outbox().is_empty());
}

#[test]
fn payload_header_of_each_variant() {
    let propagate = Body::Propagate { msg_id: 3, values: vec![1], known_nodes: vec![s("n1")] };
    assert_eq!(propagate.type_tag(), "propagate");
    assert_eq!(propagate.msg_id(), Some(3));
    assert_eq!(propagate.in_reply_to(), None);
    assert_eq!(propagate.duplicate(), propagate);

    let ack = Body::PropagateOk { in_reply_to: 3 };
    assert_eq!(ack.type_tag(), "propagate_ok");
    assert_eq!(ack.msg_id(), None);
    assert_eq!(ack.in_reply_to(), Some(3));

    let topology = Body::Topology(TopologyBody::Topology { msg_id: 1, topology: line_topology() });
    assert_eq!(topology.type_tag(), "topology");
    assert_eq!(topology.duplicate(), topology);
    let topology_ok = Body::TopologyOk(TopologyOkBody::TopologyOk { in_reply_to: 1, msg_id: 2 });
    assert_eq!(topology_ok.type_tag(), "topology_ok");
    let broadcast = Body::Broadcast(BroadcastBody::Broadcast { msg_id: 1, message: 2 });
    assert_eq!(broadcast.type_tag(), "broadcast");
    let broadcast_ok = Body::BroadcastOk(BroadcastOkBody::BroadcastOk { in_reply_to: 1 });
    assert_eq!(broadcast_ok.type_tag(), "broadcast_ok");
    assert_eq!(broadcast_ok.in_reply_to(), Some(1));
    assert_eq!(broadcast_ok.msg_id(), None);
    assert_eq!(Body::Read(ReadBody::Read { msg_id: 1 }).type_tag(), "read");
    let read_ok = Body::ReadOk(ReadOkBody::ReadOk {
        in_reply_to: 1,
        msg_id: 2,
        messages: vec![4, 5],
    });
    assert_eq!(read_ok.type_tag(), "read_ok");
    assert_eq!(read_ok.msg_id(), Some(2));
    assert_eq!(read_ok.in_reply_to(), Some(1));
    assert_eq!(read_ok.duplicate(), read_ok);
}
