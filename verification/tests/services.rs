use fly_dist_rs::echo;
use fly_dist_rs::grow_only_counter as counter;
use fly_dist_rs::kafka;
use fly_dist_rs::lin_kv;
use fly_dist_rs::messages::echo::{EchoBody, EchoOkBody};
use fly_dist_rs::messages::error::ErrorBody;
use fly_dist_rs::messages::generate::{GenerateBody, GenerateOkBody};
use fly_dist_rs::messages::init::InitBody;
use fly_dist_rs::messages::{CommonBody, Message, Payload};
use fly_dist_rs::node::{Dispatch, Node};
use fly_dist_rs::unique_ids;

fn s(text: &str) -> String {
    text.to_string()
}

fn init(id: &str) -> Message<InitBody> {
    Message {
        src: s("c0"),
        dest: s(id),
        body: InitBody::Init { msg_id: 1, node_id: s(id), node_ids: vec![s(id)] },
    }
}

fn error(code: u32, in_reply_to: u32, text: &str) -> ErrorBody {
    ErrorBody { in_reply_to, code, text: s(text) }
}

// ---------------------------------------------------------------- echo

#[test]
fn echo_returns_what_it_was_sent() {
    let mut node: Node<(), echo::Body, u8> = Node::new();
    node.try_init(init("n1"));
    let value = serde_json::Value::Array(vec![
        serde_json::Value::String(s("Please echo 35")),
        serde_json::Value::Bool(true),
        serde_json::Value::Null,
    ]);
    echo::handle(
        &mut node,
        Message {
            src: s("c1"),
            dest: s("n1"),
            body: echo::Body::Echo(EchoBody { msg_id: 9, echo: value.clone() }),
        },
    );
    let out = node.take_outbox();
    assert_eq!(out.len(), 1);
    assert_eq!(out[0].src, "n1");
    assert_eq!(out[0].dest, "c1");
    assert_eq!(
        out[0].body,
        echo::Body::EchoOk(EchoOkBody { msg_id: 2, in_reply_to: 9, echo: value.clone() })
    );
    assert_eq!(out[0].body.type_tag(), "echo_ok");
    assert_eq!(out[0].body.in_reply_to(), Some(9));
    assert_eq!(out[0].body.msg_id(), Some(2));
    // A copy of a payload holds an equal value of its own.
    let copy = out[0].body.duplicate();
    assert_eq!(copy, out[0].body);
    match copy {
        echo::Body::EchoOk(body) => assert_eq!(body.echo, value),
        other => panic!("expected echo_ok, got {:?}", other),
    }
    let request = echo::Body::Echo(EchoBody { msg_id: 1, echo: serde_json::Value::Null });
    assert_eq!(request.type_tag(), "echo");
    assert_eq!(request.in_reply_to(), None);
    assert_eq!(request.duplicate(), request);
}

// ---------------------------------------------------------- unique ids

fn generate(node: &mut Node<unique_ids::State, unique_ids::Body, u8>, msg_id: u32) -> String {
    let reply = unique_ids::handle(
        node,
        Message {
            src: s("c1"),
            dest: s("n1"),
            body: unique_ids::Body::Generate(GenerateBody { msg_id }),
        },
    )
    .unwrap();
    assert_eq!(reply.src, "n1");
    assert_eq!(reply.dest, "c1");
    assert!(node.take_outbox().is_empty());
    match reply.body {
        unique_ids::Body::GenerateOk(GenerateOkBody { in_reply_to, id }) => {
            assert_eq!(in_reply_to, msg_id);
            id
        }
        other => panic!("expected generate_ok, got {:?}", other),
    }
}

#[test]
fn generated_ids_are_the_node_name_and_a_running_number() {
    let mut node: Node<unique_ids::State, unique_ids::Body, u8> =
        Node::new().with_state(unique_ids::State { count: 0 });
    node.try_init(init("n1"));
    assert_eq!(generate(&mut node, 5), "n10");
    assert_eq!(generate(&mut node, 6), "n11");
    for _ in 2..9 {
        generate(&mut node, 7);
    }
    assert_eq!(generate(&mut node, 8), "n19");
    assert_eq!(generate(&mut node, 9), "n110");
    assert_eq!(node.state_ref().unwrap().count, 11);

    node.set_state(unique_ids::State { count: 4_294_967_294 });
    assert_eq!(generate(&mut node, 1), "n14294967294");
    assert_eq!(node.state_ref().unwrap().count, u32::MAX);
    node.set_state(unique_ids::State { count: 1_000_000 });
    assert_eq!(generate(&mut node, 1), "n11000000");
    node.set_state(unique_ids::State { count: 907 });
    assert_eq!(generate(&mut node, 1), "n1907");
}

#[test]
fn unique_id_payload_header() {
    let request = unique_ids::Body::Generate(GenerateBody { msg_id: 3 });
    assert_eq!(request.type_tag(), "generate");
    assert_eq!(request.msg_id(), Some(3));
    assert_eq!(request.in_reply_to(), None);
    let reply = unique_ids::Body::GenerateOk(GenerateOkBody { in_reply_to: 3, id: s("n10") });
    assert_eq!(reply.type_tag(), "generate_ok");
    assert_eq!(reply.msg_id(), None);
    assert_eq!(reply.in_reply_to(), Some(3));
    assert_eq!(reply.duplicate(), reply);
}

// ------------------------------------------------------------- counter

type CounterNode = Node<counter::State, counter::Body, u8>;

fn counter_node(id: &str, value: i32, acc_delta: i32, syncing_delta: i32) -> CounterNode {
    let mut node: CounterNode =
        Node::new().with_state(counter::State { value, acc_delta, syncing_delta });
    node.try_init(init(id));
    node
}

fn from(src: &str, dest: &str, body: counter::Body) -> Message<counter::Body> {
    Message { src: s(src), dest: s(dest), body }
}

#[test]
fn add_accumulates_and_acknowledges() {
    let mut node = counter_node("n1", 10, 3, 0);
    counter::handle_add(&mut node, from("c1", "n1", counter::Body::Add { msg_id: 4, delta: 5 }));
    counter::handle_add(&mut node, from("c2", "n1", counter::Body::Add { msg_id: 6, delta: -1 }));
    assert_eq!(
        node.state,
        Some(counter::State { value: 10, acc_delta: 7, syncing_delta: 0 })
    );
    assert_eq!(
        node.take_outbox(),
        vec![
            from("n1", "c1", counter::Body::AddOk { in_reply_to: 4 }),
            from("n1", "c2", counter::Body::AddOk { in_reply_to: 6 }),
        ]
    );
}

#[test]
fn counter_read_reports_the_total_last_seen() {
    let mut node = counter_node("n1", 10, 3, 0);
    counter::handle_read(&mut node, from("c1", "n1", counter::Body::Read { msg_id: 4 }));
    assert_eq!(
        node.take_outbox(),
        vec![from("n1", "c1", counter::Body::ReadOk { value: 10, in_reply_to: 4 })]
    );
    assert_eq!(
        node.state,
        Some(counter::State { value: 10, acc_delta: 3, syncing_delta: 0 })
    );
}

#[test]
fn the_service_total_replaces_the_one_held() {
    let mut node = counter_node("n1", 10, 3, 2);
    counter::handle_read_ok_seq(
        &mut node,
        from("seq-kv", "n1", counter::Body::ReadOk { value: 25, in_reply_to: 4 }),
    );
    assert_eq!(
        node.state,
        Some(counter::State { value: 25, acc_delta: 3, syncing_delta: 2 })
    );
    assert!(node.take_outbox().is_empty());
}

#[test]
fn a_confirmed_swap_settles_what_was_synchronised() {
    let mut node = counter_node("n1", 10, 7, 4);
    counter::handle_cas_ok_seq(
        &mut node,
        from("seq-kv", "n1", counter::Body::CasOk { in_reply_to: 4 }),
    );
    assert_eq!(
        node.state,
        Some(counter::State { value: 17, acc_delta: 3, syncing_delta: 0 })
    );
    assert!(node.take_outbox().is_empty());
}

#[test]
fn synchronising_proposes_the_total_plus_what_accumulated() {
    let mut idle = counter_node("n1", 10, 0, 0);
    counter::sync_val(&mut idle);
    assert!(idle.take_outbox().is_empty());
    assert_eq!(idle.state, Some(counter::State { value: 10, acc_delta: 0, syncing_delta: 0 }));
    assert_eq!(idle.next_msg_id(), 2);

    let mut node = counter_node("n1", 10, 7, 0);
    counter::sync_val(&mut node);
    assert_eq!(
        node.take_outbox(),
        vec![from(
            "n1",
            "seq-kv",
            counter::Body::Cas { msg_id: 2, key: s("val"), from: 10, to: 17 }
        )]
    );
    assert_eq!(node.state, Some(counter::State { value: 10, acc_delta: 7, syncing_delta: 7 }));

    let mut negative = counter_node("n1", 10, -12, 0);
    counter::sync_val(&mut negative);
    assert_eq!(
        negative.take_outbox(),
        vec![from(
            "n1",
            "seq-kv",
            counter::Body::Cas { msg_id: 2, key: s("val"), from: 10, to: -2 }
        )]
    );
}

#[test]
fn asking_for_the_total() {
    let mut node = counter_node("n3", 0, 0, 0);
    counter::request_total(&mut node);
    assert_eq!(
        node.take_outbox(),
        vec![from("n3", "seq-kv", counter::Body::ReadSeq { msg_id: 2, key: s("val") })]
    );
}

#[test]
fn only_the_first_node_creates_a_missing_total() {
    let missing = |dest: &str| {
        from(
            "seq-kv",
            dest,
            counter::Body::Error(error(counter::KEY_DOES_NOT_EXIST, 3, "not found")),
        )
    };
    let mut first = counter_node("n0", 0, 0, 0);
    counter::handle_error(&mut first, missing("n0"));
    assert_eq!(
        first.take_outbox(),
        vec![from(
            "n0",
            "seq-kv",
            counter::Body::Write { msg_id: 2, key: s("val"), value: 0 }
        )]
    );

    let mut other = counter_node("n1", 0, 0, 0);
    counter::handle_error(&mut other, missing("n1"));
    assert!(other.take_outbox().is_empty());
    assert_eq!(other.next_msg_id(), 2);

    // Any other code is passed over, at the first node too.
    let mut first = counter_node("n0", 0, 0, 0);
    counter::handle_error(
        &mut first,
        from("seq-kv", "n0", counter::Body::Error(error(22, 3, "precondition failed"))),
    );
    assert!(first.take_outbox().is_empty());
    assert_eq!(first.next_msg_id(), 2);
}

#[test]
fn counter_payload_header() {
    assert_eq!(counter::KEY_DOES_NOT_EXIST, 20);
    let read_seq = counter::Body::ReadSeq { msg_id: 1, key: s("val") };
    assert_eq!(read_seq.type_tag(), "read");
    assert_eq!(read_seq.msg_id(), Some(1));
    assert_eq!(read_seq.duplicate(), read_seq);
    let failed = counter::Body::Error(error(20, 3, "x"));
    assert_eq!(failed.type_tag(), "error");
    assert_eq!(failed.in_reply_to(), Some(3));
    assert_eq!(failed.msg_id(), None);
    assert_eq!(failed.duplicate(), failed);
    assert_eq!(counter::Body::CasOk { in_reply_to: 2 }.type_tag(), "cas_ok");
    assert_eq!(counter::Body::AddOk { in_reply_to: 2 }.in_reply_to(), Some(2));
}

// ----------------------------------------------------------------- log

fn log_node() -> kafka::KafkaNode {
    let mut node: kafka::KafkaNode = Node::new().with_state(kafka::State::new());
    node.try_init(init("n1"));
    node
}

fn to_log(src: &str, dest: &str, body: kafka::Body) -> Message<kafka::Body> {
    Message { src: s(src), dest: s(dest), body }
}

fn header_of(msg: &Message<kafka::Body>) -> CommonBody {
    msg.to_common_message().body
}

/// Appends `value` to `key` and lets the key-value service confirm.
fn append(node: &mut kafka::KafkaNode, msg_id: u32, key: &str, value: usize) -> usize {
    kafka::handle_send(
        node,
        to_log("c1", "n1", kafka::Body::Send { msg_id, key: s(key), msg: value }),
    );
    let asked = node.take_outbox();
    assert_eq!(asked.len(), 1);
    let id = asked[0].body.msg_id().unwrap();
    let confirmation = to_log("lin-kv", "n1", kafka::Body::CasOk { in_reply_to: id });
    let pending = match node.handle(&header_of(&confirmation)) {
        Dispatch::Callback(kafka::Handler::SendReply(pending)) => pending,
        _ => panic!("no continuation for the confirmation"),
    };
    kafka::handle_send_reply(node, pending, confirmation);
    let out = node.take_outbox();
    assert_eq!(out.len(), 1);
    assert_eq!(out[0].src, "n1");
    assert_eq!(out[0].dest, "c1");
    match out[0].body {
        kafka::Body::SendOk { in_reply_to, offset } => {
            assert_eq!(in_reply_to, msg_id);
            offset
        }
        ref other => panic!("expected send_ok, got {:?}", other),
    }
}

#[test]
fn an_append_is_cleared_with_the_service_first() {
    let mut node = log_node();
    kafka::handle_send(
        &mut node,
        to_log("c1", "n1", kafka::Body::Send { msg_id: 8, key: s("k1"), msg: 123 }),
    );
    assert_eq!(
        node.take_outbox(),
        vec![to_log(
            "n1",
            "lin-kv",
            kafka::Body::Cas { msg_id: 2, key: s("k1_next_offset"), from: 0, to: 1 }
        )]
    );
    // Nothing is appended before the service answers.
    assert!(node.state_ref().unwrap().log(&s("k1")).is_empty());
    match node.handle(&CommonBody { t: s("cas_ok"), msg_id: None, in_reply_to: Some(2) }) {
        Dispatch::Callback(handler) => assert_eq!(
            handler,
            kafka::Handler::SendReply(kafka::PendingSend {
                key: s("k1"),
                value: 123,
                msg_id: 8,
                src: s("c1"),
                dest: s("n1"),
            })
        ),
        _ => panic!("no continuation registered"),
    }
}

#[test]
fn confirmed_appends_get_consecutive_offsets_per_log() {
    let mut node = log_node();
    assert_eq!(append(&mut node, 1, "k1", 10), 0);
    assert_eq!(append(&mut node, 2, "k1", 11), 1);
    assert_eq!(append(&mut node, 3, "k2", 20), 0);
    assert_eq!(append(&mut node, 4, "k1", 12), 2);
    assert_eq!(node.state_ref().unwrap().log(&s("k1")), vec![10, 11, 12]);
    assert_eq!(node.state_ref().unwrap().log(&s("k2")), vec![20]);
    assert!(node.state_ref().unwrap().log(&s("k3")).is_empty());
}

#[test]
fn a_missing_key_makes_the_node_write_to_the_service() {
    let pending = || kafka::PendingSend {
        key: s("k1"),
        value: 123,
        msg_id: 8,
        src: s("c1"),
        dest: s("n1"),
    };
    let mut node = log_node();
    kafka::handle_send_reply(
        &mut node,
        pending(),
        to_log(
            "lin-kv",
            "n1",
            kafka::Body::Error(error(kafka::KEY_DOES_NOT_EXIST, 2, "missing")),
        ),
    );
    assert_eq!(
        node.take_outbox(),
        vec![to_log("n1", "lin-kv", kafka::Body::Write { msg_id: 2, key: s("k1"), value: 123 })]
    );
    assert!(node.state_ref().unwrap().log(&s("k1")).is_empty());

    kafka::handle_send_reply(
        &mut node,
        pending(),
        to_log("lin-kv", "n1", kafka::Body::Error(error(22, 2, "precondition failed"))),
    );
    assert!(node.take_outbox().is_empty());
    assert!(node.state_ref().unwrap().log(&s("k1")).is_empty());
    assert_eq!(node.next_msg_id(), 3);
}

#[test]
fn poll_returns_each_log_from_the_offset_asked() {
    let mut node = log_node();
    for (i, value) in [10, 11, 12, 13].iter().enumerate() {
        append(&mut node, i as u32, "k1", *value);
    }
    append(&mut node, 9, "k2", 20);
    let offsets = vec![(s("k1"), 2), (s("nope"), 0), (s("k2"), 0), (s("k2"), 1), (s("k1"), 4)];
    assert!(node.state_ref().unwrap().can_poll(&offsets));
    kafka::handle_poll(&mut node, to_log("c1", "n1", kafka::Body::Poll { msg_id: 5, offsets }));
    assert_eq!(
        node.take_outbox(),
        vec![to_log(
            "n1",
            "c1",
            kafka::Body::PollOk {
                in_reply_to: 5,
                msgs: vec![
                    (s("k1"), vec![(2, 12), (3, 13)]),
                    (s("k2"), vec![(0, 20)]),
                    (s("k2"), vec![]),
                    (s("k1"), vec![]),
                ],
            }
        )]
    );
    assert!(!node.state_ref().unwrap().can_poll(&vec![(s("k1"), 5)]));
    assert!(!node.state_ref().unwrap().can_poll(&vec![(s("k1"), 0), (s("k2"), 2)]));
    assert!(node.state_ref().unwrap().can_poll(&vec![(s("nope"), 100)]));
    assert!(node.state_ref().unwrap().can_poll(&vec![]));
}

#[test]
fn committed_offsets_are_recorded_and_listed() {
    let mut node = log_node();
    kafka::handle_commit_offsets(
        &mut node,
        to_log(
            "c1",
            "n1",
            kafka::Body::CommitOffsets {
                msg_id: 3,
                offsets: vec![(s("k1"), 5), (s("k2"), 7), (s("k1"), 6)],
            },
        ),
    );
    assert_eq!(
        node.take_outbox(),
        vec![to_log("n1", "c1", kafka::Body::CommitOffsetsOk { in_reply_to: 3 })]
    );
    assert_eq!(node.state_ref().unwrap().committed(&s("k1")), Some(6));
    assert_eq!(node.state_ref().unwrap().committed(&s("k2")), Some(7));
    assert_eq!(node.state_ref().unwrap().committed(&s("k3")), None);

    kafka::handle_list_committed_offsets(
        &mut node,
        to_log(
            "c2",
            "n1",
            kafka::Body::ListCommittedOffsets {
                msg_id: 4,
                keys: vec![s("k2"), s("k9"), s("k1")],
            },
        ),
    );
    assert_eq!(
        node.take_outbox(),
        vec![to_log(
            "n1",
            "c2",
            kafka::Body::ListCommittedOffsetsOk {
                in_reply_to: 4,
                offsets: vec![(s("k2"), 7), (s("k1"), 6)],
            }
        )]
    );
}

#[test]
fn an_error_nobody_waits_for_is_only_reported() {
    let node = log_node();
    let report = kafka::handle_error(
        &node,
        to_log("lin-kv", "n1", kafka::Body::Error(error(13, 4, "crash"))),
    );
    assert_eq!(report, (13, 4, s("lin-kv")));
}

#[test]
fn requests_to_the_service_register_their_continuation() {
    let mut node = log_node();
    lin_kv::read(&mut node, s("k"), kafka::Handler::Poll);
    lin_kv::write(&mut node, s("k"), 4, kafka::Handler::Send);
    lin_kv::cas(&mut node, s("k"), 4, 5, kafka::Handler::Error);
    assert_eq!(
        node.take_outbox(),
        vec![
            to_log("n1", "lin-kv", kafka::Body::Read { msg_id: 2, key: s("k") }),
            to_log("n1", "lin-kv", kafka::Body::Write { msg_id: 3, key: s("k"), value: 4 }),
            to_log("n1", "lin-kv", kafka::Body::Cas { msg_id: 4, key: s("k"), from: 4, to: 5 }),
        ]
    );
    let reply = |t: &str, id: u32| CommonBody { t: s(t), msg_id: None, in_reply_to: Some(id) };
    assert!(matches!(
        node.handle(&reply("write_ok", 3)),
        Dispatch::Callback(kafka::Handler::Send)
    ));
    assert!(matches!(
        node.handle(&reply("read_ok", 2)),
        Dispatch::Callback(kafka::Handler::Poll)
    ));
    assert!(matches!(node.handle(&reply("read_ok", 2)), Dispatch::Unknown));
    // An error names the request it answers, so it finds the continuation,
    // unless a handler is registered for errors.
    assert!(matches!(
        node.handle(&reply("error", 4)),
        Dispatch::Callback(kafka::Handler::Error)
    ));
    assert!(matches!(node.handle(&reply("cas_ok", 4)), Dispatch::Unknown));
    // None of the requests was enrolled for resending.
    node.resend_unconfirmed();
    assert!(node.take_outbox().is_empty());
}

#[test]
fn log_payload_header() {
    assert_eq!(kafka::KEY_DOES_NOT_EXIST, 20);
    let poll = kafka::Body::Poll { msg_id: 1, offsets: vec![(s("k"), 2)] };
    assert_eq!(poll.type_tag(), "poll");
    assert_eq!(poll.duplicate(), poll);
    let poll_ok = kafka::Body::PollOk { in_reply_to: 1, msgs: vec![(s("k"), vec![(0, 1)])] };
    assert_eq!(poll_ok.type_tag(), "poll_ok");
    assert_eq!(poll_ok.in_reply_to(), Some(1));
    assert_eq!(poll_ok.duplicate(), poll_ok);
    let list = kafka::Body::ListCommittedOffsets { msg_id: 1, keys: vec![s("k")] };
    assert_eq!(list.type_tag(), "list_committed_offsets");
    assert_eq!(list.duplicate(), list);
    assert_eq!(
        kafka::Body::CommitOffsetsOk { in_reply_to: 1 }.type_tag(),
        "commit_offsets_ok"
    );
    assert_eq!(kafka::Body::SendOk { in_reply_to: 1, offset: 0 }.type_tag(), "send_ok");
}
