use fly_dist_rs::messages::init::{handle, InitBody, InitOkBody};
use fly_dist_rs::messages::{
    contains_name, contains_value, duplicate_names, duplicate_values, CommonBody, Message,
};
use fly_dist_rs::node::{ends_with_ok, Dispatch, Node};

type TestNode = Node<u8, CommonBody, &'static str>;

fn s(text: &str) -> String {
    text.to_string()
}

fn header(t: &str, msg_id: Option<u32>, in_reply_to: Option<u32>) -> CommonBody {
    CommonBody { t: s(t), msg_id, in_reply_to }
}

fn request(msg_id: u32) -> Message<CommonBody> {
    Message { src: s("n1"), dest: s("lin-kv"), body: header("read", Some(msg_id), None) }
}

fn init(msg_id: u32) -> Message<InitBody> {
    Message {
        src: s("c0"),
        dest: s("n1"),
        body: InitBody::Init { msg_id, node_id: s("n1"), node_ids: vec![s("n1"), s("n2")] },
    }
}

fn started() -> TestNode {
    let mut node: TestNode = Node::new();
    node.try_init(init(1));
    node
}

fn name_of(decision: Dispatch<'_, &'static str>) -> Option<(&'static str, &'static str)> {
    match decision {
        Dispatch::Handler(h) => Some(("handler", *h)),
        Dispatch::Callback(h) => Some(("callback", h)),
        Dispatch::Unknown => None,
    }
}

#[test]
fn a_new_node_is_not_initialized_and_holds_nothing() {
    let mut node: TestNode = Node::new();
    assert!(!node.is_init());
    assert!(node.state.is_none());
    assert!(node.state_ref().is_none());
    assert!(node.take_outbox().is_empty());
    assert!(name_of(node.handle(&header("echo", Some(1), None))).is_none());
}

#[test]
fn the_handshake_sets_the_identity_and_issues_the_first_id() {
    let mut node: TestNode = Node::new();
    let reply = node.try_init(init(42));
    assert!(node.is_init());
    assert_eq!(node.node_id(), "n1");
    assert_eq!(node.node_ids(), &vec![s("n1"), s("n2")]);
    assert_eq!(reply.src, "n1");
    assert_eq!(reply.dest, "c0");
    assert_eq!(reply.body, InitOkBody::InitOk { msg_id: 1, in_reply_to: 42 });
    assert!(node.take_outbox().is_empty());
    assert_eq!(node.next_msg_id(), 2);
}

#[test]
fn the_bare_handshake_numbers_its_reply_after_the_request() {
    let mut node: TestNode = Node::new();
    let reply = handle(&mut node, init(42)).unwrap();
    assert!(node.is_init());
    assert_eq!(node.node_id(), "n1");
    assert_eq!(reply.src, "n1");
    assert_eq!(reply.dest, "c0");
    assert_eq!(reply.body, InitOkBody::InitOk { msg_id: 43, in_reply_to: 42 });
    assert_eq!(node.next_msg_id(), 1);
}

#[test]
fn initialize_starts_the_counter_at_zero() {
    let mut node: TestNode = Node::new();
    node.initialize(s("n7"), vec![s("n7")]);
    assert!(node.is_init());
    assert_eq!(node.node_id(), "n7");
    assert_eq!(node.msg_ids_left(), u32::MAX);
    assert_eq!(node.next_msg_id(), 1);
    assert_eq!(node.msg_ids_left(), u32::MAX - 1);
}

#[test]
fn message_ids_increase_by_one() {
    let mut node = started();
    let mut last = 1;
    for _ in 0..100 {
        let id = node.next_msg_id();
        assert_eq!(id, last + 1);
        last = id;
    }
    assert_eq!(node.msg_ids_left(), u32::MAX - 101);
}

#[test]
fn the_later_registration_for_a_type_wins() {
    let mut node = started();
    node.add_handler(s("echo"), "first");
    node.add_handler(s("read"), "reader");
    node.add_handler(s("echo"), "second");
    assert_eq!(name_of(node.handle(&header("echo", Some(1), None))), Some(("handler", "second")));
    assert_eq!(name_of(node.handle(&header("read", Some(1), None))), Some(("handler", "reader")));
    assert_eq!(name_of(node.handle(&header("echo", Some(1), None))), Some(("handler", "second")));
}

#[test]
fn an_unknown_type_is_dropped() {
    let mut node = started();
    node.add_handler(s("echo"), "echo");
    assert!(name_of(node.handle(&header("nope", Some(1), None))).is_none());
    assert!(name_of(node.handle(&header("", None, None))).is_none());
    assert!(name_of(node.handle(&header("Echo", Some(1), None))).is_none());
    assert!(name_of(node.handle(&header("echo_ok", None, Some(1)))).is_none());
    assert!(node.take_outbox().is_empty());
}

#[test]
fn a_callback_fires_once_for_the_reply_to_its_request() {
    let mut node = started();
    node.rpc_msg(request(5), "on five", false);
    node.rpc_msg(request(6), "on six", false);
    let sent = node.take_outbox();
    assert_eq!(sent, vec![request(5), request(6)]);

    // No correlation id, or an id nobody waits for.
    assert!(name_of(node.handle(&header("read", Some(5), None))).is_none());
    assert!(name_of(node.handle(&header("read_ok", Some(9), None))).is_none());
    assert!(name_of(node.handle(&header("read_ok", None, Some(7)))).is_none());

    assert_eq!(
        name_of(node.handle(&header("read_ok", None, Some(5)))),
        Some(("callback", "on five"))
    );
    assert!(name_of(node.handle(&header("read_ok", None, Some(5)))).is_none());
    assert_eq!(
        name_of(node.handle(&header("cas_ok", Some(3), Some(6)))),
        Some(("callback", "on six"))
    );
    assert!(name_of(node.handle(&header("cas_ok", Some(3), Some(6)))).is_none());
}

#[test]
fn an_error_reply_reaches_the_callback_of_its_request() {
    let mut node = started();
    node.rpc_msg(request(5), "on five", true);
    node.take_outbox();
    // It does not end in `ok`, but it names the request it answers.
    assert_eq!(
        name_of(node.handle(&header("error", None, Some(5)))),
        Some(("callback", "on five"))
    );
    assert!(name_of(node.handle(&header("error", None, Some(5)))).is_none());
    node.resend_unconfirmed();
    assert!(node.take_outbox().is_empty());
}

#[test]
fn a_handler_takes_precedence_over_a_callback() {
    let mut node = started();
    node.add_handler(s("read_ok"), "handler");
    node.rpc_msg(request(5), "callback", false);
    assert_eq!(
        name_of(node.handle(&header("read_ok", None, Some(5)))),
        Some(("handler", "handler"))
    );
    // The callback was not used up.
    assert_eq!(
        name_of(node.handle(&header("write_ok", None, Some(5)))),
        Some(("callback", "callback"))
    );
}

#[test]
fn a_later_callback_for_the_same_id_replaces_the_earlier() {
    let mut node = started();
    node.rpc_msg(request(5), "first", false);
    node.rpc_msg(request(5), "second", false);
    assert_eq!(
        name_of(node.handle(&header("read_ok", None, Some(5)))),
        Some(("callback", "second"))
    );
    assert!(name_of(node.handle(&header("read_ok", None, Some(5)))).is_none());
}

#[test]
fn requests_are_resent_only_when_enrolled_and_until_answered() {
    let mut node = started();
    node.rpc_msg(request(5), "five", true);
    node.rpc_msg(request(6), "six", false);
    node.rpc_msg(request(7), "seven", true);
    assert_eq!(node.take_outbox(), vec![request(5), request(6), request(7)]);

    node.resend_unconfirmed();
    assert_eq!(node.take_outbox(), vec![request(5), request(7)]);
    node.resend_unconfirmed();
    assert_eq!(node.take_outbox(), vec![request(5), request(7)]);

    assert_eq!(name_of(node.handle(&header("read_ok", None, Some(5)))), Some(("callback", "five")));
    node.resend_unconfirmed();
    assert_eq!(node.take_outbox(), vec![request(7)]);

    assert_eq!(name_of(node.handle(&header("read_ok", None, Some(7)))), Some(("callback", "seven")));
    node.resend_unconfirmed();
    assert!(node.take_outbox().is_empty());
}

#[test]
fn the_outbox_keeps_the_order_of_sending() {
    let mut node = started();
    node.send_msg(request(1));
    node.send_msg(request(2));
    node.send_msg(request(3));
    assert_eq!(node.take_outbox(), vec![request(1), request(2), request(3)]);
    assert!(node.take_outbox().is_empty());
}

#[test]
fn the_state_can_be_put_in_and_taken_out() {
    let node: TestNode = Node::new();
    let mut node = node.with_state(3);
    assert_eq!(node.state, Some(3));
    assert_eq!(node.state_ref(), Some(&3));
    assert_eq!(node.take_state(), Some(3));
    assert_eq!(node.take_state(), None);
    node.set_state(9);
    assert_eq!(node.state, Some(9));
}

#[test]
fn reply_tags_end_in_ok() {
    assert!(ends_with_ok("ok"));
    assert!(ends_with_ok("read_ok"));
    assert!(ends_with_ok("init_ok"));
    assert!(ends_with_ok("book"));
    assert!(ends_with_ok("éok"));
    assert!(!ends_with_ok(""));
    assert!(!ends_with_ok("k"));
    assert!(!ends_with_ok("o"));
    assert!(!ends_with_ok("okay"));
    assert!(!ends_with_ok("read_OK"));
    assert!(!ends_with_ok("ko"));
    assert!(!ends_with_ok("error"));
}

#[test]
fn the_header_of_a_message_keeps_endpoints_and_ids() {
    let msg = Message { src: s("a"), dest: s("b"), body: header("cas_ok", Some(4), Some(3)) };
    let common = msg.to_common_message();
    assert_eq!(common, msg);
    assert_eq!(msg.duplicate(), msg);
}

#[test]
fn list_helpers() {
    let list = vec![s("n1"), s("n2"), s("n1")];
    assert_eq!(duplicate_names(&list), list);
    assert!(contains_name(&list, &s("n2")));
    assert!(!contains_name(&list, &s("n3")));
    assert!(!contains_name(&vec![], &s("n1")));
    let values = vec![3, -1, 3];
    assert_eq!(duplicate_values(&values), values);
    assert!(contains_value(&values, -1));
    assert!(!contains_value(&values, 0));
    assert!(!contains_value(&vec![], 0));
}
