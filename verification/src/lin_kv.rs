//! Requests to the linearizable key-value service that the log service
//! relies on. Each registers what is to happen when the service answers.

use crate::kafka::{has_sent_one, lin_kv, Body, BodyView, Handler, KafkaNode, Key, Val};
use crate::messages::{Message, MessageView, MsgId};
use vstd::prelude::*;

verus! {

/// `after` is `before` with the request `sent` in flight under a fresh
/// message id and `on_reply` waiting for its answer.
pub open spec fn has_asked(
    after: &KafkaNode,
    before: &KafkaNode,
    sent: BodyView,
    on_reply: Handler,
) -> bool {
    let id = (before.last_msg_id() + 1) as MsgId;
    &&& has_sent_one(after, before, MessageView { src: before.id(), dest: lin_kv(), body: sent })
    &&& after.last_msg_id() == id
    &&& after.callbacks() == before.callbacks().insert(id, on_reply)
    &&& after.handlers() == before.handlers()
    &&& after.unconfirmed() == before.unconfirmed()
    &&& after.app_state() == before.app_state()
    &&& after.same_name(before)
}

/// Asks the service to store `value` under `key`.
pub fn write(node: &mut KafkaNode, key: Key, value: Val, on_reply: Handler)
    requires
        old(node).initialized(),
        old(node).last_msg_id() < u32::MAX,
    ensures
        has_asked(
            final(node),
            old(node),
            BodyView::Write { msg_id: (old(node).last_msg_id() + 1) as MsgId, key: key@, value },
            on_reply,
        ),
{
    let src = node.node_id().clone();
    let body = Body::Write { msg_id: node.next_msg_id(), key, value };
    node.rpc_msg(Message { src, dest: "lin-kv".to_owned(), body }, on_reply, false);
    assert(node.outbox().drop_last() =~= old(node).outbox());
}

/// Asks the service for the value under `key`.
pub fn read(node: &mut KafkaNode, key: Key, on_reply: Handler)
    requires
        old(node).initialized(),
        old(node).last_msg_id() < u32::MAX,
    ensures
        has_asked(
            final(node),
            old(node),
            BodyView::Read { msg_id: (old(node).last_msg_id() + 1) as MsgId, key: key@ },
            on_reply,
        ),
{
    let src = node.node_id().clone();
    let body = Body::Read { msg_id: node.next_msg_id(), key };
    node.rpc_msg(Message { src, dest: "lin-kv".to_owned(), body }, on_reply, false);
    assert(node.outbox().drop_last() =~= old(node).outbox());
}

/// Asks the service to replace the value under `key` by `to`, provided it
/// is `from`.
pub fn cas(node: &mut KafkaNode, key: Key, from: Val, to: Val, on_reply: Handler)
    requires
        old(node).initialized(),
        old(node).last_msg_id() < u32::MAX,
    ensures
        has_asked(
            final(node),
            old(node),
            BodyView::Cas { msg_id: (old(node).last_msg_id() + 1) as MsgId, key: key@, from, to },
            on_reply,
        ),
{
    let src = node.node_id().clone();
    let body = Body::Cas { msg_id: node.next_msg_id(), key, from, to };
    node.rpc_msg(Message { src, dest: "lin-kv".to_owned(), body }, on_reply, false);
    assert(node.outbox().drop_last() =~= old(node).outbox());
}

} // verus!
