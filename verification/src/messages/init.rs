use crate::messages::{names, Message, MsgId, Payload};
use crate::node::Node;
use vstd::prelude::*;

verus! {

/// The handshake: the node learns its own id and the ids of all nodes.
#[derive(Debug, Clone, PartialEq, Eq)]
pub enum InitBody {
    Init { msg_id: MsgId, node_id: String, node_ids: Vec<String> },
}

/// Acknowledges the handshake.
#[derive(Debug, Clone, Copy, PartialEq, Eq)]
pub enum InitOkBody {
    InitOk { msg_id: MsgId, in_reply_to: MsgId },
}

/// Performs the handshake on `node` without drawing on its message-id
/// counter: the acknowledgment is numbered one above the request.
pub fn handle<S, B: Payload, H>(node: &mut Node<S, B, H>, req: Message<InitBody>) -> (reply: Option<
    Message<InitOkBody>,
>)
    requires
        !old(node).initialized(),
        req.body->msg_id < u32::MAX,
    ensures
        final(node).initialized(),
        final(node).id() == req.body->node_id@,
        final(node).peers() == names(req.body->node_ids@),
        final(node).last_msg_id() == 0,
        final(node).same_tables(old(node)),
        final(node).outbox() == old(node).outbox(),
        final(node).app_state() == old(node).app_state(),
        reply is Some,
        reply->0.src@ == req.dest@,
        reply->0.dest@ == req.src@,
        reply->0.body == (InitOkBody::InitOk {
            msg_id: (req.body->msg_id + 1) as MsgId,
            in_reply_to: req.body->msg_id,
        }),
{
    let Message { src, dest, body } = req;
    let InitBody::Init { msg_id, node_id, node_ids } = body;
    node.initialize(node_id, node_ids);
    let body = InitOkBody::InitOk { msg_id: msg_id + 1, in_reply_to: msg_id };
    Some(Message { src: dest, dest: src, body })
}

} // verus!
