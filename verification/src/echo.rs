//! The echo service: whatever a client sends comes back unchanged.

use crate::messages::echo::{EchoBody, EchoOkBody};
use crate::messages::{Message, MsgId, Payload};
use crate::node::Node;
use vstd::prelude::*;

verus! {

/// The payloads of the echo service.
#[derive(Debug, Clone, PartialEq, Eq)]
pub enum Body {
    Echo(EchoBody),
    EchoOk(EchoOkBody),
}

impl View for Body {
    type V = Body;

    open spec fn view(&self) -> Body {
        *self
    }
}

impl Payload for Body {
    open spec fn tag(&self) -> Seq<char> {
        match self {
            Body::Echo(_) => "echo"@,
            Body::EchoOk(_) => "echo_ok"@,
        }
    }

    open spec fn request_id(&self) -> Option<MsgId> {
        match self {
            Body::Echo(body) => Some(body.msg_id),
            Body::EchoOk(body) => Some(body.msg_id),
        }
    }

    open spec fn reply_to(&self) -> Option<MsgId> {
        match self {
            Body::Echo(_) => None,
            Body::EchoOk(body) => Some(body.in_reply_to),
        }
    }

    fn type_tag(&self) -> (t: String) {
        match self {
            Body::Echo(_) => "echo".to_owned(),
            Body::EchoOk(_) => "echo_ok".to_owned(),
        }
    }

    fn msg_id(&self) -> (id: Option<MsgId>) {
        match self {
            Body::Echo(body) => Some(body.msg_id),
            Body::EchoOk(body) => Some(body.msg_id),
        }
    }

    fn in_reply_to(&self) -> (id: Option<MsgId>) {
        match self {
            Body::Echo(_) => None,
            Body::EchoOk(body) => Some(body.in_reply_to),
        }
    }

    fn duplicate(&self) -> (copy: Self) {
        match self {
            Body::Echo(body) => Body::Echo(
                EchoBody { msg_id: body.msg_id, echo: body.echo.clone() },
            ),
            Body::EchoOk(body) => Body::EchoOk(
                EchoOkBody {
                    msg_id: body.msg_id,
                    in_reply_to: body.in_reply_to,
                    echo: body.echo.clone(),
                },
            ),
        }
    }
}

/// Handles an echo request: replies, under a fresh message id, with the
/// value that the request carried.
pub fn handle<H>(node: &mut Node<(), Body, H>, msg: Message<Body>)
    requires
        msg.body is Echo,
        old(node).initialized(),
        old(node).last_msg_id() < u32::MAX,
    ensures
        final(node).outbox().len() == old(node).outbox().len() + 1,
        final(node).outbox().drop_last() == old(node).outbox(),
        final(node).outbox().last().src@ == msg.dest@,
        final(node).outbox().last().dest@ == msg.src@,
        final(node).outbox().last().body == Body::EchoOk(
            EchoOkBody {
                msg_id: (old(node).last_msg_id() + 1) as MsgId,
                in_reply_to: msg.body->Echo_0.msg_id,
                echo: msg.body->Echo_0.echo,
            },
        ),
        final(node).last_msg_id() == old(node).last_msg_id() + 1,
        final(node).initialized(),
        final(node).id() == old(node).id(),
        final(node).peers() == old(node).peers(),
        final(node).same_tables(old(node)),
        final(node).app_state() == old(node).app_state(),
{
    let Message { src, dest, body } = msg;
    match body {
        Body::Echo(EchoBody { echo, msg_id }) => {
            let body = Body::EchoOk(
                EchoOkBody { msg_id: node.next_msg_id(), in_reply_to: msg_id, echo },
            );
            node.send_msg(Message { body, src: dest, dest: src });
        },
        _ => {},
    }
}

} // verus!
