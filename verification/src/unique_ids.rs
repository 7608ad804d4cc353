//! The unique-id service: every request gets the node's name followed by a
//! number that the node hands out only once.

use crate::messages::generate::{GenerateBody, GenerateOkBody};
use crate::messages::{Message, MsgId, Payload};
use crate::node::Node;
use vstd::prelude::*;
use vstd::string::StringExecFns;

verus! {

/// How many ids the node has handed out.
pub struct State {
    pub count: u32,
}

/// The payloads of the unique-id service.
#[derive(Debug, Clone, PartialEq, Eq)]
pub enum Body {
    Generate(GenerateBody),
    GenerateOk(GenerateOkBody),
}

/// Mathematical value of a [`Body`].
pub enum BodyView {
    Generate { msg_id: MsgId },
    GenerateOk { in_reply_to: MsgId, id: Seq<char> },
}

impl View for Body {
    type V = BodyView;

    open spec fn view(&self) -> BodyView {
        match self {
            Body::Generate(body) => BodyView::Generate { msg_id: body.msg_id },
            Body::GenerateOk(body) => BodyView::GenerateOk {
                in_reply_to: body.in_reply_to,
                id: body.id@,
            },
        }
    }
}

impl Payload for Body {
    open spec fn tag(&self) -> Seq<char> {
        match self {
            Body::Generate(_) => "generate"@,
            Body::GenerateOk(_) => "generate_ok"@,
        }
    }

    open spec fn request_id(&self) -> Option<MsgId> {
        match self {
            Body::Generate(body) => Some(body.msg_id),
            Body::GenerateOk(_) => None,
        }
    }

    open spec fn reply_to(&self) -> Option<MsgId> {
        match self {
            Body::Generate(_) => None,
            Body::GenerateOk(body) => Some(body.in_reply_to),
        }
    }

    fn type_tag(&self) -> (t: String) {
        match self {
            Body::Generate(_) => "generate".to_owned(),
            Body::GenerateOk(_) => "generate_ok".to_owned(),
        }
    }

    fn msg_id(&self) -> (id: Option<MsgId>) {
        match self {
            Body::Generate(body) => Some(body.msg_id),
            Body::GenerateOk(_) => None,
        }
    }

    fn in_reply_to(&self) -> (id: Option<MsgId>) {
        match self {
            Body::Generate(_) => None,
            Body::GenerateOk(body) => Some(body.in_reply_to),
        }
    }

    fn duplicate(&self) -> (copy: Self) {
        match self {
            Body::Generate(body) => Body::Generate(GenerateBody { msg_id: body.msg_id }),
            Body::GenerateOk(body) => Body::GenerateOk(
                GenerateOkBody { in_reply_to: body.in_reply_to, id: body.id.clone() },
            ),
        }
    }
}

/// The decimal digit for `d`, which is below ten.
pub open spec fn digit(d: nat) -> char {
    if d == 0 {
        '0'
    } else if d == 1 {
        '1'
    } else if d == 2 {
        '2'
    } else if d == 3 {
        '3'
    } else if d == 4 {
        '4'
    } else if d == 5 {
        '5'
    } else if d == 6 {
        '6'
    } else if d == 7 {
        '7'
    } else if d == 8 {
        '8'
    } else {
        '9'
    }
}

/// `n` written in decimal, without leading zeros.
pub open spec fn decimal(n: nat) -> Seq<char>
    decreases n,
{
    if n < 10 {
        seq![digit(n)]
    } else {
        decimal(n / 10).push(digit(n % 10))
    }
}

fn digit_text(d: u32) -> (text: &'static str)
    requires
        d < 10,
    ensures
        text@ == seq![digit(d as nat)],
{
    proof {
        reveal_strlit("0");
        reveal_strlit("1");
        reveal_strlit("2");
        reveal_strlit("3");
        reveal_strlit("4");
        reveal_strlit("5");
        reveal_strlit("6");
        reveal_strlit("7");
        reveal_strlit("8");
        reveal_strlit("9");
    }
    let text = if d == 0 {
        "0"
    } else if d == 1 {
        "1"
    } else if d == 2 {
        "2"
    } else if d == 3 {
        "3"
    } else if d == 4 {
        "4"
    } else if d == 5 {
        "5"
    } else if d == 6 {
        "6"
    } else if d == 7 {
        "7"
    } else if d == 8 {
        "8"
    } else {
        "9"
    };
    text
}

/// Appends `n` in decimal to `text`.
fn append_decimal(text: &mut String, n: u32)
    ensures
        final(text)@ == old(text)@ + decimal(n as nat),
    decreases n,
{
    if n >= 10 {
        append_decimal(text, n / 10);
    }
    text.append(digit_text(n % 10));
    assert(text@ =~= old(text)@ + decimal(n as nat));
}

/// Handles a generate request: the id is the node's name followed by the
/// number of ids handed out before, in decimal.
pub fn handle<H>(node: &mut Node<State, Body, H>, msg: Message<Body>) -> (reply: Option<
    Message<Body>,
>)
    requires
        msg.body is Generate,
        old(node).initialized(),
        old(node).app_state() is Some,
        old(node).app_state()->0.count < u32::MAX,
    ensures
        reply is Some,
        reply->0@ == (crate::messages::MessageView {
            src: msg.dest@,
            dest: msg.src@,
            body: BodyView::GenerateOk {
                in_reply_to: msg.body->Generate_0.msg_id,
                id: old(node).id() + decimal(old(node).app_state()->0.count as nat),
            },
        }),
        final(node).app_state() == Some(
            State { count: (old(node).app_state()->0.count + 1) as u32 },
        ),
        final(node).same_identity(old(node)),
        final(node).same_tables(old(node)),
        final(node).outbox() == old(node).outbox(),
{
    let Message { src, dest, body } = msg;
    match body {
        Body::Generate(GenerateBody { msg_id }) => {
            let state = node.take_state().unwrap();
            let count = state.count;
            let mut id = node.node_id().clone();
            append_decimal(&mut id, count);
            node.set_state(State { count: count + 1 });
            let body = Body::GenerateOk(GenerateOkBody { in_reply_to: msg_id, id });
            Some(Message { body, src: dest, dest: src })
        },
        _ => None,
    }
}

} // verus!
