//! The grow-only counter: clients add to it at any node, and every node
//! folds what it was given into one total kept by a sequentially consistent
//! key-value service.

use crate::messages::error::ErrorBody;
use crate::messages::{Message, MsgId, Payload};
use crate::node::Node;
use vstd::prelude::*;

verus! {

/// The amounts that are counted.
pub type Val = i32;

/// The name of the key-value service.
pub open spec fn seq_kv() -> Seq<char> {
    "seq-kv"@
}

/// The key under which the total is kept.
pub open spec fn total_key() -> Seq<char> {
    "val"@
}

/// The error code by which the key-value service says a key is missing.
pub const KEY_DOES_NOT_EXIST: u32 = 20;

/// The payloads of the counter and of its exchange with the key-value
/// service.
#[derive(Debug, Clone, PartialEq, Eq)]
pub enum Body {
    Add { msg_id: MsgId, delta: Val },
    AddOk { in_reply_to: MsgId },
    Read { msg_id: MsgId },
    ReadOk { value: Val, in_reply_to: MsgId },
    /// A read of the key-value service; on the wire it is a `read` too.
    ReadSeq { msg_id: MsgId, key: String },
    Write { msg_id: MsgId, key: String, value: Val },
    WriteOk { in_reply_to: MsgId },
    Cas { msg_id: MsgId, key: String, from: Val, to: Val },
    CasOk { in_reply_to: MsgId },
    Error(ErrorBody),
}

impl View for Body {
    type V = Body;

    open spec fn view(&self) -> Body {
        *self
    }
}

impl Payload for Body {
    open spec fn tag(&self) -> Seq<char> {
        match self {
            Body::Add { .. } => "add"@,
            Body::AddOk { .. } => "add_ok"@,
            Body::Read { .. } => "read"@,
            Body::ReadOk { .. } => "read_ok"@,
            Body::ReadSeq { .. } => "read"@,
            Body::Write { .. } => "write"@,
            Body::WriteOk { .. } => "write_ok"@,
            Body::Cas { .. } => "cas"@,
            Body::CasOk { .. } => "cas_ok"@,
            Body::Error(_) => "error"@,
        }
    }

    open spec fn request_id(&self) -> Option<MsgId> {
        match self {
            Body::Add { msg_id, .. } => Some(*msg_id),
            Body::Read { msg_id } => Some(*msg_id),
            Body::ReadSeq { msg_id, .. } => Some(*msg_id),
            Body::Write { msg_id, .. } => Some(*msg_id),
            Body::Cas { msg_id, .. } => Some(*msg_id),
            _ => None,
        }
    }

    open spec fn reply_to(&self) -> Option<MsgId> {
        match self {
            Body::AddOk { in_reply_to } => Some(*in_reply_to),
            Body::ReadOk { in_reply_to, .. } => Some(*in_reply_to),
            Body::WriteOk { in_reply_to } => Some(*in_reply_to),
            Body::CasOk { in_reply_to } => Some(*in_reply_to),
            Body::Error(body) => Some(body.in_reply_to),
            _ => None,
        }
    }

    fn type_tag(&self) -> (t: String) {
        match self {
            Body::Add { .. } => "add".to_owned(),
            Body::AddOk { .. } => "add_ok".to_owned(),
            Body::Read { .. } => "read".to_owned(),
            Body::ReadOk { .. } => "read_ok".to_owned(),
            Body::ReadSeq { .. } => "read".to_owned(),
            Body::Write { .. } => "write".to_owned(),
            Body::WriteOk { .. } => "write_ok".to_owned(),
            Body::Cas { .. } => "cas".to_owned(),
            Body::CasOk { .. } => "cas_ok".to_owned(),
            Body::Error(_) => "error".to_owned(),
        }
    }

    fn msg_id(&self) -> (id: Option<MsgId>) {
        match self {
            Body::Add { msg_id, .. } => Some(*msg_id),
            Body::Read { msg_id } => Some(*msg_id),
            Body::ReadSeq { msg_id, .. } => Some(*msg_id),
            Body::Write { msg_id, .. } => Some(*msg_id),
            Body::Cas { msg_id, .. } => Some(*msg_id),
            _ => None,
        }
    }

    fn in_reply_to(&self) -> (id: Option<MsgId>) {
        match self {
            Body::AddOk { in_reply_to } => Some(*in_reply_to),
            Body::ReadOk { in_reply_to, .. } => Some(*in_reply_to),
            Body::WriteOk { in_reply_to } => Some(*in_reply_to),
            Body::CasOk { in_reply_to } => Some(*in_reply_to),
            Body::Error(body) => Some(body.in_reply_to),
            _ => None,
        }
    }

    fn duplicate(&self) -> (copy: Self) {
        match self {
            Body::Add { msg_id, delta } => Body::Add { msg_id: *msg_id, delta: *delta },
            Body::AddOk { in_reply_to } => Body::AddOk { in_reply_to: *in_reply_to },
            Body::Read { msg_id } => Body::Read { msg_id: *msg_id },
            Body::ReadOk { value, in_reply_to } => Body::ReadOk {
                value: *value,
                in_reply_to: *in_reply_to,
            },
            Body::ReadSeq { msg_id, key } => Body::ReadSeq { msg_id: *msg_id, key: key.clone() },
            Body::Write { msg_id, key, value } => Body::Write {
                msg_id: *msg_id,
                key: key.clone(),
                value: *value,
            },
            Body::WriteOk { in_reply_to } => Body::WriteOk { in_reply_to: *in_reply_to },
            Body::Cas { msg_id, key, from, to } => Body::Cas {
                msg_id: *msg_id,
                key: key.clone(),
                from: *from,
                to: *to,
            },
            Body::CasOk { in_reply_to } => Body::CasOk { in_reply_to: *in_reply_to },
            Body::Error(body) => Body::Error(
                ErrorBody {
                    in_reply_to: body.in_reply_to,
                    code: body.code,
                    text: body.text.clone(),
                },
            ),
        }
    }
}

/// What a node knows of the counter.
#[derive(Debug, Clone, Copy, PartialEq, Eq)]
pub struct State {
    /// The total as the node last saw it.
    pub value: Val,
    /// What clients added here and the total does not hold yet.
    pub acc_delta: Val,
    /// The part of `acc_delta` that the node is trying to add to the total.
    pub syncing_delta: Val,
}

/// Whether `n` can be held by a [`Val`].
pub open spec fn fits(n: int) -> bool {
    i32::MIN <= n <= i32::MAX
}

/// `after` has one message more in its outbox than `before`: one from
/// `src` to `dest`.
pub open spec fn has_sent_one<H>(
    after: &Node<State, Body, H>,
    before: &Node<State, Body, H>,
    src: Seq<char>,
    dest: Seq<char>,
) -> bool {
    &&& after.outbox().len() == before.outbox().len() + 1
    &&& after.outbox().drop_last() == before.outbox()
    &&& after.outbox().last().src@ == src
    &&& after.outbox().last().dest@ == dest
}

/// Whether `name` is the key-value service.
fn is_seq_kv(name: &String) -> (yes: bool)
    ensures
        yes == (name@ == seq_kv()),
{
    let service = "seq-kv".to_owned();
    *name == service
}

/// Handles a client's add: the amount joins what awaits synchronisation.
pub fn handle_add<H>(node: &mut Node<State, Body, H>, msg: Message<Body>)
    requires
        msg.body is Add,
        old(node).app_state() is Some,
        fits(old(node).app_state()->0.acc_delta + msg.body->delta),
    ensures
        final(node).app_state() == Some(
            State {
                acc_delta: (old(node).app_state()->0.acc_delta + msg.body->delta) as Val,
                ..old(node).app_state()->0
            },
        ),
        has_sent_one(final(node), old(node), msg.dest@, msg.src@),
        final(node).outbox().last().body == (Body::AddOk { in_reply_to: msg.body->Add_msg_id }),
        final(node).same_identity(old(node)),
        final(node).same_tables(old(node)),
{
    let Message { src, dest, body } = msg;
    match body {
        Body::Add { msg_id, delta } => {
            let mut state = node.take_state().unwrap();
            state.acc_delta = state.acc_delta + delta;
            node.set_state(state);
            node.send_msg(Message { src: dest, dest: src, body: Body::AddOk { in_reply_to: msg_id } });
            assert(node.outbox().drop_last() =~= old(node).outbox());
        },
        _ => {},
    }
}

/// Handles a client's read: replies with the total as the node last saw it.
pub fn handle_read<H>(node: &mut Node<State, Body, H>, msg: Message<Body>)
    requires
        msg.body is Read,
        old(node).app_state() is Some,
    ensures
        final(node).app_state() == old(node).app_state(),
        has_sent_one(final(node), old(node), msg.dest@, msg.src@),
        final(node).outbox().last().body == (Body::ReadOk {
            value: old(node).app_state()->0.value,
            in_reply_to: msg.body->Read_msg_id,
        }),
        final(node).same_identity(old(node)),
        final(node).same_tables(old(node)),
{
    let Message { src, dest, body } = msg;
    match body {
        Body::Read { msg_id } => {
            let value = node.state_ref().unwrap().value;
            node.send_msg(
                Message { src: dest, dest: src, body: Body::ReadOk { value, in_reply_to: msg_id } },
            );
            assert(node.outbox().drop_last() =~= old(node).outbox());
        },
        _ => {},
    }
}

/// Handles the key-value service's answer to a read: the node takes over
/// the total it reports.
pub fn handle_read_ok_seq<H>(node: &mut Node<State, Body, H>, msg: Message<Body>)
    requires
        msg.body is ReadOk,
        msg.src@ == seq_kv(),
        old(node).app_state() is Some,
    ensures
        final(node).app_state() == Some(
            State { value: msg.body->ReadOk_value, ..old(node).app_state()->0 },
        ),
        final(node).outbox() == old(node).outbox(),
        final(node).same_identity(old(node)),
        final(node).same_tables(old(node)),
{
    match msg.body {
        Body::ReadOk { value, .. } => {
            let mut state = node.take_state().unwrap();
            state.value = value;
            node.set_state(state);
        },
        _ => {},
    }
}

/// Handles the key-value service's confirmation of a compare-and-swap: the
/// node adds what it had accumulated to the total it holds, and takes the
/// part it was synchronising out of what still awaits synchronisation.
pub fn handle_cas_ok_seq<H>(node: &mut Node<State, Body, H>, msg: Message<Body>)
    requires
        msg.body is CasOk,
        msg.src@ == seq_kv(),
        old(node).app_state() is Some,
        fits(old(node).app_state()->0.value + old(node).app_state()->0.acc_delta),
        fits(old(node).app_state()->0.acc_delta - old(node).app_state()->0.syncing_delta),
    ensures
        final(node).app_state() == Some(
            State {
                value: (old(node).app_state()->0.value + old(node).app_state()->0.acc_delta) as Val,
                acc_delta: (old(node).app_state()->0.acc_delta - old(
                    node,
                ).app_state()->0.syncing_delta) as Val,
                syncing_delta: 0,
            },
        ),
        final(node).outbox() == old(node).outbox(),
        final(node).same_identity(old(node)),
        final(node).same_tables(old(node)),
{
    let mut state = node.take_state().unwrap();
    state.value = state.value + state.acc_delta;
    state.acc_delta = state.acc_delta - state.syncing_delta;
    state.syncing_delta = 0;
    node.set_state(state);
}

/// Whether an error from the key-value service makes `node` create the
/// total: the key is missing and the node is `n0`.
pub open spec fn creates_total<H>(node: &Node<State, Body, H>, msg: Message<Body>) -> bool {
    msg.body->Error_0.code == KEY_DOES_NOT_EXIST && node.id() == "n0"@
}

/// Handles an error from the key-value service. When the key of the total
/// is missing, the node `n0` writes a total of zero; any other error, and
/// any error at another node, is passed over.
pub fn handle_error<H>(node: &mut Node<State, Body, H>, msg: Message<Body>)
    requires
        msg.body is Error,
        msg.src@ == seq_kv(),
        msg.body->Error_0.code == KEY_DOES_NOT_EXIST ==> old(node).initialized(),
        creates_total(old(node), msg) ==> old(node).last_msg_id() < u32::MAX,
    ensures
        final(node).app_state() == old(node).app_state(),
        final(node).same_tables(old(node)),
        final(node).same_name(old(node)),
        creates_total(old(node), msg) ==> {
            &&& has_sent_one(final(node), old(node), old(node).id(), seq_kv())
            &&& final(node).outbox().last().body is Write
            &&& final(node).outbox().last().body->Write_msg_id == old(node).last_msg_id() + 1
            &&& final(node).outbox().last().body->Write_key@ == total_key()
            &&& final(node).outbox().last().body->Write_value == 0
            &&& final(node).last_msg_id() == old(node).last_msg_id() + 1
        },
        !creates_total(old(node), msg) ==> {
            &&& final(node).outbox() == old(node).outbox()
            &&& final(node).same_identity(old(node))
        },
{
    match msg.body {
        Body::Error(ErrorBody { code, .. }) => {
            if code == KEY_DOES_NOT_EXIST {
                let first = "n0".to_owned();
                if *node.node_id() == first {
                    let src = node.node_id().clone();
                    let body = Body::Write {
                        msg_id: node.next_msg_id(),
                        key: "val".to_owned(),
                        value: 0,
                    };
                    node.send_msg(Message { src, dest: "seq-kv".to_owned(), body });
                    assert(node.outbox().drop_last() =~= old(node).outbox());
                }
            }
        },
        _ => {},
    }
}

/// Tries to add what has accumulated to the total: asks the key-value
/// service to swap the total the node last saw for that total plus the
/// accumulated amount. With nothing accumulated it does nothing.
pub fn sync_val<H>(node: &mut Node<State, Body, H>)
    requires
        old(node).app_state() is Some,
        old(node).app_state()->0.acc_delta != 0 ==> {
            &&& old(node).initialized()
            &&& old(node).last_msg_id() < u32::MAX
            &&& fits(old(node).app_state()->0.value + old(node).app_state()->0.acc_delta)
        },
    ensures
        final(node).same_tables(old(node)),
        final(node).same_name(old(node)),
        old(node).app_state()->0.acc_delta == 0 ==> {
            &&& final(node).app_state() == old(node).app_state()
            &&& final(node).outbox() == old(node).outbox()
            &&& final(node).same_identity(old(node))
        },
        old(node).app_state()->0.acc_delta != 0 ==> {
            let before = old(node).app_state()->0;
            &&& final(node).app_state() == Some(State { syncing_delta: before.acc_delta, ..before })
            &&& has_sent_one(final(node), old(node), old(node).id(), seq_kv())
            &&& final(node).outbox().last().body is Cas
            &&& final(node).outbox().last().body->Cas_msg_id == old(node).last_msg_id() + 1
            &&& final(node).outbox().last().body->Cas_key@ == total_key()
            &&& final(node).outbox().last().body->from == before.value
            &&& final(node).outbox().last().body->to == before.value + before.acc_delta
            &&& final(node).last_msg_id() == old(node).last_msg_id() + 1
        },
{
    let mut state = node.take_state().unwrap();
    if state.acc_delta == 0 {
        node.set_state(state);
        return ;
    }
    let delta = state.acc_delta;
    let value = state.value;
    state.syncing_delta = delta;
    node.set_state(state);
    let src = node.node_id().clone();
    let body = Body::Cas {
        msg_id: node.next_msg_id(),
        key: "val".to_owned(),
        from: value,
        to: value + delta,
    };
    node.send_msg(Message { src, dest: "seq-kv".to_owned(), body });
    assert(node.outbox().drop_last() =~= old(node).outbox());
}

/// Asks the key-value service for the total.
pub fn request_total<H>(node: &mut Node<State, Body, H>)
    requires
        old(node).initialized(),
        old(node).last_msg_id() < u32::MAX,
    ensures
        final(node).app_state() == old(node).app_state(),
        final(node).same_tables(old(node)),
        final(node).same_name(old(node)),
        has_sent_one(final(node), old(node), old(node).id(), seq_kv()),
        final(node).outbox().last().body is ReadSeq,
        final(node).outbox().last().body->ReadSeq_msg_id == old(node).last_msg_id() + 1,
        final(node).outbox().last().body->ReadSeq_key@ == total_key(),
        final(node).last_msg_id() == old(node).last_msg_id() + 1,
{
    let src = node.node_id().clone();
    let body = Body::ReadSeq { msg_id: node.next_msg_id(), key: "val".to_owned() };
    node.send_msg(Message { src, dest: "seq-kv".to_owned(), body });
    assert(node.outbox().drop_last() =~= old(node).outbox());
}

} // verus!
