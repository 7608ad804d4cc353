//! The node runtime: identity, message-id allocation, the handler table, the
//! one-shot callback table and the outbox.
//!
//! A [`Node`] never performs I/O. Whatever it wants sent is appended to its
//! outbox, which the caller drains with [`Node::take_outbox`] and writes
//! once it no longer holds the node.

use crate::messages::init::{InitBody, InitOkBody};
use crate::messages::{duplicate_names, names, CommonBody, Message, MessageView, MsgId, Payload};
use std::collections::HashMap;
use vstd::hash_map::StringHashMap;
use vstd::prelude::*;
use vstd::string::StrSliceExecFns;

verus! {

broadcast use vstd::std_specs::hash::group_hash_axioms;

pub type NodeId = String;

struct NodeConfig {
    node_id: NodeId,
    node_ids: Vec<NodeId>,
    internal_msg_id: MsgId,
}

enum NodeState {
    Uninitialized,
    Initialized(NodeConfig),
}

/// What to do with an incoming message.
pub enum Dispatch<'a, H> {
    /// Run the handler registered for the message's type.
    Handler(&'a H),
    /// Run this callback; it has been removed from the table and will not
    /// fire again.
    Callback(H),
    /// Nothing is registered for the message: drop it.
    Unknown,
}

/// The mathematical values of a list of messages.
pub open spec fn views<B: View>(msgs: Seq<Message<B>>) -> Seq<MessageView<B::V>> {
    Seq::new(msgs.len(), |i: int| msgs[i]@)
}

/// Whether a type tag names a reply, that is, ends in `ok`.
pub open spec fn is_reply_tag(t: Seq<char>) -> bool {
    t.len() >= 2 && t[t.len() - 2] == 'o' && t[t.len() - 1] == 'k'
}

/// Whether a message is a reply: its type ends in `ok`, or it names the
/// request it answers.
pub open spec fn denotes_reply(t: Seq<char>, in_reply_to: Option<MsgId>) -> bool {
    is_reply_tag(t) || in_reply_to is Some
}

/// The requests of `msgs` that a reply to `id` does not acknowledge.
pub open spec fn without_request<B: Payload>(msgs: Seq<Message<B>>, id: MsgId) -> Seq<Message<B>> {
    msgs.filter(|m: Message<B>| m.body.request_id() != Some(id))
}

/// A node of the system. `S` is the application state it carries, `B` the
/// payload type of its messages and `H` whatever the application uses to
/// name a handler.
#[verifier::reject_recursive_types(S)]
#[verifier::reject_recursive_types(B)]
#[verifier::reject_recursive_types(H)]
pub struct Node<S, B = CommonBody, H = ()> {
    handlers: StringHashMap<H>,
    node_state: NodeState,
    pub state: Option<S>,
    callbacks: HashMap<MsgId, H>,
    unconfirmed_msgs: Vec<Message<B>>,
    outbox: Vec<Message<B>>,
}

impl<S, B: Payload, H> Node<S, B, H> {
    /// Whether the handshake has taken place.
    pub closed spec fn initialized(&self) -> bool {
        self.node_state is Initialized
    }

    /// This node's id. Meaningful once initialized.
    pub closed spec fn id(&self) -> Seq<char> {
        self.node_state->Initialized_0.node_id@
    }

    /// The ids of all nodes, as given by the handshake.
    pub closed spec fn peers(&self) -> Seq<Seq<char>> {
        names(self.node_state->Initialized_0.node_ids@)
    }

    /// The last message id this node issued; 0 when it has issued none.
    pub closed spec fn last_msg_id(&self) -> MsgId {
        self.node_state->Initialized_0.internal_msg_id
    }

    /// The handler registered for each message type.
    pub closed spec fn handlers(&self) -> Map<Seq<char>, H> {
        self.handlers@
    }

    /// The callback waiting for the reply to each outstanding request.
    pub closed spec fn callbacks(&self) -> Map<MsgId, H> {
        self.callbacks@
    }

    /// The requests enrolled for resending, oldest first.
    pub closed spec fn unconfirmed(&self) -> Seq<Message<B>> {
        self.unconfirmed_msgs@
    }

    /// The application state the node carries, if any.
    pub closed spec fn app_state(&self) -> Option<S> {
        self.state
    }

    /// The messages waiting to be written, oldest first.
    pub closed spec fn outbox(&self) -> Seq<Message<B>> {
        self.outbox@
    }

    /// `self` and `other` have the same identity and message-id counter.
    pub open spec fn same_identity(&self, other: &Self) -> bool {
        &&& self.initialized() == other.initialized()
        &&& self.initialized() ==> {
            &&& self.id() == other.id()
            &&& self.peers() == other.peers()
            &&& self.last_msg_id() == other.last_msg_id()
        }
    }

    /// `self` is initialized as `other` is, under the same name and with the
    /// same peers; the message-id counter may differ.
    pub open spec fn same_name(&self, other: &Self) -> bool {
        &&& self.initialized() == other.initialized()
        &&& self.initialized() ==> self.id() == other.id() && self.peers() == other.peers()
    }

    /// `self` and `other` have the same handlers, callbacks and enrolled
    /// requests.
    pub open spec fn same_tables(&self, other: &Self) -> bool {
        &&& self.handlers() == other.handlers()
        &&& self.callbacks() == other.callbacks()
        &&& self.unconfirmed() == other.unconfirmed()
    }

    /// A node that has not been initialized, with nothing registered,
    /// nothing outstanding and no application state.
    pub fn new() -> (node: Self)
        ensures
            !node.initialized(),
            node.app_state() is None,
            node.handlers() == Map::<Seq<char>, H>::empty(),
            node.callbacks() == Map::<MsgId, H>::empty(),
            node.unconfirmed() == Seq::<Message<B>>::empty(),
            node.outbox() == Seq::<Message<B>>::empty(),
    {
        Node {
            handlers: StringHashMap::new(),
            node_state: NodeState::Uninitialized,
            state: None,
            callbacks: HashMap::new(),
            unconfirmed_msgs: Vec::new(),
            outbox: Vec::new(),
        }
    }

    fn config(&self) -> (config: Option<&NodeConfig>)
        ensures
            config is Some == self.node_state is Initialized,
            config is Some ==> *config->0 == self.node_state->Initialized_0,
    {
        match &self.node_state {
            NodeState::Initialized(config) => Some(config),
            NodeState::Uninitialized => None,
        }
    }

    pub fn is_init(&self) -> (init: bool)
        ensures
            init == self.initialized(),
    {
        match self.node_state {
            NodeState::Uninitialized => false,
            NodeState::Initialized(_) => true,
        }
    }

    /// Sets the node's identity. This happens once.
    pub fn initialize(&mut self, node_id: NodeId, node_ids: Vec<NodeId>)
        requires
            !old(self).initialized(),
        ensures
            final(self).initialized(),
            final(self).id() == node_id@,
            final(self).peers() == names(node_ids@),
            final(self).last_msg_id() == 0,
            final(self).same_tables(old(self)),
            final(self).outbox() == old(self).outbox(),
            final(self).app_state() == old(self).app_state(),
    {
        self.node_state = NodeState::Initialized(
            NodeConfig { node_id, node_ids, internal_msg_id: 0 },
        );
    }

    pub fn node_id(&self) -> (id: &NodeId)
        requires
            self.initialized(),
        ensures
            id@ == self.id(),
    {
        &self.config().unwrap().node_id
    }

    pub fn node_ids(&self) -> (ids: &Vec<NodeId>)
        requires
            self.initialized(),
        ensures
            names(ids@) == self.peers(),
    {
        &self.config().unwrap().node_ids
    }

    /// How many more message ids this node can issue.
    pub fn msg_ids_left(&self) -> (left: MsgId)
        requires
            self.initialized(),
        ensures
            left == u32::MAX - self.last_msg_id(),
    {
        match &self.node_state {
            NodeState::Initialized(config) => u32::MAX - config.internal_msg_id,
            NodeState::Uninitialized => 0,
        }
    }

    /// Issues a message id greater than every id issued before.
    pub fn next_msg_id(&mut self) -> (id: MsgId)
        requires
            old(self).initialized(),
            old(self).last_msg_id() < u32::MAX,
        ensures
            id == old(self).last_msg_id() + 1,
            final(self).last_msg_id() == id,
            final(self).initialized(),
            final(self).id() == old(self).id(),
            final(self).peers() == old(self).peers(),
            final(self).same_tables(old(self)),
            final(self).outbox() == old(self).outbox(),
            final(self).app_state() == old(self).app_state(),
    {
        match &mut self.node_state {
            NodeState::Initialized(config) => {
                config.internal_msg_id = config.internal_msg_id + 1;
                config.internal_msg_id
            },
            NodeState::Uninitialized => 0,
        }
    }

    /// Performs the handshake: takes the identity that `req` assigns and
    /// returns the acknowledgment, which carries the node's first message id.
    pub fn try_init(&mut self, req: Message<InitBody>) -> (reply: Message<InitOkBody>)
        requires
            !old(self).initialized(),
        ensures
            final(self).initialized(),
            final(self).id() == req.body->node_id@,
            final(self).peers() == names(req.body->node_ids@),
            final(self).last_msg_id() == 1,
            final(self).same_tables(old(self)),
            final(self).outbox() == old(self).outbox(),
            final(self).app_state() == old(self).app_state(),
            reply.src@ == req.dest@,
            reply.dest@ == req.src@,
            reply.body == (InitOkBody::InitOk { msg_id: 1, in_reply_to: req.body->msg_id }),
    {
        let Message { src, dest, body } = req;
        let InitBody::Init { msg_id, node_id, node_ids } = body;
        self.initialize(node_id, node_ids);
        let body = InitOkBody::InitOk { msg_id: self.next_msg_id(), in_reply_to: msg_id };
        Message { src: dest, dest: src, body }
    }

    /// Registers `handler` for messages of type `t`. A handler registered
    /// earlier for the same type is replaced.
    pub fn add_handler(&mut self, t: String, handler: H)
        ensures
            final(self).handlers() == old(self).handlers().insert(t@, handler),
            final(self).callbacks() == old(self).callbacks(),
            final(self).unconfirmed() == old(self).unconfirmed(),
            final(self).same_identity(old(self)),
            final(self).outbox() == old(self).outbox(),
            final(self).app_state() == old(self).app_state(),
    {
        self.handlers.insert(t, handler);
    }

    /// Decides what an incoming message is for, from its header alone.
    ///
    /// A handler registered for the message's type wins. Otherwise, when the
    /// message is a reply and a callback waits for the request it answers,
    /// that callback is handed out and removed, and the request it belongs
    /// to is no longer resent. Anything else is unknown, and leaves the node
    /// as it was.
    pub fn handle(&mut self, header: &CommonBody) -> (decision: Dispatch<'_, H>)
        ensures
            final(self).same_identity(old(self)),
            final(self).handlers() == old(self).handlers(),
            final(self).outbox() == old(self).outbox(),
            final(self).app_state() == old(self).app_state(),
            old(self).handlers().contains_key(header.t@) ==> {
                &&& decision == Dispatch::Handler(&old(self).handlers()[header.t@])
                &&& final(self).same_tables(old(self))
            },
            !old(self).handlers().contains_key(header.t@) && denotes_reply(
                header.t@,
                header.in_reply_to,
            ) && header.in_reply_to is Some && old(self).callbacks().contains_key(
                header.in_reply_to->0,
            ) ==> {
                &&& decision == Dispatch::<H>::Callback(
                    old(self).callbacks()[header.in_reply_to->0],
                )
                &&& final(self).callbacks() == old(self).callbacks().remove(header.in_reply_to->0)
                &&& final(self).unconfirmed() == without_request(
                    old(self).unconfirmed(),
                    header.in_reply_to->0,
                )
            },
            !old(self).handlers().contains_key(header.t@) && !(denotes_reply(
                header.t@,
                header.in_reply_to,
            ) && header.in_reply_to is Some && old(self).callbacks().contains_key(
                header.in_reply_to->0,
            )) ==> {
                &&& decision is Unknown
                &&& final(self).same_tables(old(self))
            },
    {
        if self.handlers.contains_key(header.t.as_str()) {
            match self.handlers.get(header.t.as_str()) {
                Some(handler) => Dispatch::Handler(handler),
                None => Dispatch::Unknown,
            }
        } else if ends_with_ok(header.t.as_str()) || header.in_reply_to.is_some() {
            match header.in_reply_to {
                Some(in_reply_to) => {
                    let removed = self.callbacks.remove(&in_reply_to);
                    match removed {
                        Some(callback) => {
                            drop_request(&mut self.unconfirmed_msgs, in_reply_to);
                            Dispatch::Callback(callback)
                        },
                        None => {
                            assert(self.callbacks@ =~= old(self).callbacks@);
                            Dispatch::Unknown
                        },
                    }
                },
                None => Dispatch::Unknown,
            }
        } else {
            Dispatch::Unknown
        }
    }

    /// Queues `msg` for sending.
    pub fn send_msg(&mut self, msg: Message<B>)
        ensures
            final(self).outbox() == old(self).outbox().push(msg),
            final(self).same_identity(old(self)),
            final(self).same_tables(old(self)),
            final(self).app_state() == old(self).app_state(),
    {
        self.outbox.push(msg);
    }

    /// Sends the request `msg` and registers `on_reply` for its reply. A
    /// callback already waiting on the same id is replaced. With `retry`
    /// set, a copy of the request is enrolled for resending until its reply
    /// arrives; otherwise it is sent once.
    pub fn rpc_msg(&mut self, msg: Message<B>, on_reply: H, retry: bool)
        requires
            msg.body.request_id() is Some,
        ensures
            final(self).callbacks() == old(self).callbacks().insert(
                msg.body.request_id()->0,
                on_reply,
            ),
            final(self).outbox() == old(self).outbox().push(msg),
            !retry ==> final(self).unconfirmed() == old(self).unconfirmed(),
            retry ==> {
                &&& final(self).unconfirmed().len() == old(self).unconfirmed().len() + 1
                &&& final(self).unconfirmed().drop_last() == old(self).unconfirmed()
                &&& final(self).unconfirmed().last()@ == msg@
                &&& final(self).unconfirmed().last().body.request_id() == msg.body.request_id()
            },
            final(self).handlers() == old(self).handlers(),
            final(self).same_identity(old(self)),
            final(self).app_state() == old(self).app_state(),
    {
        match msg.body.msg_id() {
            Some(msg_id) => {
                self.callbacks.insert(msg_id, on_reply);
                if retry {
                    let copy = msg.duplicate();
                    self.unconfirmed_msgs.push(copy);
                }
                self.outbox.push(msg);
            },
            None => {},
        }
    }

    /// Queues a copy of every enrolled request for sending again, oldest
    /// first. The enrolment itself does not change.
    pub fn resend_unconfirmed(&mut self)
        ensures
            views(final(self).outbox()) == views(old(self).outbox()) + views(
                old(self).unconfirmed(),
            ),
            final(self).same_identity(old(self)),
            final(self).same_tables(old(self)),
            final(self).app_state() == old(self).app_state(),
    {
        let mut i: usize = 0;
        while i < self.unconfirmed_msgs.len()
            invariant
                i <= self.unconfirmed_msgs.len(),
                self.unconfirmed_msgs == old(self).unconfirmed_msgs,
                self.handlers == old(self).handlers,
                self.callbacks == old(self).callbacks,
                self.node_state == old(self).node_state,
                self.state == old(self).state,
                views(self.outbox@) == views(old(self).outbox@) + views(
                    old(self).unconfirmed_msgs@.take(i as int),
                ),
            decreases self.unconfirmed_msgs.len() - i,
        {
            let copy = self.unconfirmed_msgs[i].duplicate();
            let ghost before = self.outbox@;
            self.outbox.push(copy);
            assert(views(self.outbox@) =~= views(before).push(copy@));
            i += 1;
        }
    }

    /// Hands over everything queued for sending, oldest first, and leaves
    /// the outbox empty.
    pub fn take_outbox(&mut self) -> (msgs: Vec<Message<B>>)
        ensures
            msgs@ == old(self).outbox(),
            final(self).outbox() == Seq::<Message<B>>::empty(),
            final(self).same_identity(old(self)),
            final(self).same_tables(old(self)),
            final(self).app_state() == old(self).app_state(),
    {
        let mut msgs: Vec<Message<B>> = Vec::new();
        std::mem::swap(&mut msgs, &mut self.outbox);
        msgs
    }

    /// Takes the application state out of the node, leaving none behind.
    pub fn take_state(&mut self) -> (state: Option<S>)
        ensures
            state == old(self).app_state(),
            final(self).app_state() is None,
            final(self).same_identity(old(self)),
            final(self).same_tables(old(self)),
            final(self).outbox() == old(self).outbox(),
    {
        let mut state: Option<S> = None;
        std::mem::swap(&mut state, &mut self.state);
        state
    }

    /// Puts `state` into the node, replacing what it carried.
    pub fn set_state(&mut self, state: S)
        ensures
            final(self).app_state() == Some(state),
            final(self).same_identity(old(self)),
            final(self).same_tables(old(self)),
            final(self).outbox() == old(self).outbox(),
    {
        self.state = Some(state);
    }

    /// The application state the node carries.
    pub fn state_ref(&self) -> (state: Option<&S>)
        ensures
            state is Some == self.app_state() is Some,
            state is Some ==> *state->0 == self.app_state()->0,
    {
        self.state.as_ref()
    }

    /// The same node carrying `state`.
    pub fn with_state(self, state: S) -> (node: Self)
        ensures
            node.app_state() == Some(state),
            node.same_identity(&self),
            node.same_tables(&self),
            node.outbox() == self.outbox(),
    {
        let mut node = self;
        node.state = Some(state);
        node
    }
}

/// Whether `t` ends in `ok`.
pub fn ends_with_ok(t: &str) -> (reply: bool)
    ensures
        reply == is_reply_tag(t@),
{
    let n = t.unicode_len();
    n >= 2 && t.get_char(n - 2) == 'o' && t.get_char(n - 1) == 'k'
}

/// Removes from `msgs` every request with the id `id`.
fn drop_request<B: Payload>(msgs: &mut Vec<Message<B>>, id: MsgId)
    ensures
        final(msgs)@ == without_request(old(msgs)@, id),
{
    let ghost all = msgs@;
    let ghost mut done: int = 0;
    let mut i: usize = 0;
    assert(without_request(all.take(0), id) =~= Seq::<Message<B>>::empty()) by {
        reveal(Seq::filter);
    }
    while i < msgs.len()
        invariant
            0 <= done <= all.len(),
            i <= msgs.len(),
            msgs@.take(i as int) == without_request(all.take(done), id),
            msgs@.skip(i as int) == all.skip(done),
        decreases msgs.len() - i,
    {
        proof {
            assert(all.skip(done).len() == msgs@.skip(i as int).len());
            assert(msgs@[i as int] == msgs@.skip(i as int)[0]);
            assert(all.take(done + 1).drop_last() == all.take(done));
            assert(all.skip(done).skip(1) =~= all.skip(done + 1));
            reveal(Seq::filter);
        }
        if msgs[i].body.msg_id() == Some(id) {
            msgs.remove(i);
        } else {
            i += 1;
        }
        proof {
            done = done + 1;
        }
    }
    assert(all.take(done) == all);
}

} // verus!
