//! Gossip broadcast: every node learns every value that any node was asked
//! to broadcast, over a fixed graph of neighbours and an unreliable network.
//!
//! A node remembers the values it has seen, queues each newly learned value
//! for the neighbours that may not have it, sends each neighbour its queue
//! as one batch, and keeps every batch until the neighbour acknowledges it.

use crate::messages::broadcast::{BroadcastBody, BroadcastOkBody};
use crate::messages::read::{ReadBody, ReadOkBody};
use crate::messages::topology::{TopologyBody, TopologyOkBody};
use crate::messages::{
    contains_name, contains_value, duplicate_names, duplicate_values, names, Message, MessageView,
    MsgId, Payload,
};
use crate::node::{views, Node, NodeId};
use model::{
    acknowledge, has_topology, is_batch, is_flush, is_resend, neighbors, pending_for, queue,
    receive, topology_map, with_topology, inhabited, StateView,
};
use std::collections::HashMap;
use std::collections::HashSet;
use vstd::hash_map::StringHashMap;
use vstd::prelude::*;
use vstd::std_specs::iter::IteratorSpec;

pub mod convergence;
pub mod model;
pub mod theorems;

verus! {

broadcast use vstd::std_specs::hash::group_hash_axioms;

/// The values that are broadcast.
pub type Val = i32;

/// The payloads of the broadcast protocol.
#[derive(Debug, Clone, PartialEq, Eq)]
pub enum Body {
    Broadcast(BroadcastBody),
    BroadcastOk(BroadcastOkBody),
    Read(ReadBody),
    ReadOk(ReadOkBody),
    Topology(TopologyBody),
    TopologyOk(TopologyOkBody),
    /// Sent between nodes only: a batch of values, and the nodes that the
    /// sender knows to have them already.
    Propagate { msg_id: MsgId, values: Vec<Val>, known_nodes: Vec<NodeId> },
    PropagateOk { in_reply_to: MsgId },
}

/// Mathematical value of a [`Body`].
pub enum BodyView {
    Broadcast { msg_id: MsgId, message: Val },
    BroadcastOk { in_reply_to: MsgId },
    Read { msg_id: MsgId },
    ReadOk { in_reply_to: MsgId, msg_id: MsgId, messages: Seq<Val> },
    Topology { msg_id: MsgId, topology: Seq<(Seq<char>, Seq<Seq<char>>)> },
    TopologyOk { in_reply_to: MsgId, msg_id: MsgId },
    Propagate { msg_id: MsgId, values: Seq<Val>, known_nodes: Seq<Seq<char>> },
    PropagateOk { in_reply_to: MsgId },
}

/// The mathematical value of an adjacency list as it comes in a message.
pub open spec fn adjacency(entries: Seq<(NodeId, Vec<NodeId>)>) -> Seq<
    (Seq<char>, Seq<Seq<char>>),
> {
    Seq::new(entries.len(), |i: int| (entries[i].0@, names(entries[i].1@)))
}

impl View for Body {
    type V = BodyView;

    open spec fn view(&self) -> BodyView {
        match self {
            Body::Broadcast(BroadcastBody::Broadcast { msg_id, message }) => BodyView::Broadcast {
                msg_id: *msg_id,
                message: *message,
            },
            Body::BroadcastOk(BroadcastOkBody::BroadcastOk { in_reply_to }) => {
                BodyView::BroadcastOk { in_reply_to: *in_reply_to }
            },
            Body::Read(ReadBody::Read { msg_id }) => BodyView::Read { msg_id: *msg_id },
            Body::ReadOk(ReadOkBody::ReadOk { in_reply_to, msg_id, messages }) => BodyView::ReadOk {
                in_reply_to: *in_reply_to,
                msg_id: *msg_id,
                messages: messages@,
            },
            Body::Topology(TopologyBody::Topology { msg_id, topology }) => BodyView::Topology {
                msg_id: *msg_id,
                topology: adjacency(topology@),
            },
            Body::TopologyOk(TopologyOkBody::TopologyOk {
                in_reply_to,
                msg_id,
            }) => BodyView::TopologyOk {
                in_reply_to: *in_reply_to,
                msg_id: *msg_id,
            },
            Body::Propagate { msg_id, values, known_nodes } => BodyView::Propagate {
                msg_id: *msg_id,
                values: values@,
                known_nodes: names(known_nodes@),
            },
            Body::PropagateOk { in_reply_to } => BodyView::PropagateOk {
                in_reply_to: *in_reply_to,
            },
        }
    }
}

/// Copies an adjacency list.
fn duplicate_adjacency(entries: &Vec<(NodeId, Vec<NodeId>)>) -> (copy: Vec<(NodeId, Vec<NodeId>)>)
    ensures
        adjacency(copy@) == adjacency(entries@),
{
    let mut copy: Vec<(NodeId, Vec<NodeId>)> = Vec::new();
    let mut i: usize = 0;
    while i < entries.len()
        invariant
            i <= entries.len(),
            copy.len() == i,
            forall|j: int|
                0 <= j < i ==> copy[j].0@ == entries[j].0@ && names(copy[j].1@) == names(
                    entries[j].1@,
                ),
        decreases entries.len() - i,
    {
        let name = entries[i].0.clone();
        let adjacent = duplicate_names(&entries[i].1);
        copy.push((name, adjacent));
        i += 1;
    }
    copy
}

impl Payload for Body {
    open spec fn tag(&self) -> Seq<char> {
        match self {
            Body::Broadcast(_) => "broadcast"@,
            Body::BroadcastOk(_) => "broadcast_ok"@,
            Body::Read(_) => "read"@,
            Body::ReadOk(_) => "read_ok"@,
            Body::Topology(_) => "topology"@,
            Body::TopologyOk(_) => "topology_ok"@,
            Body::Propagate { .. } => "propagate"@,
            Body::PropagateOk { .. } => "propagate_ok"@,
        }
    }

    open spec fn request_id(&self) -> Option<MsgId> {
        match self {
            Body::Broadcast(BroadcastBody::Broadcast { msg_id, .. }) => Some(*msg_id),
            Body::BroadcastOk(_) => None,
            Body::Read(ReadBody::Read { msg_id }) => Some(*msg_id),
            Body::ReadOk(ReadOkBody::ReadOk { msg_id, .. }) => Some(*msg_id),
            Body::Topology(TopologyBody::Topology { msg_id, .. }) => Some(*msg_id),
            Body::TopologyOk(TopologyOkBody::TopologyOk { msg_id, .. }) => Some(*msg_id),
            Body::Propagate { msg_id, .. } => Some(*msg_id),
            Body::PropagateOk { .. } => None,
        }
    }

    open spec fn reply_to(&self) -> Option<MsgId> {
        match self {
            Body::BroadcastOk(BroadcastOkBody::BroadcastOk { in_reply_to }) => Some(*in_reply_to),
            Body::ReadOk(ReadOkBody::ReadOk { in_reply_to, .. }) => Some(*in_reply_to),
            Body::TopologyOk(TopologyOkBody::TopologyOk { in_reply_to, .. }) => Some(*in_reply_to),
            Body::PropagateOk { in_reply_to } => Some(*in_reply_to),
            _ => None,
        }
    }

    fn type_tag(&self) -> (t: String) {
        match self {
            Body::Broadcast(_) => "broadcast".to_owned(),
            Body::BroadcastOk(_) => "broadcast_ok".to_owned(),
            Body::Read(_) => "read".to_owned(),
            Body::ReadOk(_) => "read_ok".to_owned(),
            Body::Topology(_) => "topology".to_owned(),
            Body::TopologyOk(_) => "topology_ok".to_owned(),
            Body::Propagate { .. } => "propagate".to_owned(),
            Body::PropagateOk { .. } => "propagate_ok".to_owned(),
        }
    }

    fn msg_id(&self) -> (id: Option<MsgId>) {
        match self {
            Body::Broadcast(BroadcastBody::Broadcast { msg_id, .. }) => Some(*msg_id),
            Body::BroadcastOk(_) => None,
            Body::Read(ReadBody::Read { msg_id }) => Some(*msg_id),
            Body::ReadOk(ReadOkBody::ReadOk { msg_id, .. }) => Some(*msg_id),
            Body::Topology(TopologyBody::Topology { msg_id, .. }) => Some(*msg_id),
            Body::TopologyOk(TopologyOkBody::TopologyOk { msg_id, .. }) => Some(*msg_id),
            Body::Propagate { msg_id, .. } => Some(*msg_id),
            Body::PropagateOk { .. } => None,
        }
    }

    fn in_reply_to(&self) -> (id: Option<MsgId>) {
        match self {
            Body::BroadcastOk(BroadcastOkBody::BroadcastOk { in_reply_to }) => Some(*in_reply_to),
            Body::ReadOk(ReadOkBody::ReadOk { in_reply_to, .. }) => Some(*in_reply_to),
            Body::TopologyOk(TopologyOkBody::TopologyOk { in_reply_to, .. }) => Some(*in_reply_to),
            Body::PropagateOk { in_reply_to } => Some(*in_reply_to),
            _ => None,
        }
    }

    fn duplicate(&self) -> (copy: Self) {
        match self {
            Body::Broadcast(BroadcastBody::Broadcast {
                msg_id,
                message,
            }) => Body::Broadcast(BroadcastBody::Broadcast {
                msg_id: *msg_id,
                message: *message,
            }),
            Body::BroadcastOk(BroadcastOkBody::BroadcastOk { in_reply_to }) => {
                Body::BroadcastOk(BroadcastOkBody::BroadcastOk { in_reply_to: *in_reply_to })
            },
            Body::Read(ReadBody::Read { msg_id }) => Body::Read(ReadBody::Read { msg_id: *msg_id }),
            Body::ReadOk(ReadOkBody::ReadOk {
                in_reply_to,
                msg_id,
                messages,
            }) => Body::ReadOk(ReadOkBody::ReadOk {
                in_reply_to: *in_reply_to,
                msg_id: *msg_id,
                messages: duplicate_values(messages),
            }),
            Body::Topology(TopologyBody::Topology {
                msg_id,
                topology,
            }) => Body::Topology(TopologyBody::Topology {
                msg_id: *msg_id,
                topology: duplicate_adjacency(topology),
            }),
            Body::TopologyOk(TopologyOkBody::TopologyOk {
                in_reply_to,
                msg_id,
            }) => Body::TopologyOk(TopologyOkBody::TopologyOk {
                in_reply_to: *in_reply_to,
                msg_id: *msg_id,
            }),
            Body::Propagate { msg_id, values, known_nodes } => Body::Propagate {
                msg_id: *msg_id,
                values: duplicate_values(values),
                known_nodes: duplicate_names(known_nodes),
            },
            Body::PropagateOk { in_reply_to } => Body::PropagateOk { in_reply_to: *in_reply_to },
        }
    }
}

/// The gossip state of one node.
pub struct State {
    topology: StringHashMap<Vec<NodeId>>,
    values: HashSet<Val>,
    unconfirmed_msgs: HashMap<MsgId, Message<Body>>,
    to_be_sent_vals: Vec<(NodeId, Vec<Val>)>,
}

/// Every node has at most one queue, and every queue holds at least one
/// value and none twice.
spec fn queues_wf(queues: Seq<(NodeId, Vec<Val>)>) -> bool {
    &&& forall|i: int, j: int|
        0 <= i < j < queues.len() ==> (#[trigger] queues[i]).0@ != (#[trigger] queues[j]).0@
    &&& forall|i: int|
        0 <= i < queues.len() ==> (#[trigger] queues[i]).1@.len() > 0
            && queues[i].1@.no_duplicates()
}

spec fn has_queue(queues: Seq<(NodeId, Vec<Val>)>, node: Seq<char>) -> bool {
    exists|i: int| 0 <= i < queues.len() && (#[trigger] queues[i]).0@ == node
}

spec fn queue_at(queues: Seq<(NodeId, Vec<Val>)>, node: Seq<char>) -> int {
    choose|i: int| 0 <= i < queues.len() && (#[trigger] queues[i]).0@ == node
}

spec fn queues_view(queues: Seq<(NodeId, Vec<Val>)>) -> Map<Seq<char>, Set<Val>> {
    Map::new(
        |node: Seq<char>| has_queue(queues, node),
        |node: Seq<char>| queues[queue_at(queues, node)].1@.to_set(),
    )
}

proof fn lemma_queue_found(queues: Seq<(NodeId, Vec<Val>)>, i: int)
    requires
        queues_wf(queues),
        0 <= i < queues.len(),
    ensures
        has_queue(queues, queues[i].0@),
        queue_at(queues, queues[i].0@) == i,
        queues_view(queues).contains_key(queues[i].0@),
        queues_view(queues)[queues[i].0@] == queues[i].1@.to_set(),
{
}

proof fn lemma_queues_view_is(queues: Seq<(NodeId, Vec<Val>)>, m: Map<Seq<char>, Set<Val>>)
    requires
        queues_wf(queues),
        forall|node: Seq<char>| m.contains_key(node) <==> has_queue(queues, node),
        forall|i: int|
            0 <= i < queues.len() ==> m[(#[trigger] queues[i]).0@] == queues[i].1@.to_set(),
    ensures
        queues_view(queues) == m,
{
}

impl View for State {
    type V = StateView;

    closed spec fn view(&self) -> StateView {
        StateView {
            topology: Map::new(
                |node: Seq<char>| self.topology@.contains_key(node),
                |node: Seq<char>| names(self.topology@[node]@),
            ),
            values: self.values@,
            unconfirmed: Map::new(
                |id: MsgId| self.unconfirmed_msgs@.contains_key(id),
                |id: MsgId| self.unconfirmed_msgs@[id]@,
            ),
            pending: queues_view(self.to_be_sent_vals@),
        }
    }
}

/// The position of the queue for `dest`, if it has one.
fn find_queue(queues: &Vec<(NodeId, Vec<Val>)>, dest: &NodeId) -> (at: Option<usize>)
    ensures
        match at {
            Some(i) => i < queues.len() && queues[i as int].0@ == dest@,
            None => !has_queue(queues@, dest@),
        },
{
    let mut i: usize = 0;
    while i < queues.len()
        invariant
            i <= queues.len(),
            forall|j: int| 0 <= j < i ==> (#[trigger] queues[j]).0@ != dest@,
        decreases queues.len() - i,
    {
        if queues[i].0 == *dest {
            return Some(i);
        }
        i += 1;
    }
    None
}

/// Queues `val` for `dest`, unless it is queued there already.
fn enqueue(queues: &mut Vec<(NodeId, Vec<Val>)>, dest: &NodeId, val: Val)
    requires
        queues_wf(old(queues)@),
    ensures
        queues_wf(final(queues)@),
        queues_view(final(queues)@) == queue(queues_view(old(queues)@), set![dest@], set![val]),
{
    let ghost before = queues@;
    let ghost target = queue(queues_view(before), set![dest@], set![val]);
    assert(set![val].contains(val));
    match find_queue(queues, dest) {
        Some(i) => {
            proof {
                lemma_queue_found(before, i as int);
            }
            if contains_value(&queues[i].1, val) {
                proof {
                    assert(queues_view(before)[dest@].union(set![val]) =~= queues_view(before)[dest@]);
                    assert(target =~= queues_view(before));
                }
            } else {
                let (name, mut vals) = queues.remove(i);
                let ghost old_vals = vals@;
                vals.push(val);
                queues.push((name, vals));
                proof {
                    let after = queues@;
                    let last = after.len() - 1;
                    assert(after.len() == before.len());
                    assert(forall|j: int| 0 <= j < i ==> after[j] == before[j]);
                    assert(forall|j: int| i <= j < last ==> after[j] == before[j + 1]);
                    assert(after[last].0@ == dest@);
                    assert(after[last].1@ == old_vals.push(val));
                    assert(old_vals.push(val).no_duplicates());
                    assert(queues_wf(after));
                    old_vals.lemma_push_to_set_commute(val);
                    assert forall|node: Seq<char>| target.contains_key(node) <==> has_queue(
                        after,
                        node,
                    ) by {
                        if has_queue(before, node) {
                            let k = queue_at(before, node);
                            if k < i {
                                assert(after[k].0@ == node);
                            } else if k == i {
                                assert(after[last].0@ == node);
                            } else {
                                assert(after[k - 1].0@ == node);
                            }
                        }
                        if has_queue(after, node) {
                            let k = queue_at(after, node);
                            if k < i {
                                assert(before[k].0@ == node);
                            } else if k == last {
                                assert(before[i as int].0@ == node);
                            } else {
                                assert(before[k + 1].0@ == node);
                            }
                        }
                    }
                    assert forall|j: int| 0 <= j < after.len() implies target[(#[trigger] after[j]).0@]
                        == after[j].1@.to_set() by {
                        if j < i {
                            lemma_queue_found(before, j);
                        } else if j < last {
                            lemma_queue_found(before, j + 1);
                        } else {
                            assert(target[dest@] =~= after[last].1@.to_set());
                        }
                    }
                    lemma_queues_view_is(after, target);
                }
            }
        },
        None => {
            let mut vals: Vec<Val> = Vec::new();
            vals.push(val);
            queues.push((dest.clone(), vals));
            proof {
                let after = queues@;
                let last = after.len() - 1;
                assert(forall|j: int| 0 <= j < last ==> after[j] == before[j]);
                assert(after[last].0@ == dest@);
                assert(after[last].1@ =~= seq![val]);
                assert(queues_wf(after));
                assert(seq![val] =~= Seq::<Val>::empty().push(val));
                Seq::<Val>::empty().lemma_push_to_set_commute(val);
                assert(Seq::<Val>::empty().to_set() =~= Set::<Val>::empty());
                assert(seq![val].to_set() =~= set![val]);
                assert forall|node: Seq<char>| target.contains_key(node) <==> has_queue(
                    after,
                    node,
                ) by {
                    if has_queue(before, node) {
                        let k = queue_at(before, node);
                        assert(after[k].0@ == node);
                    }
                    if node == dest@ {
                        assert(after[last].0@ == node);
                    }
                    if has_queue(after, node) {
                        let k = queue_at(after, node);
                        if k < last {
                            assert(before[k].0@ == node);
                        }
                    }
                }
                assert forall|j: int| 0 <= j < after.len() implies target[(#[trigger] after[j]).0@]
                    == after[j].1@.to_set() by {
                    if j < last {
                        lemma_queue_found(before, j);
                    } else {
                        assert(target[dest@] =~= after[last].1@.to_set());
                    }
                }
                lemma_queues_view_is(after, target);
            }
        },
    }
}

proof fn lemma_queue_again(
    pending: Map<Seq<char>, Set<Val>>,
    targets: Set<Seq<char>>,
    first: Set<Val>,
    second: Set<Val>,
)
    ensures
        queue(queue(pending, targets, first), targets, second) == queue(
            pending,
            targets,
            first.union(second),
        ),
{
    let twice = queue(queue(pending, targets, first), targets, second);
    let once = queue(pending, targets, first.union(second));
    assert forall|node: Seq<char>| twice.contains_key(node) <==> once.contains_key(node) by {
        if inhabited(first) {
            let v = choose|v: Val| first.contains(v);
            assert(first.union(second).contains(v));
        }
        if inhabited(second) {
            let v = choose|v: Val| second.contains(v);
            assert(first.union(second).contains(v));
        }
    }
    assert forall|node: Seq<char>| twice.contains_key(node) implies twice[node] =~= once[node] by {}
}

proof fn lemma_queue_more_targets(
    pending: Map<Seq<char>, Set<Val>>,
    targets: Set<Seq<char>>,
    more: Set<Seq<char>>,
    fresh: Set<Val>,
)
    ensures
        queue(queue(pending, targets, fresh), more, fresh) == queue(
            pending,
            targets.union(more),
            fresh,
        ),
{
    let twice = queue(queue(pending, targets, fresh), more, fresh);
    let once = queue(pending, targets.union(more), fresh);
    assert forall|node: Seq<char>| twice.contains_key(node) implies twice[node] =~= once[node] by {}
}

proof fn lemma_queue_nothing(
    pending: Map<Seq<char>, Set<Val>>,
    targets: Set<Seq<char>>,
    fresh: Set<Val>,
)
    requires
        !inhabited(fresh) || targets =~= Set::<Seq<char>>::empty(),
    ensures
        queue(pending, targets, fresh) == pending,
{
    let queued = queue(pending, targets, fresh);
    assert forall|node: Seq<char>| queued.contains_key(node) implies queued[node] =~= pending[node] by {
        if targets.contains(node) {
            assert forall|v: Val| !fresh.contains(v) by {}
        }
    }
    assert(queued =~= pending);
}

/// Every outstanding message is a batch filed under its own message id.
spec fn batches_wf(batches: Map<MsgId, Message<Body>>) -> bool {
    forall|id: MsgId| #[trigger]
        batches.contains_key(id) ==> batches[id].body is Propagate
            && batches[id].body->Propagate_msg_id == id
}

/// The map from each node of `m` to the value of its neighbour list.
spec fn adjacency_map(m: Map<Seq<char>, Vec<NodeId>>) -> Map<Seq<char>, Seq<Seq<char>>> {
    Map::new(|node: Seq<char>| m.contains_key(node), |node: Seq<char>| names(m[node]@))
}

impl State {
    /// The invariant of the state: what is queued for a neighbour is a
    /// non-empty set, and every outstanding message is a batch filed under
    /// its own message id.
    pub closed spec fn wf(&self) -> bool {
        &&& queues_wf(self.to_be_sent_vals@)
        &&& batches_wf(self.unconfirmed_msgs@)
    }

    /// What the invariant says of the state's value.
    pub proof fn lemma_wf(&self)
        requires
            self.wf(),
        ensures
            self@.values.finite(),
            self@.pending.dom().finite(),
            self@.unconfirmed.dom().finite(),
            forall|node: Seq<char>| #[trigger]
                self@.pending.contains_key(node) ==> self@.pending[node].finite() && inhabited(
                    self@.pending[node],
                ),
            forall|id: MsgId| #[trigger]
                self@.unconfirmed.contains_key(id) ==> self@.unconfirmed[id].body is Propagate
                    && self@.unconfirmed[id].body->Propagate_msg_id == id,
    {
        lemma_queues_count(self.to_be_sent_vals@);
        assert(self@.unconfirmed.dom() =~= self.unconfirmed_msgs@.dom());
        let learned = vstd::std_specs::hash::spec_hash_keys_iter(&self.values).remaining().unref();
        assert forall|node: Seq<char>| #[trigger] self@.pending.contains_key(node) implies self@.pending[node].finite()
            && inhabited(self@.pending[node]) by {
            let i = queue_at(self.to_be_sent_vals@, node);
            let queued = self.to_be_sent_vals@[i].1@;
            assert(queued.to_set().contains(queued[0]));
        }
    }

    /// How many neighbours have anything queued.
    pub fn queued_neighbours(&self) -> (count: usize)
        requires
            self.wf(),
        ensures
            self@.pending.dom().finite(),
            count == self@.pending.dom().len(),
    {
        proof {
            lemma_queues_count(self.to_be_sent_vals@);
        }
        self.to_be_sent_vals.len()
    }

    /// A state that knows no value and no topology and has nothing queued
    /// or outstanding.
    pub fn new() -> (state: State)
        ensures
            state.wf(),
            state@ == (StateView {
                topology: Map::empty(),
                values: Set::empty(),
                unconfirmed: Map::empty(),
                pending: Map::empty(),
            }),
    {
        let state = State {
            topology: StringHashMap::new(),
            values: HashSet::new(),
            unconfirmed_msgs: HashMap::new(),
            to_be_sent_vals: Vec::new(),
        };
        proof {
            assert(state@.topology =~= Map::empty());
            assert(state@.unconfirmed =~= Map::empty());
            assert(state@.pending =~= Map::empty());
        }
        state
    }

    fn add_new_val(&mut self, val: Val)
        ensures
            final(self)@ == (StateView { values: old(self)@.values.insert(val), ..old(self)@ }),
            final(self).to_be_sent_vals == old(self).to_be_sent_vals,
            final(self).topology == old(self).topology,
            final(self).unconfirmed_msgs == old(self).unconfirmed_msgs,
    {
        self.values.insert(val);
    }

    /// Whether the node has learned `val`.
    pub fn is_known(&self, val: Val) -> (known: bool)
        ensures
            known == self@.values.contains(val),
    {
        self.values.contains(&val)
    }

    /// Whether a topology message has named any node.
    pub fn has_topology(&self) -> (any: bool)
        ensures
            any == has_topology(self@),
    {
        let empty = self.topology.is_empty();
        proof {
            if empty {
                assert forall|node: Seq<char>| !self@.topology.contains_key(node) by {}
            } else {
                let node = choose|node: Seq<char>| self.topology@.dom().contains(node);
                assert(self@.topology.contains_key(node));
            }
        }
        !empty
    }

    /// Replaces the topology by the one that `entries` lists.
    pub fn set_topology(&mut self, entries: &Vec<(NodeId, Vec<NodeId>)>)
        ensures
            final(self)@ == with_topology(old(self)@, adjacency(entries@)),
            old(self).wf() ==> final(self).wf(),
    {
        let mut topology: StringHashMap<Vec<NodeId>> = StringHashMap::new();
        let mut i: usize = 0;
        while i < entries.len()
            invariant
                i <= entries.len(),
                adjacency_map(topology@) == topology_map(adjacency(entries@).take(i as int)),
            decreases entries.len() - i,
        {
            let name = entries[i].0.clone();
            let adjacent = duplicate_names(&entries[i].1);
            topology.insert(name, adjacent);
            proof {
                let listed = adjacency(entries@);
                assert(listed.take(i + 1).drop_last() =~= listed.take(i as int));
            }
            i += 1;
        }
        assert(adjacency(entries@).take(i as int) =~= adjacency(entries@));
        self.topology = topology;
    }

    /// Takes in the values `vals`, which the nodes `known_nodes` are said
    /// to have already, on behalf of the node `me`.
    pub fn on_receive(&mut self, me: &NodeId, vals: &Vec<Val>, known_nodes: &Vec<NodeId>)
        requires
            old(self).wf(),
        ensures
            final(self).wf(),
            final(self)@ == receive(old(self)@, me@, vals@.to_set(), names(known_nodes@).to_set()),
    {
        let ghost start = self@;
        let ghost known = names(known_nodes@).to_set();
        let ghost friends = neighbors(start.topology, me@);
        let ghost targets = friends.to_set().difference(known);
        let mut i: usize = 0;
        proof {
            assert(vals@.take(0).to_set() =~= Set::<Val>::empty());
            assert(start.values.union(Set::<Val>::empty()) =~= start.values);
            lemma_queue_nothing(
                start.pending,
                targets,
                Set::<Val>::empty().difference(start.values),
            );
        }
        while i < vals.len()
            invariant
                i <= vals.len(),
                self.wf(),
                start == old(self)@,
                known == names(known_nodes@).to_set(),
                friends == neighbors(start.topology, me@),
                targets == friends.to_set().difference(known),
                self@ == receive(start, me@, vals@.take(i as int).to_set(), known),
            decreases vals.len() - i,
        {
            let val = vals[i];
            let ghost seen = vals@.take(i as int).to_set();
            proof {
                assert(vals@.take(i + 1) =~= vals@.take(i as int).push(val));
                vals@.take(i as int).lemma_push_to_set_commute(val);
            }
            if self.values.contains(&val) {
                proof {
                    assert(start.values.union(seen.insert(val)) =~= start.values.union(seen));
                    assert(seen.insert(val).difference(start.values) =~= seen.difference(
                        start.values,
                    ));
                }
            } else {
                self.add_new_val(val);
                let ghost queued = self.to_be_sent_vals@;
                let ghost learned = *self;
                match self.topology.get(me.as_str()) {
                    Some(adjacent) => {
                        let mut j: usize = 0;
                        while j < adjacent.len()
                            invariant
                                j <= adjacent.len(),
                                queues_wf(self.to_be_sent_vals@),
                                batches_wf(self.unconfirmed_msgs@),
                                self.values == learned.values,
                                self.topology == learned.topology,
                                self.unconfirmed_msgs == learned.unconfirmed_msgs,
                                known == names(known_nodes@).to_set(),
                                queues_view(self.to_be_sent_vals@) == queue(
                                    queues_view(queued),
                                    names(adjacent@).take(j as int).to_set().difference(known),
                                    set![val],
                                ),
                            decreases adjacent.len() - j,
                        {
                            let ghost reached = names(adjacent@).take(j as int).to_set().difference(
                                known,
                            );
                            proof {
                                assert(names(adjacent@).take(j + 1) =~= names(adjacent@).take(
                                    j as int,
                                ).push(adjacent[j as int]@));
                                names(adjacent@).take(j as int).lemma_push_to_set_commute(
                                    adjacent[j as int]@,
                                );
                            }
                            if !contains_name(known_nodes, &adjacent[j]) {
                                enqueue(&mut self.to_be_sent_vals, &adjacent[j], val);
                                proof {
                                    lemma_queue_more_targets(
                                        queues_view(queued),
                                        reached,
                                        set![adjacent[j as int]@],
                                        set![val],
                                    );
                                }
                            }
                            j += 1;
                        }
                        proof {
                            assert(names(adjacent@).take(j as int) =~= names(adjacent@));
                        }
                    },
                    None => {},
                }
                proof {
                    lemma_queue_again(
                        start.pending,
                        targets,
                        seen.difference(start.values),
                        set![val],
                    );
                    assert(seen.insert(val).difference(start.values) =~= seen.difference(
                        start.values,
                    ).union(set![val]));
                    assert(self@.values == start.values.union(seen.insert(val)));
                    assert(self@.pending == queue(
                        start.pending,
                        targets,
                        seen.insert(val).difference(start.values),
                    ));
                }
            }
            i += 1;
        }
        assert(vals@.take(i as int) =~= vals@);
    }

    /// Forgets the batch with the id `in_reply_to`, if it is outstanding.
    pub fn acknowledge(&mut self, in_reply_to: MsgId)
        ensures
            final(self)@ == acknowledge(old(self)@, in_reply_to),
            old(self).wf() ==> final(self).wf(),
    {
        self.unconfirmed_msgs.remove(&in_reply_to);
        assert(self@.unconfirmed =~= old(self)@.unconfirmed.remove(in_reply_to));
    }

    /// The values queued for `node`, each once.
    pub fn queued_for(&self, node: &NodeId) -> (values: Vec<Val>)
        requires
            self.wf(),
        ensures
            values@.no_duplicates(),
            values@.to_set() == pending_for(self@.pending, node@),
    {
        match find_queue(&self.to_be_sent_vals, node) {
            Some(i) => {
                duplicate_values(&self.to_be_sent_vals[i].1)
            },
            None => {
                let none: Vec<Val> = Vec::new();
                none
            },
        }
    }

    /// Whether the batch with the id `id` awaits its acknowledgment.
    pub fn is_outstanding(&self, id: MsgId) -> (outstanding: bool)
        ensures
            outstanding == self@.unconfirmed.contains_key(id),
    {
        self.unconfirmed_msgs.contains_key(&id)
    }

    /// How many batches await their acknowledgment.
    pub fn outstanding(&self) -> (count: usize)
        ensures
            count == self@.unconfirmed.dom().len(),
    {
        assert(self@.unconfirmed.dom() =~= self.unconfirmed_msgs@.dom());
        self.unconfirmed_msgs.len()
    }

    /// Every value learned so far, each once, in no particular order.
    pub fn known_values(&self) -> (values: Vec<Val>)
        ensures
            values@.no_duplicates(),
            values@.to_set() == self@.values,
    {
        let mut values: Vec<Val> = Vec::new();
        let ghost all = self.values.iter().remaining();
        for val in it: self.values.iter()
            invariant
                values@ == it.seq().take(it.index()).unref(),
                it.seq() == all,
                all.unref().to_set() == self.values@,
                all.no_duplicates(),
        {
            values.push(*val);
        }
        assert(values@ == all.unref());
        values
    }
}

proof fn lemma_queues_count(queues: Seq<(NodeId, Vec<Val>)>)
    requires
        queues_wf(queues),
    ensures
        queues_view(queues).dom().finite(),
        queues_view(queues).dom().len() == queues.len(),
{
    let keys = Seq::new(queues.len(), |i: int| queues[i].0@);
    assert(keys.no_duplicates());
    assert forall|node: Seq<char>| keys.to_set().contains(node) <==> has_queue(queues, node) by {
        if keys.to_set().contains(node) {
            let i = choose|i: int| 0 <= i < keys.len() && keys[i] == node;
            assert(queues[i].0@ == node);
        }
        if has_queue(queues, node) {
            let i = queue_at(queues, node);
            assert(keys[i] == node);
        }
    }
    assert(keys.to_set() =~= queues_view(queues).dom());
    keys.unique_seq_to_set();
    vstd::seq_lib::seq_to_set_is_finite(keys);
}

/// The names of `list` and `extra`, each once.
fn distinct_names(list: &Vec<NodeId>, extra: &NodeId) -> (out: Vec<NodeId>)
    ensures
        names(out@).no_duplicates(),
        names(out@).to_set() == names(list@).to_set().insert(extra@),
{
    let mut out: Vec<NodeId> = Vec::new();
    out.push(extra.clone());
    let mut i: usize = 0;
    proof {
        assert(names(out@) =~= Seq::<Seq<char>>::empty().push(extra@));
        Seq::<Seq<char>>::empty().lemma_push_to_set_commute(extra@);
    }
    while i < list.len()
        invariant
            i <= list.len(),
            names(out@).no_duplicates(),
            names(out@).to_set() == names(list@).take(i as int).to_set().insert(extra@),
        decreases list.len() - i,
    {
        proof {
            assert(names(list@).take(i + 1) =~= names(list@).take(i as int).push(list[i as int]@));
            names(list@).take(i as int).lemma_push_to_set_commute(list[i as int]@);
        }
        if !contains_name(&out, &list[i]) {
            let ghost before = names(out@);
            out.push(list[i].clone());
            proof {
                assert(names(out@) =~= before.push(list[i as int]@));
                before.lemma_push_to_set_commute(list[i as int]@);
            }
        }
        i += 1;
    }
    assert(names(list@).take(i as int) =~= names(list@));
    out
}

/// The gossip state that `node` carries.
pub open spec fn gossip<H>(node: &Node<State, Body, H>) -> StateView {
    node.app_state()->0@
}

/// `node` carries a gossip state, and that state is well formed.
pub open spec fn carries_gossip<H>(node: &Node<State, Body, H>) -> bool {
    node.app_state() is Some && node.app_state()->0.wf()
}

/// `after` differs from `before` in its outbox by exactly the messages with
/// the values `sent`, appended in that order.
pub open spec fn has_sent<H>(
    after: &Node<State, Body, H>,
    before: &Node<State, Body, H>,
    sent: Seq<MessageView<BodyView>>,
) -> bool {
    &&& after.outbox().len() == before.outbox().len() + sent.len()
    &&& after.outbox().take(before.outbox().len() as int) == before.outbox()
    &&& views(after.outbox()).skip(before.outbox().len() as int) == sent
}

/// The value of the message that `node` queued `k` places after the first
/// `start` of its outbox.
spec fn queued_at<H>(node: &Node<State, Body, H>, start: nat, k: int) -> MessageView<BodyView> {
    node.outbox()[start + k]@
}

/// The reply to `msg` with the payload `body`.
pub open spec fn reply_to(msg: Message<Body>, body: BodyView) -> MessageView<BodyView> {
    MessageView { src: msg.dest@, dest: msg.src@, body }
}

impl<H> Node<State, Body, H> {
    /// Whether the node has been told a topology.
    pub fn ready(&self) -> (ready: bool)
        requires
            self.app_state() is Some,
        ensures
            ready == has_topology(gossip(self)),
    {
        self.state_ref().unwrap().has_topology()
    }

    /// Takes in values delivered by a client or a peer.
    ///
    /// Every value of `vals` is learned. Those the node did not have are
    /// queued for each of its neighbours that is not among `known_nodes`;
    /// those it had already are queued for nobody.
    pub fn on_recv_val(&mut self, vals: Vec<Val>, known_nodes: &Vec<NodeId>)
        requires
            old(self).initialized(),
            carries_gossip(old(self)),
        ensures
            carries_gossip(final(self)),
            gossip(final(self)) == receive(
                gossip(old(self)),
                old(self).id(),
                vals@.to_set(),
                names(known_nodes@).to_set(),
            ),
            final(self).same_identity(old(self)),
            final(self).same_tables(old(self)),
            final(self).outbox() == old(self).outbox(),
    {
        let mut state = self.take_state().unwrap();
        state.on_receive(self.node_id(), &vals, known_nodes);
        self.set_state(state);
    }

    /// Sends every outstanding batch again, unchanged.
    pub fn resend_un_resp_msgs(&mut self)
        requires
            old(self).app_state() is Some,
        ensures
            final(self).app_state() == old(self).app_state(),
            final(self).same_identity(old(self)),
            final(self).same_tables(old(self)),
            final(self).outbox().take(old(self).outbox().len() as int) == old(self).outbox(),
            is_resend(
                views(final(self).outbox()).skip(old(self).outbox().len() as int),
                gossip(old(self)).unconfirmed,
            ),
    {
        let state = self.take_state().unwrap();
        let ghost all = state.unconfirmed_msgs.keys().remaining();
        let ghost start = old(self).outbox();
        for id in it: state.unconfirmed_msgs.keys()
            invariant
                it.seq() == all,
                all.no_duplicates(),
                all.unref().to_set() == state.unconfirmed_msgs@.dom(),
                start == old(self).outbox(),
                self.app_state() is None,
                self.same_identity(old(self)),
                self.same_tables(old(self)),
                self.outbox().len() == start.len() + it.index(),
                self.outbox().take(start.len() as int) == start,
                forall|k: int|
                    0 <= k < it.index() ==> #[trigger] queued_at(self, start.len(), k)
                        == state.unconfirmed_msgs@[*all[k]]@,
        {
            let ghost sent = self.outbox();
            let ghost earlier = *self;
            match state.unconfirmed_msgs.get(id) {
                Some(msg) => {
                    let copy = msg.duplicate();
                    self.send_msg(copy);
                    assert(forall|k: int|
                        0 <= k < it.index() ==> #[trigger] queued_at(self, start.len(), k)
                            == queued_at(&earlier, start.len(), k));
                },
                None => {},
            }
        }
        proof {
            let order = all.unref();
            let resent = views(self.outbox()).skip(start.len() as int);
            assert(order.no_duplicates()) by {}
            assert(order.to_set() =~= state@.unconfirmed.dom());
            assert forall|i: int| 0 <= i < order.len() implies resent[i] == state@.unconfirmed[
            #[trigger] order[i]] by {
                assert(resent[i] == queued_at(self, start.len(), i));
            }
        }
        self.set_state(state);
    }

    /// Flushes the queues: sends each neighbour everything queued for it as
    /// one batch and keeps each batch as outstanding.
    ///
    /// Does nothing before the handshake or before a topology is known.
    pub fn propagate_to_friends(&mut self)
        requires
            carries_gossip(old(self)),
            old(self).initialized() ==> old(self).last_msg_id() + gossip(
                old(self),
            ).pending.dom().len() <= u32::MAX,
        ensures
            carries_gossip(final(self)),
            final(self).same_name(old(self)),
            final(self).same_tables(old(self)),
            !(old(self).initialized() && has_topology(gossip(old(self)))) ==> {
                &&& gossip(final(self)) == gossip(old(self))
                &&& final(self).outbox() == old(self).outbox()
                &&& final(self).same_identity(old(self))
            },
            old(self).initialized() && has_topology(gossip(old(self))) ==> {
                let sent = views(final(self).outbox()).skip(old(self).outbox().len() as int);
                &&& has_sent(final(self), old(self), sent)
                &&& is_flush(
                    gossip(old(self)),
                    gossip(final(self)),
                    old(self).id(),
                    old(self).last_msg_id(),
                    sent,
                )
                &&& final(self).last_msg_id() == old(self).last_msg_id() + sent.len()
            },
    {
        if !self.is_init() {
            return ;
        }
        let mut state = self.take_state().unwrap();
        if !state.has_topology() {
            self.set_state(state);
            return ;
        }
        let ghost before = state@;
        let ghost start = old(self).outbox();
        let ghost last_id = old(self).last_msg_id();
        let me = self.node_id().clone();
        let known_nodes = match state.topology.get(me.as_str()) {
            Some(adjacent) => distinct_names(adjacent, &me),
            None => {
                let none: Vec<NodeId> = Vec::new();
                distinct_names(&none, &me)
            },
        };
        let ghost known = neighbors(before.topology, me@).to_set().insert(me@);
        assert(names(known_nodes@).to_set() == known) by {
            if !before.topology.contains_key(me@) {
                assert(names(Seq::<NodeId>::empty()) =~= Seq::<Seq<char>>::empty());
            }
        }
        let mut queues: Vec<(NodeId, Vec<Val>)> = Vec::new();
        std::mem::swap(&mut queues, &mut state.to_be_sent_vals);
        proof {
            lemma_queues_count(queues@);
            assert(state@.pending =~= Map::<Seq<char>, Set<Val>>::empty());
        }
        let ghost unconfirmed = state.unconfirmed_msgs@;
        let mut i: usize = 0;
        while i < queues.len()
            invariant
                i <= queues.len(),
                queues_wf(queues@),
                before.pending == queues_view(queues@),
                last_id + queues.len() <= u32::MAX,
                start == old(self).outbox(),
                last_id == old(self).last_msg_id(),
                names(known_nodes@).no_duplicates(),
                names(known_nodes@).to_set() == known,
                self.initialized(),
                self.id() == me@,
                self.same_name(old(self)),
                self.same_tables(old(self)),
                self.app_state() is None,
                self.last_msg_id() == last_id + i,
                self.outbox().len() == start.len() + i,
                self.outbox().take(start.len() as int) == start,
                forall|k: int|
                    0 <= k < i ==> {
                        let sent = #[trigger] queued_at(self, start.len(), k);
                        &&& is_batch(sent, me@, known, before.pending, last_id + 1 + k)
                        &&& sent.dest == queues[k].0@
                    },
                state.topology == old(self).app_state()->0.topology,
                state.values == old(self).app_state()->0.values,
                state.to_be_sent_vals@ == Seq::<(NodeId, Vec<Val>)>::empty(),
                batches_wf(state.unconfirmed_msgs@),
                forall|id: MsgId|
                    state.unconfirmed_msgs@.contains_key(id) <==> unconfirmed.contains_key(id) || last_id
                        < id <= last_id + i,
                forall|id: MsgId|
                    last_id < id <= last_id + i ==> (#[trigger] state.unconfirmed_msgs@[id])@
                        == queued_at(self, start.len(), id - last_id - 1),
                forall|id: MsgId|
                    unconfirmed.contains_key(id) && !(last_id < id <= last_id + i)
                        ==> #[trigger] state.unconfirmed_msgs@[id] == unconfirmed[id],
            decreases queues.len() - i,
        {
            let ghost sent_before = self.outbox();
            let ghost earlier = *self;
            let id = self.next_msg_id();
            let msg = Message {
                src: me.clone(),
                dest: queues[i].0.clone(),
                body: Body::Propagate {
                    msg_id: id,
                    values: duplicate_values(&queues[i].1),
                    known_nodes: duplicate_names(&known_nodes),
                },
            };
            let copy = msg.duplicate();
            self.send_msg(copy);
            state.unconfirmed_msgs.insert(id, msg);
            proof {
                assert(forall|k: int|
                    0 <= k < i ==> #[trigger] queued_at(self, start.len(), k) == queued_at(
                        &earlier,
                        start.len(),
                        k,
                    ));
            }
            i += 1;
        }
        proof {
            let sent = views(self.outbox()).skip(start.len() as int);
            assert(forall|k: int|
                0 <= k < sent.len() ==> #[trigger] sent[k] == queued_at(self, start.len(), k));
            assert forall|node: Seq<char>| #[trigger]
                before.pending.contains_key(node) implies exists|k: int|
                0 <= k < sent.len() && (#[trigger] sent[k]).dest == node by {
                let k = queue_at(queues@, node);
                assert(sent[k].dest == node);
            }
            assert(state@.unconfirmed =~= Map::new(
                |id: MsgId| before.unconfirmed.contains_key(id) || last_id < id <= last_id + sent.len(),
                |id: MsgId|
                    if last_id < id <= last_id + sent.len() {
                        sent[id - last_id - 1]
                    } else {
                        before.unconfirmed[id]
                    },
            ));
        }
        self.set_state(state);
    }
}

/// `after` differs from `before` in its outbox by the one message `reply`.
pub open spec fn has_replied<H>(
    after: &Node<State, Body, H>,
    before: &Node<State, Body, H>,
    reply: MessageView<BodyView>,
) -> bool {
    &&& after.outbox().len() == before.outbox().len() + 1
    &&& after.outbox().drop_last() == before.outbox()
    &&& after.outbox().last()@ == reply
}

/// Handles a topology message: replaces the node's adjacency by the one the
/// message carries, and acknowledges with a fresh message id.
pub fn handle_topology<H>(node: &mut Node<State, Body, H>, msg: Message<Body>)
    requires
        msg.body is Topology,
        old(node).initialized(),
        old(node).last_msg_id() < u32::MAX,
        carries_gossip(old(node)),
    ensures
        carries_gossip(final(node)),
        gossip(final(node)) == with_topology(
            gossip(old(node)),
            adjacency(msg.body->Topology_0->topology@),
        ),
        has_replied(
            final(node),
            old(node),
            reply_to(
                msg,
                BodyView::TopologyOk {
                    in_reply_to: msg.body->Topology_0->msg_id,
                    msg_id: (old(node).last_msg_id() + 1) as MsgId,
                },
            ),
        ),
        final(node).last_msg_id() == old(node).last_msg_id() + 1,
        final(node).same_name(old(node)),
        final(node).same_tables(old(node)),
{
    let Message { src, dest, body } = msg;
    match body {
        Body::Topology(TopologyBody::Topology { msg_id, topology }) => {
            let mut state = node.take_state().unwrap();
            state.set_topology(&topology);
            node.set_state(state);
            let body = Body::TopologyOk(TopologyOkBody::TopologyOk {
                in_reply_to: msg_id,
                msg_id: node.next_msg_id(),
            });
            node.send_msg(Message { body, src: dest, dest: src });
            assert(node.outbox().drop_last() =~= old(node).outbox());
        },
        _ => {},
    }
}

/// Handles a client's broadcast request: learns the value, queues it for
/// every neighbour if it is new, and acknowledges.
pub fn handle_broadcast<H>(node: &mut Node<State, Body, H>, msg: Message<Body>)
    requires
        msg.body is Broadcast,
        old(node).initialized(),
        carries_gossip(old(node)),
    ensures
        carries_gossip(final(node)),
        gossip(final(node)) == receive(
            gossip(old(node)),
            old(node).id(),
            set![msg.body->Broadcast_0->message],
            Set::empty(),
        ),
        has_replied(
            final(node),
            old(node),
            reply_to(msg, BodyView::BroadcastOk { in_reply_to: msg.body->Broadcast_0->msg_id }),
        ),
        final(node).same_identity(old(node)),
        final(node).same_tables(old(node)),
{
    let Message { src, dest, body } = msg;
    match body {
        Body::Broadcast(BroadcastBody::Broadcast { msg_id, message }) => {
            let mut vals: Vec<Val> = Vec::new();
            vals.push(message);
            let nobody: Vec<NodeId> = Vec::new();
            proof {
                Seq::<Val>::empty().lemma_push_to_set_commute(message);
                assert(vals@.to_set() =~= set![message]);
                assert(names(nobody@).to_set() =~= Set::<Seq<char>>::empty());
            }
            node.on_recv_val(vals, &nobody);
            let body = Body::BroadcastOk(BroadcastOkBody::BroadcastOk { in_reply_to: msg_id });
            node.send_msg(Message { body, src: dest, dest: src });
            assert(node.outbox().drop_last() =~= old(node).outbox());
        },
        _ => {},
    }
}

/// Handles a batch from a peer: learns its values, queues the new ones for
/// the neighbours that the peer does not vouch for, and acknowledges.
pub fn handle_propagate<H>(node: &mut Node<State, Body, H>, msg: Message<Body>)
    requires
        msg.body is Propagate,
        old(node).initialized(),
        carries_gossip(old(node)),
    ensures
        carries_gossip(final(node)),
        gossip(final(node)) == receive(
            gossip(old(node)),
            old(node).id(),
            msg.body->values@.to_set(),
            names(msg.body->known_nodes@).to_set(),
        ),
        has_replied(
            final(node),
            old(node),
            reply_to(msg, BodyView::PropagateOk { in_reply_to: msg.body->Propagate_msg_id }),
        ),
        final(node).same_identity(old(node)),
        final(node).same_tables(old(node)),
{
    let Message { src, dest, body } = msg;
    match body {
        Body::Propagate { msg_id, values, known_nodes } => {
            node.on_recv_val(values, &known_nodes);
            node.send_msg(
                Message { src: dest, dest: src, body: Body::PropagateOk { in_reply_to: msg_id } },
            );
            assert(node.outbox().drop_last() =~= old(node).outbox());
        },
        _ => {},
    }
}

/// Handles a peer's acknowledgment: the batch it names is no longer
/// outstanding. Acknowledging a batch that is not outstanding changes
/// nothing.
pub fn handle_propagate_ok<H>(node: &mut Node<State, Body, H>, msg: Message<Body>)
    requires
        msg.body is PropagateOk,
        carries_gossip(old(node)),
    ensures
        carries_gossip(final(node)),
        gossip(final(node)) == acknowledge(gossip(old(node)), msg.body->PropagateOk_in_reply_to),
        final(node).outbox() == old(node).outbox(),
        final(node).same_identity(old(node)),
        final(node).same_tables(old(node)),
{
    match msg.body {
        Body::PropagateOk { in_reply_to } => {
            let mut state = node.take_state().unwrap();
            state.acknowledge(in_reply_to);
            node.set_state(state);
        },
        _ => {},
    }
}

/// Handles a read request: replies with every value the node has learned,
/// each once, under a fresh message id.
pub fn handle_read<H>(node: &mut Node<State, Body, H>, msg: Message<Body>)
    requires
        msg.body is Read,
        old(node).initialized(),
        old(node).last_msg_id() < u32::MAX,
        old(node).app_state() is Some,
    ensures
        final(node).app_state() == old(node).app_state(),
        final(node).outbox().len() == old(node).outbox().len() + 1,
        final(node).outbox().drop_last() == old(node).outbox(),
        ({
            let reply = final(node).outbox().last()@;
            &&& reply.src == msg.dest@
            &&& reply.dest == msg.src@
            &&& reply.body is ReadOk
            &&& reply.body->ReadOk_in_reply_to == msg.body->Read_0->msg_id
            &&& reply.body->ReadOk_msg_id == old(node).last_msg_id() + 1
            &&& reply.body->messages.no_duplicates()
            &&& reply.body->messages.to_set() == gossip(old(node)).values
        }),
        final(node).last_msg_id() == old(node).last_msg_id() + 1,
        final(node).same_name(old(node)),
        final(node).same_tables(old(node)),
{
    let Message { src, dest, body } = msg;
    match body {
        Body::Read(ReadBody::Read { msg_id }) => {
            let messages = node.state_ref().unwrap().known_values();
            let body = Body::ReadOk(ReadOkBody::ReadOk {
                in_reply_to: msg_id,
                msg_id: node.next_msg_id(),
                messages,
            });
            node.send_msg(Message { body, src: dest, dest: src });
        },
        _ => {},
    }
}

} // verus!
