//! The mathematical model of a node's gossip state and of the operations
//! on it. The executable operations are specified against this model, and
//! the theorems of this crate are stated over it.

use crate::broadcast::{BodyView, Val};
use crate::messages::{MessageView, MsgId};
use vstd::prelude::*;

verus! {

/// Mathematical value of a node's gossip [`State`].
pub struct StateView {
    /// For each node named by the last topology message, its neighbours.
    pub topology: Map<Seq<char>, Seq<Seq<char>>>,
    /// Every value learned so far.
    pub values: Set<Val>,
    /// The batches sent and not yet acknowledged, by message id.
    pub unconfirmed: Map<MsgId, MessageView<BodyView>>,
    /// For each neighbour with anything queued, the values queued for it.
    pub pending: Map<Seq<char>, Set<Val>>,
}

/// The map that an adjacency list stands for. Of two entries for one node
/// the later one counts.
pub open spec fn topology_map(entries: Seq<(Seq<char>, Seq<Seq<char>>)>) -> Map<
    Seq<char>,
    Seq<Seq<char>>,
>
    decreases entries.len(),
{
    if entries.len() == 0 {
        Map::empty()
    } else {
        topology_map(entries.drop_last()).insert(entries.last().0, entries.last().1)
    }
}

/// The neighbours of `me`; none when the topology does not name `me`.
pub open spec fn neighbors(topology: Map<Seq<char>, Seq<Seq<char>>>, me: Seq<char>) -> Seq<
    Seq<char>,
> {
    if topology.contains_key(me) {
        topology[me]
    } else {
        Seq::empty()
    }
}

/// The values queued for `node`; none when it has no queue.
pub open spec fn pending_for(pending: Map<Seq<char>, Set<Val>>, node: Seq<char>) -> Set<Val> {
    if pending.contains_key(node) {
        pending[node]
    } else {
        Set::empty()
    }
}

/// Whether the topology names any node.
pub open spec fn has_topology(s: StateView) -> bool {
    exists|node: Seq<char>| s.topology.contains_key(node)
}

/// Whether a set has an element.
pub open spec fn inhabited(values: Set<Val>) -> bool {
    exists|v: Val| values.contains(v)
}

/// `pending` after the values `fresh` are queued for every node of
/// `targets`. Queueing nothing, or for nobody, changes nothing.
pub open spec fn queue(
    pending: Map<Seq<char>, Set<Val>>,
    targets: Set<Seq<char>>,
    fresh: Set<Val>,
) -> Map<Seq<char>, Set<Val>> {
    Map::new(
        |node: Seq<char>| pending.contains_key(node) || (targets.contains(node) && inhabited(fresh)),
        |node: Seq<char>|
            if targets.contains(node) {
                pending_for(pending, node).union(fresh)
            } else {
                pending_for(pending, node)
            },
    )
}

/// The state of node `me` after it is handed the values `vals` together
/// with the claim that the nodes `known` have them already.
///
/// Every value is learned. The values that are new to the node are queued
/// for each neighbour outside `known`; values it had already are queued for
/// nobody.
pub open spec fn receive(s: StateView, me: Seq<char>, vals: Set<Val>, known: Set<Seq<char>>) -> StateView {
    StateView {
        values: s.values.union(vals),
        pending: queue(
            s.pending,
            neighbors(s.topology, me).to_set().difference(known),
            vals.difference(s.values),
        ),
        ..s
    }
}

/// The state after the batch with the id `id` is acknowledged.
pub open spec fn acknowledge(s: StateView, id: MsgId) -> StateView {
    StateView { unconfirmed: s.unconfirmed.remove(id), ..s }
}

/// The state after a topology message with the adjacency list `entries`.
pub open spec fn with_topology(s: StateView, entries: Seq<(Seq<char>, Seq<Seq<char>>)>) -> StateView {
    StateView { topology: topology_map(entries), ..s }
}

/// `sent` is a batch cut from `pending` by the node `me`: the message for
/// one neighbour that has something queued, numbered `msg_id`, carrying
/// every value queued for that neighbour once, and naming `known` as the
/// nodes that have the values already.
pub open spec fn is_batch(
    sent: MessageView<BodyView>,
    me: Seq<char>,
    known: Set<Seq<char>>,
    pending: Map<Seq<char>, Set<Val>>,
    msg_id: int,
) -> bool {
    &&& sent.src == me
    &&& pending.contains_key(sent.dest)
    &&& sent.body is Propagate
    &&& sent.body->Propagate_msg_id == msg_id
    &&& sent.body->values.no_duplicates()
    &&& sent.body->values.to_set() == pending[sent.dest]
    &&& sent.body->known_nodes.no_duplicates()
    &&& sent.body->known_nodes.to_set() == known
}

/// `after` is what the state `before` of the node `me` becomes by flushing,
/// when `last_id` was the last message id issued and `sent` are the
/// messages the flush sends.
///
/// Each neighbour with anything queued gets exactly one batch; the batches
/// are numbered consecutively from `last_id + 1` in the order sent; each is
/// outstanding afterwards under its number; and nothing stays queued.
pub open spec fn is_flush(
    before: StateView,
    after: StateView,
    me: Seq<char>,
    last_id: MsgId,
    sent: Seq<MessageView<BodyView>>,
) -> bool {
    let known = neighbors(before.topology, me).to_set().insert(me);
    &&& after.topology == before.topology
    &&& after.values == before.values
    &&& after.pending == Map::<Seq<char>, Set<Val>>::empty()
    &&& before.pending.dom().finite()
    &&& sent.len() == before.pending.dom().len()
    &&& forall|i: int|
        0 <= i < sent.len() ==> is_batch(#[trigger] sent[i], me, known, before.pending, last_id + 1 + i)
    &&& forall|i: int, j: int|
        0 <= i < j < sent.len() ==> (#[trigger] sent[i]).dest != (#[trigger] sent[j]).dest
    &&& forall|node: Seq<char>| #[trigger]
        before.pending.contains_key(node) ==> exists|i: int|
            0 <= i < sent.len() && (#[trigger] sent[i]).dest == node
    &&& after.unconfirmed == Map::new(
        |id: MsgId| before.unconfirmed.contains_key(id) || last_id < id <= last_id + sent.len(),
        |id: MsgId|
            if last_id < id <= last_id + sent.len() {
                sent[id - last_id - 1]
            } else {
                before.unconfirmed[id]
            },
    )
}

/// `resent` holds every outstanding batch of `unconfirmed` exactly once.
pub open spec fn is_resend(
    resent: Seq<MessageView<BodyView>>,
    unconfirmed: Map<MsgId, MessageView<BodyView>>,
) -> bool {
    exists|order: Seq<MsgId>|
        {
            &&& order.no_duplicates()
            &&& order.to_set() == unconfirmed.dom()
            &&& #[trigger] order.len() == resent.len()
            &&& forall|i: int| 0 <= i < order.len() ==> resent[i] == unconfirmed[#[trigger] order[i]]
        }
}

} // verus!
