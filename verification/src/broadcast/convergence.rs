//! Convergence of the gossip protocol over a whole network.
//!
//! The network is modelled as the states of its nodes together with a
//! record of every batch ever sent and of which batches have arrived. The
//! network may delay, reorder, repeat and drop batches at will; a sender
//! only learns of an arrival by an acknowledgment. Under these rules an
//! invariant holds which says that no value is ever stranded: whenever a
//! node knows a value, each of its neighbours knows it too or it is still on
//! its way there. So once nothing is queued and nothing is outstanding
//! anywhere, neighbours know the same values, and on a connected topology
//! every node knows exactly the values that clients asked to broadcast.

use crate::broadcast::model::{
    acknowledge, is_batch, is_flush, neighbors, pending_for, receive, StateView,
};
use crate::broadcast::{BodyView, Val};
use crate::messages::{MessageView, MsgId};
use vstd::prelude::*;

verus! {

/// What names a batch: its sender and the message id the sender gave it.
pub type BatchId = (Seq<char>, MsgId);

/// A network of gossiping nodes.
pub struct Network {
    /// The topology that every node was told.
    pub adjacency: Map<Seq<char>, Seq<Seq<char>>>,
    /// The state of each node.
    pub nodes: Map<Seq<char>, StateView>,
    /// The last message id each node has issued.
    pub issued: Map<Seq<char>, MsgId>,
    /// Every batch that was ever sent.
    pub sent: Map<BatchId, MessageView<BodyView>>,
    /// The batches that have arrived at least once.
    pub delivered: Set<BatchId>,
    /// Every value that a client ever asked some node to broadcast.
    pub requested: Set<Val>,
}

/// The values that the batch `id` carries.
pub open spec fn carried(net: Network, id: BatchId) -> Set<Val> {
    net.sent[id].body->values.to_set()
}

/// Some node has `v` queued for `dest`.
pub open spec fn queued_somewhere(net: Network, v: Val, dest: Seq<char>) -> bool {
    exists|holder: Seq<char>| #[trigger]
        net.nodes.contains_key(holder) && pending_for(net.nodes[holder].pending, dest).contains(v)
}

/// A batch that has not arrived yet carries `v` to `dest`.
pub open spec fn in_transit(net: Network, v: Val, dest: Seq<char>) -> bool {
    exists|id: BatchId| #[trigger]
        net.sent.contains_key(id) && !net.delivered.contains(id) && net.sent[id].dest == dest
            && carried(net, id).contains(v)
}

/// `dest` knows `v`, or `v` is on its way to `dest`.
pub open spec fn reaches(net: Network, v: Val, dest: Seq<char>) -> bool {
    ||| net.nodes.contains_key(dest) && net.nodes[dest].values.contains(v)
    ||| queued_somewhere(net, v, dest)
    ||| in_transit(net, v, dest)
}

/// What holds of every batch on record: it is a batch of its sender, holds
/// only values the sender knows, and vouches for the sender and the
/// sender's neighbours; once it has arrived its receiver knows its values,
/// and until then the sender keeps it as outstanding.
pub open spec fn batch_on_record(net: Network, id: BatchId) -> bool {
    let batch = net.sent[id];
    &&& net.nodes.contains_key(id.0)
    &&& net.issued.contains_key(id.0)
    &&& id.1 <= net.issued[id.0]
    &&& batch.src == id.0
    &&& batch.body is Propagate
    &&& batch.body->Propagate_msg_id == id.1
    &&& carried(net, id).subset_of(net.nodes[id.0].values)
    &&& batch.body->known_nodes.to_set() == neighbors(net.adjacency, id.0).to_set().insert(id.0)
    &&& net.delivered.contains(id) ==> net.nodes.contains_key(batch.dest) && carried(
        net,
        id,
    ).subset_of(net.nodes[batch.dest].values)
    &&& !net.delivered.contains(id) ==> net.nodes[id.0].unconfirmed.contains_key(id.1)
        && net.nodes[id.0].unconfirmed[id.1] == batch
}

/// The invariant of the network.
pub open spec fn inv(net: Network) -> bool {
    &&& net.nodes.dom() == net.adjacency.dom()
    &&& net.issued.dom() == net.adjacency.dom()
    &&& forall|a: Seq<char>, b: Seq<char>|
        #![trigger net.nodes.contains_key(a), neighbors(net.adjacency, a).contains(b)]
        net.nodes.contains_key(a) && neighbors(net.adjacency, a).contains(b)
            ==> net.nodes.contains_key(b)
    &&& forall|a: Seq<char>| #[trigger]
        net.nodes.contains_key(a) ==> {
            &&& net.nodes[a].topology == net.adjacency
            &&& net.nodes[a].values.subset_of(net.requested)
        }
    &&& forall|a: Seq<char>, n: Seq<char>, v: Val|
        #![trigger net.nodes.contains_key(a), pending_for(net.nodes[a].pending, n).contains(v)]
        net.nodes.contains_key(a) && pending_for(net.nodes[a].pending, n).contains(v)
            ==> net.nodes[a].values.contains(v)
    &&& forall|v: Val| #[trigger]
        net.requested.contains(v) ==> exists|a: Seq<char>| #[trigger]
            net.nodes.contains_key(a) && net.nodes[a].values.contains(v)
    &&& forall|id: BatchId| #[trigger] net.delivered.contains(id) ==> net.sent.contains_key(id)
    &&& forall|id: BatchId| #[trigger] net.sent.contains_key(id) ==> batch_on_record(net, id)
    &&& forall|a: Seq<char>, v: Val, b: Seq<char>|
        #![trigger net.nodes[a].values.contains(v), neighbors(net.adjacency, a).contains(b)]
        net.nodes.contains_key(a) && net.nodes[a].values.contains(v) && neighbors(
            net.adjacency,
            a,
        ).contains(b) ==> reaches(net, v, b)
}

/// A network in which every node has been told the topology and nothing
/// else has happened. Every neighbour named by the topology is a node.
pub open spec fn init(net: Network) -> bool {
    &&& net.nodes.dom() == net.adjacency.dom()
    &&& net.issued.dom() == net.adjacency.dom()
    &&& forall|a: Seq<char>, b: Seq<char>|
        #![trigger net.nodes.contains_key(a), neighbors(net.adjacency, a).contains(b)]
        net.nodes.contains_key(a) && neighbors(net.adjacency, a).contains(b)
            ==> net.nodes.contains_key(b)
    &&& forall|a: Seq<char>| #[trigger]
        net.nodes.contains_key(a) ==> net.nodes[a] == (StateView {
            topology: net.adjacency,
            values: Set::empty(),
            unconfirmed: Map::empty(),
            pending: Map::empty(),
        })
    &&& net.sent == Map::<BatchId, MessageView<BodyView>>::empty()
    &&& net.delivered == Set::<BatchId>::empty()
    &&& net.requested == Set::<Val>::empty()
}

/// A client asks `node` to broadcast `v`.
pub open spec fn client_broadcast(before: Network, after: Network, node: Seq<char>, v: Val) -> bool {
    &&& before.nodes.contains_key(node)
    &&& after == (Network {
        nodes: before.nodes.insert(
            node,
            receive(before.nodes[node], node, set![v], Set::empty()),
        ),
        requested: before.requested.insert(v),
        ..before
    })
}

/// `node` flushes its queues into the batches `batches`, numbered from
/// `last_id + 1`. The node may have issued other message ids since the
/// network last looked.
pub open spec fn flush(
    before: Network,
    after: Network,
    node: Seq<char>,
    last_id: MsgId,
    batches: Seq<MessageView<BodyView>>,
) -> bool {
    &&& before.nodes.contains_key(node)
    &&& before.issued.contains_key(node)
    &&& before.issued[node] <= last_id
    &&& last_id + batches.len() <= u32::MAX
    &&& after.nodes.contains_key(node)
    &&& is_flush(before.nodes[node], after.nodes[node], node, last_id, batches)
    &&& after.nodes == before.nodes.insert(node, after.nodes[node])
    &&& after.issued == before.issued.insert(node, (last_id + batches.len()) as MsgId)
    &&& after.sent == Map::new(
        |id: BatchId|
            before.sent.contains_key(id) || (id.0 == node && last_id < id.1 <= last_id
                + batches.len()),
        |id: BatchId|
            if id.0 == node && last_id < id.1 <= last_id + batches.len() {
                batches[id.1 - last_id - 1]
            } else {
                before.sent[id]
            },
    )
    &&& after.delivered == before.delivered
    &&& after.adjacency == before.adjacency
    &&& after.requested == before.requested
}

/// A copy of the batch `id` arrives at the node it is addressed to. Any
/// batch on record may arrive, at any time and any number of times.
pub open spec fn deliver(before: Network, after: Network, id: BatchId) -> bool {
    let batch = before.sent[id];
    &&& before.sent.contains_key(id)
    &&& before.nodes.contains_key(batch.dest)
    &&& after == (Network {
        nodes: before.nodes.insert(
            batch.dest,
            receive(
                before.nodes[batch.dest],
                batch.dest,
                batch.body->values.to_set(),
                batch.body->known_nodes.to_set(),
            ),
        ),
        delivered: before.delivered.insert(id),
        ..before
    })
}

/// The acknowledgment of the batch `id` arrives at its sender. Only a
/// batch that has arrived is ever acknowledged.
pub open spec fn acknowledged(before: Network, after: Network, id: BatchId) -> bool {
    &&& before.delivered.contains(id)
    &&& before.nodes.contains_key(id.0)
    &&& after == (Network {
        nodes: before.nodes.insert(id.0, acknowledge(before.nodes[id.0], id.1)),
        ..before
    })
}

/// A node issues message ids for something other than batches.
pub open spec fn issues_ids(before: Network, after: Network, node: Seq<char>, last_id: MsgId) -> bool {
    &&& before.issued.contains_key(node)
    &&& before.issued[node] <= last_id
    &&& after == (Network { issued: before.issued.insert(node, last_id), ..before })
}

/// One step of the network. Losing a message, resending a batch and
/// answering a read leave the network as it is.
pub open spec fn next(before: Network, after: Network) -> bool {
    ||| after == before
    ||| exists|node: Seq<char>, v: Val| client_broadcast(before, after, node, v)
    ||| exists|node: Seq<char>, last_id: MsgId, batches: Seq<MessageView<BodyView>>|
        flush(before, after, node, last_id, batches)
    ||| exists|id: BatchId| deliver(before, after, id)
    ||| exists|id: BatchId| acknowledged(before, after, id)
    ||| exists|node: Seq<char>, last_id: MsgId| issues_ids(before, after, node, last_id)
}

/// Nothing is queued and nothing is outstanding at any node.
pub open spec fn quiescent(net: Network) -> bool {
    forall|a: Seq<char>| #[trigger]
        net.nodes.contains_key(a) ==> {
            &&& forall|n: Seq<char>| !net.nodes[a].pending.contains_key(n)
            &&& forall|id: MsgId| !net.nodes[a].unconfirmed.contains_key(id)
        }
}

/// `path` leads from node to neighbour to neighbour.
pub open spec fn is_path(adjacency: Map<Seq<char>, Seq<Seq<char>>>, path: Seq<Seq<char>>) -> bool {
    &&& path.len() > 0
    &&& forall|i: int|
        #![trigger path[i]]
        0 <= i < path.len() - 1 ==> neighbors(adjacency, path[i]).contains(path[i + 1])
}

/// From every node a path leads to every other.
pub open spec fn connected(net: Network) -> bool {
    forall|a: Seq<char>, b: Seq<char>|
        #![trigger net.nodes.contains_key(a), net.nodes.contains_key(b)]
        net.nodes.contains_key(a) && net.nodes.contains_key(b) ==> exists|path: Seq<Seq<char>>|
            #[trigger] is_path(net.adjacency, path) && path[0] == a && path.last() == b
}

/// The invariant holds at the start.
pub proof fn theorem_init_establishes_invariant(net: Network)
    requires
        init(net),
    ensures
        inv(net),
{
}

proof fn lemma_broadcast_preserves(before: Network, after: Network, node: Seq<char>, v: Val)
    requires
        inv(before),
        client_broadcast(before, after, node, v),
    ensures
        inv(after),
{
    let old_state = before.nodes[node];
    assert(after.nodes.dom() =~= before.nodes.dom());
    assert forall|a: Seq<char>, w: Val, b: Seq<char>|
        #![trigger after.nodes[a].values.contains(w), neighbors(after.adjacency, a).contains(b)]
        after.nodes.contains_key(a) && after.nodes[a].values.contains(w) && neighbors(
            after.adjacency,
            a,
        ).contains(b) implies reaches(after, w, b) by {
        if before.nodes[a].values.contains(w) {
            lemma_reaches_survives_learning(before, after, node, w, b);
        } else {
            // The value is new to the node: it has just been queued for
            // every neighbour.
            assert(set![v].difference(old_state.values).contains(v));
        }
    }
}

/// When one node takes a delivery, whatever reached a node before still
/// reaches it, provided that every batch that arrives with the delivery
/// leaves its values with its receiver.
proof fn lemma_reaches_survives_learning(
    before: Network,
    after: Network,
    learner: Seq<char>,
    v: Val,
    dest: Seq<char>,
)
    requires
        before.nodes.contains_key(learner),
        after.nodes.contains_key(learner),
        after.nodes == before.nodes.insert(learner, after.nodes[learner]),
        before.nodes[learner].values.subset_of(after.nodes[learner].values),
        forall|n: Seq<char>|
            pending_for(before.nodes[learner].pending, n).subset_of(
                #[trigger] pending_for(after.nodes[learner].pending, n),
            ),
        after.sent == before.sent,
        forall|id: BatchId|
            #![trigger after.delivered.contains(id)]
            before.sent.contains_key(id) && !before.delivered.contains(id)
                && after.delivered.contains(id) ==> after.nodes.contains_key(before.sent[id].dest)
                && carried(before, id).subset_of(after.nodes[before.sent[id].dest].values),
        reaches(before, v, dest),
    ensures
        reaches(after, v, dest),
{
    if queued_somewhere(before, v, dest) {
        let holder = choose|holder: Seq<char>| #[trigger]
            before.nodes.contains_key(holder) && pending_for(
                before.nodes[holder].pending,
                dest,
            ).contains(v);
        assert(after.nodes.contains_key(holder));
    }
}

proof fn lemma_deliver_preserves(before: Network, after: Network, id: BatchId)
    requires
        inv(before),
        deliver(before, after, id),
    ensures
        inv(after),
{
    let batch = before.sent[id];
    let learner = batch.dest;
    let vals = batch.body->values.to_set();
    let old_state = before.nodes[learner];
    assert(after.nodes.dom() =~= before.nodes.dom());
    assert forall|other: BatchId| #[trigger] after.sent.contains_key(other) implies batch_on_record(
        after,
        other,
    ) by {}
    assert forall|a: Seq<char>, w: Val, b: Seq<char>|
        #![trigger after.nodes[a].values.contains(w), neighbors(after.adjacency, a).contains(b)]
        after.nodes.contains_key(a) && after.nodes[a].values.contains(w) && neighbors(
            after.adjacency,
            a,
        ).contains(b) implies reaches(after, w, b) by {
        if !before.nodes[a].values.contains(w) {
            // The value is new to the receiver of the batch.
            assert(vals.difference(old_state.values).contains(w));
        }
    }
}

proof fn lemma_acknowledged_preserves(before: Network, after: Network, id: BatchId)
    requires
        inv(before),
        acknowledged(before, after, id),
    ensures
        inv(after),
{
    assert(after.nodes.dom() =~= before.nodes.dom());
}

proof fn lemma_issuing_preserves(before: Network, after: Network, node: Seq<char>, last_id: MsgId)
    requires
        inv(before),
        issues_ids(before, after, node, last_id),
    ensures
        inv(after),
{
    assert(after.issued.dom() =~= before.issued.dom());
    assert forall|other: BatchId| #[trigger] after.sent.contains_key(other) implies batch_on_record(
        after,
        other,
    ) by {}
}

proof fn lemma_flush_preserves(
    before: Network,
    after: Network,
    node: Seq<char>,
    last_id: MsgId,
    batches: Seq<MessageView<BodyView>>,
)
    requires
        inv(before),
        flush(before, after, node, last_id, batches),
    ensures
        inv(after),
{
    let old_state = before.nodes[node];
    let new_state = after.nodes[node];
    assert(after.issued.dom() =~= before.issued.dom());
    assert forall|id: BatchId| #[trigger] after.sent.contains_key(id) implies batch_on_record(
        after,
        id,
    ) by {
        if !before.sent.contains_key(id) {
            // A batch of this flush.
            let i = id.1 - last_id - 1;
            let batch = batches[i];
            assert forall|w: Val| carried(after, id).contains(w) implies new_state.values.contains(
                w,
            ) by {
                assert(pending_for(old_state.pending, batch.dest).contains(w));
            }
        }
    }
    assert forall|a: Seq<char>, w: Val, b: Seq<char>|
        #![trigger after.nodes[a].values.contains(w), neighbors(after.adjacency, a).contains(b)]
        after.nodes.contains_key(a) && after.nodes[a].values.contains(w) && neighbors(
            after.adjacency,
            a,
        ).contains(b) implies reaches(after, w, b) by {
        if queued_somewhere(before, w, b) {
            let holder = choose|holder: Seq<char>| #[trigger]
                before.nodes.contains_key(holder) && pending_for(
                    before.nodes[holder].pending,
                    b,
                ).contains(w);
            if holder == node {
                // What was queued here has left in a batch.
                let i = choose|i: int| 0 <= i < batches.len() && (#[trigger] batches[i]).dest == b;
                let id: BatchId = (node, (last_id + 1 + i) as MsgId);
                assert(after.sent.contains_key(id));
            }
        } else if in_transit(before, w, b) {
            let id = choose|id: BatchId| #[trigger]
                before.sent.contains_key(id) && !before.delivered.contains(id)
                    && before.sent[id].dest == b && carried(before, id).contains(w);
            assert(after.sent.contains_key(id));
        }
    }
}

/// Every step of the network preserves the invariant.
pub proof fn theorem_step_preserves_invariant(before: Network, after: Network)
    requires
        inv(before),
        next(before, after),
    ensures
        inv(after),
{
    if after == before {
    } else if exists|node: Seq<char>, v: Val| client_broadcast(before, after, node, v) {
        let (node, v) = choose|node: Seq<char>, v: Val| client_broadcast(before, after, node, v);
        lemma_broadcast_preserves(before, after, node, v);
    } else if exists|node: Seq<char>, last_id: MsgId, batches: Seq<MessageView<BodyView>>|
        flush(before, after, node, last_id, batches) {
        let (node, last_id, batches) = choose|
            node: Seq<char>,
            last_id: MsgId,
            batches: Seq<MessageView<BodyView>>,
        | flush(before, after, node, last_id, batches);
        lemma_flush_preserves(before, after, node, last_id, batches);
    } else if exists|id: BatchId| deliver(before, after, id) {
        let id = choose|id: BatchId| deliver(before, after, id);
        lemma_deliver_preserves(before, after, id);
    } else if exists|id: BatchId| acknowledged(before, after, id) {
        let id = choose|id: BatchId| acknowledged(before, after, id);
        lemma_acknowledged_preserves(before, after, id);
    } else {
        let (node, last_id) = choose|node: Seq<char>, last_id: MsgId|
            issues_ids(before, after, node, last_id);
        lemma_issuing_preserves(before, after, node, last_id);
    }
}

/// `trace` lists successive states of a network from its start.
pub open spec fn is_execution(trace: Seq<Network>) -> bool {
    &&& trace.len() > 0
    &&& init(trace[0])
    &&& forall|k: int| #![trigger trace[k]] 0 <= k < trace.len() - 1 ==> next(trace[k], trace[k + 1])
}

/// The invariant holds in every state that a network can get into.
pub proof fn theorem_invariant_always_holds(trace: Seq<Network>, k: int)
    requires
        is_execution(trace),
        0 <= k < trace.len(),
    ensures
        inv(trace[k]),
    decreases k,
{
    if k == 0 {
        theorem_init_establishes_invariant(trace[0]);
    } else {
        theorem_invariant_always_holds(trace, k - 1);
        theorem_step_preserves_invariant(trace[k - 1], trace[k]);
    }
}

/// Once nothing is queued and nothing is outstanding anywhere, a node's
/// neighbour knows every value that the node knows.
pub proof fn theorem_quiescent_neighbours_agree(net: Network, a: Seq<char>, b: Seq<char>)
    requires
        inv(net),
        quiescent(net),
        net.nodes.contains_key(a),
        neighbors(net.adjacency, a).contains(b),
    ensures
        net.nodes.contains_key(b),
        net.nodes[a].values.subset_of(net.nodes[b].values),
{
}

/// Once nothing is queued and nothing is outstanding anywhere, what the
/// node at the start of a path knows, the node at its end knows too.
pub proof fn theorem_quiescent_values_follow_paths(net: Network, path: Seq<Seq<char>>)
    requires
        inv(net),
        quiescent(net),
        is_path(net.adjacency, path),
        net.nodes.contains_key(path[0]),
    ensures
        net.nodes.contains_key(path.last()),
        net.nodes[path[0]].values.subset_of(net.nodes[path.last()].values),
    decreases path.len(),
{
    if path.len() > 1 {
        let front = path.drop_last();
        theorem_quiescent_values_follow_paths(net, front);
        let i = path.len() - 2;
        theorem_quiescent_neighbours_agree(net, path[i], path[i + 1]);
    }
}

/// Convergence: on a connected topology, once nothing is queued and
/// nothing is outstanding anywhere, every node knows exactly the values
/// that clients asked to broadcast, wherever they asked.
pub proof fn theorem_quiescent_network_has_converged(net: Network, node: Seq<char>)
    requires
        inv(net),
        quiescent(net),
        connected(net),
        net.nodes.contains_key(node),
    ensures
        net.nodes[node].values == net.requested,
{
    assert forall|v: Val| net.requested.contains(v) implies net.nodes[node].values.contains(v) by {
        let origin = choose|a: Seq<char>| #[trigger]
            net.nodes.contains_key(a) && net.nodes[a].values.contains(v);
        let path = choose|path: Seq<Seq<char>>| #[trigger]
            is_path(net.adjacency, path) && path[0] == origin && path.last() == node;
        theorem_quiescent_values_follow_paths(net, path);
    }
}

/// The protocol does not give up early: on a connected topology, as long
/// as some node lacks a value that a client asked to broadcast, something
/// is still queued or outstanding somewhere, so that the flush and resend
/// tasks still have work to do.
pub proof fn theorem_unconverged_network_has_work_left(net: Network, node: Seq<char>, v: Val)
    requires
        inv(net),
        connected(net),
        net.nodes.contains_key(node),
        net.requested.contains(v),
        !net.nodes[node].values.contains(v),
    ensures
        !quiescent(net),
{
    if quiescent(net) {
        theorem_quiescent_network_has_converged(net, node);
    }
}

} // verus!
