//! What holds of the gossip model whatever the network does: a node's set of
//! values only grows and depends only on what was delivered, not on the
//! order or number of deliveries; flood suppression is respected; a value
//! is queued for a neighbour at most once; acknowledging is idempotent; and
//! a batch stays outstanding, unchanged, until it is acknowledged.

use crate::broadcast::model::{
    acknowledge, is_flush, is_resend, neighbors, pending_for, receive, with_topology, StateView,
};
use crate::broadcast::{BodyView, Val};
use crate::messages::{MessageView, MsgId};
use vstd::prelude::*;

verus! {

/// One delivery to a node: the values handed over, and the nodes said to
/// have them already.
pub struct Delivery {
    pub values: Set<Val>,
    pub known: Set<Seq<char>>,
}

/// The state of node `me` after the deliveries `ds`, in that order.
pub open spec fn deliver_all(s: StateView, me: Seq<char>, ds: Seq<Delivery>) -> StateView
    decreases ds.len(),
{
    if ds.len() == 0 {
        s
    } else {
        receive(deliver_all(s, me, ds.drop_last()), me, ds.last().values, ds.last().known)
    }
}

/// Every value that some delivery of `ds` hands over.
pub open spec fn delivered(ds: Seq<Delivery>) -> Set<Val> {
    Set::new(|v: Val| exists|i: int| 0 <= i < ds.len() && (#[trigger] ds[i]).values.contains(v))
}

/// `after` is `before`, or what `before` becomes when node `me` takes a
/// delivery, is told a topology, gets an acknowledgment, or flushes.
pub open spec fn step(me: Seq<char>, before: StateView, after: StateView) -> bool {
    ||| after == before
    ||| exists|vals: Set<Val>, known: Set<Seq<char>>| after == receive(before, me, vals, known)
    ||| exists|entries: Seq<(Seq<char>, Seq<Seq<char>>)>| after == with_topology(before, entries)
    ||| exists|id: MsgId| after == acknowledge(before, id)
    ||| exists|last_id: MsgId, sent: Seq<MessageView<BodyView>>|
        is_flush(before, after, me, last_id, sent)
}

/// `trace` lists the successive states of node `me`.
pub open spec fn is_run(me: Seq<char>, trace: Seq<StateView>) -> bool {
    forall|k: int| #![trigger trace[k]] 0 <= k < trace.len() - 1 ==> step(me, trace[k], trace[k + 1])
}

/// A delivery adds exactly the delivered values to what the node knows.
pub proof fn theorem_delivery_adds_its_values(
    s: StateView,
    me: Seq<char>,
    vals: Set<Val>,
    known: Set<Seq<char>>,
)
    ensures
        receive(s, me, vals, known).values == s.values.union(vals),
        s.values.subset_of(receive(s, me, vals, known).values),
{
}

/// After any deliveries the node knows what it knew before and everything
/// that was delivered, and nothing else. Since the right-hand side does not
/// look at the order of the deliveries or at how often a value came, neither
/// reordering nor repeating deliveries changes what the node ends up knowing.
pub proof fn theorem_values_are_what_was_delivered(s: StateView, me: Seq<char>, ds: Seq<Delivery>)
    ensures
        deliver_all(s, me, ds).values == s.values.union(delivered(ds)),
    decreases ds.len(),
{
    if !(ds.len() == 0) {
        let front = ds.drop_last();
        theorem_values_are_what_was_delivered(s, me, front);
        assert forall|v: Val| delivered(ds).contains(v) <==> delivered(front).contains(v)
            || ds.last().values.contains(v) by {
            if delivered(ds).contains(v) {
                let i = choose|i: int| 0 <= i < ds.len() && (#[trigger] ds[i]).values.contains(v);
                if i < ds.len() - 1 {
                    assert(front[i].values.contains(v));
                }
            }
        }
    }
}

/// No step takes a value away from a node.
pub proof fn theorem_step_keeps_values(me: Seq<char>, before: StateView, after: StateView)
    requires
        step(me, before, after),
    ensures
        before.values.subset_of(after.values),
{
}

/// A node never loses a value: along any run, what it knows at one point it
/// knows at every later point.
pub proof fn theorem_values_never_shrink(me: Seq<char>, trace: Seq<StateView>, i: int, j: int)
    requires
        is_run(me, trace),
        0 <= i <= j < trace.len(),
    ensures
        trace[i].values.subset_of(trace[j].values),
    decreases j - i,
{
    if i < j {
        theorem_values_never_shrink(me, trace, i, j - 1);
        theorem_step_keeps_values(me, trace[j - 1], trace[j]);
    }
}

/// A value that is new to the node is queued for every neighbour that the
/// sender did not vouch for.
pub proof fn theorem_new_value_is_queued_for_the_others(
    s: StateView,
    me: Seq<char>,
    vals: Set<Val>,
    known: Set<Seq<char>>,
    v: Val,
    neighbour: Seq<char>,
)
    requires
        vals.contains(v),
        !s.values.contains(v),
        neighbors(s.topology, me).contains(neighbour),
        !known.contains(neighbour),
    ensures
        receive(s, me, vals, known).pending.contains_key(neighbour),
        receive(s, me, vals, known).pending[neighbour].contains(v),
{
    assert(vals.difference(s.values).contains(v));
}

/// Flood suppression: a delivery queues nothing for a node that the sender
/// vouched for, nor for a node that is no neighbour.
pub proof fn theorem_nothing_is_queued_for_known_nodes(
    s: StateView,
    me: Seq<char>,
    vals: Set<Val>,
    known: Set<Seq<char>>,
    node: Seq<char>,
)
    requires
        known.contains(node) || !neighbors(s.topology, me).contains(node),
    ensures
        receive(s, me, vals, known).pending.contains_key(node) == s.pending.contains_key(node),
        pending_for(receive(s, me, vals, known).pending, node) == pending_for(s.pending, node),
{
}

/// A value that the node knows already is queued for nobody by a delivery,
/// whatever the sender claims.
pub proof fn theorem_known_value_is_not_queued(
    s: StateView,
    me: Seq<char>,
    vals: Set<Val>,
    known: Set<Seq<char>>,
    v: Val,
    node: Seq<char>,
)
    requires
        s.values.contains(v),
    ensures
        pending_for(receive(s, me, vals, known).pending, node).contains(v) == pending_for(
            s.pending,
            node,
        ).contains(v),
{
}

/// A delivery of nothing but known values leaves the state as it was.
pub proof fn theorem_known_values_change_nothing(
    s: StateView,
    me: Seq<char>,
    vals: Set<Val>,
    known: Set<Seq<char>>,
)
    requires
        vals.subset_of(s.values),
    ensures
        receive(s, me, vals, known) == s,
{
    let r = receive(s, me, vals, known);
    assert(r.values =~= s.values);
    assert forall|node: Seq<char>| r.pending.contains_key(node) implies r.pending[node]
        =~= s.pending[node] by {}
    assert(r.pending =~= s.pending);
}

/// Delivering the same values a second time changes nothing, whatever the
/// second sender claims: a batch that is resent is not propagated again.
pub proof fn theorem_redelivery_changes_nothing(
    s: StateView,
    me: Seq<char>,
    vals: Set<Val>,
    known: Set<Seq<char>>,
    known_again: Set<Seq<char>>,
)
    ensures
        receive(receive(s, me, vals, known), me, vals, known_again) == receive(s, me, vals, known),
{
    theorem_known_values_change_nothing(receive(s, me, vals, known), me, vals, known_again);
}

/// Once a node knows a value, no step queues it for anybody.
pub proof fn theorem_step_queues_no_known_value(
    me: Seq<char>,
    before: StateView,
    after: StateView,
    v: Val,
    node: Seq<char>,
)
    requires
        step(me, before, after),
        before.values.contains(v),
        !pending_for(before.pending, node).contains(v),
    ensures
        !pending_for(after.pending, node).contains(v),
{
}

/// A value is queued for a neighbour at most once: if at some point of a
/// run the node knows the value and does not have it queued for `node`,
/// then it is never queued for `node` afterwards.
pub proof fn theorem_value_is_queued_at_most_once(
    me: Seq<char>,
    trace: Seq<StateView>,
    i: int,
    j: int,
    v: Val,
    node: Seq<char>,
)
    requires
        is_run(me, trace),
        0 <= i <= j < trace.len(),
        trace[i].values.contains(v),
        !pending_for(trace[i].pending, node).contains(v),
    ensures
        !pending_for(trace[j].pending, node).contains(v),
    decreases j - i,
{
    if i < j {
        theorem_value_is_queued_at_most_once(me, trace, i, j - 1, v, node);
        theorem_values_never_shrink(me, trace, i, j - 1);
        theorem_step_queues_no_known_value(me, trace[j - 1], trace[j], v, node);
    }
}

/// Acknowledging the same batch twice is the same as acknowledging it once,
/// and acknowledging a batch that is not outstanding changes nothing.
pub proof fn theorem_acknowledging_is_idempotent(s: StateView, id: MsgId)
    ensures
        acknowledge(acknowledge(s, id), id) == acknowledge(s, id),
        !s.unconfirmed.contains_key(id) ==> acknowledge(s, id) == s,
        !acknowledge(s, id).unconfirmed.contains_key(id),
{
    assert(acknowledge(s, id).unconfirmed.remove(id) =~= acknowledge(s, id).unconfirmed);
    if !s.unconfirmed.contains_key(id) {
        assert(s.unconfirmed.remove(id) =~= s.unconfirmed);
    }
}

/// A resend carries every outstanding batch as it was filed.
pub proof fn theorem_resend_carries_every_outstanding_batch(
    resent: Seq<MessageView<BodyView>>,
    unconfirmed: Map<MsgId, MessageView<BodyView>>,
    id: MsgId,
)
    requires
        is_resend(resent, unconfirmed),
        unconfirmed.contains_key(id),
    ensures
        resent.contains(unconfirmed[id]),
{
    let order = choose|order: Seq<MsgId>|
        {
            &&& order.no_duplicates()
            &&& order.to_set() == unconfirmed.dom()
            &&& #[trigger] order.len() == resent.len()
            &&& forall|i: int| 0 <= i < order.len() ==> resent[i] == unconfirmed[#[trigger] order[i]]
        };
}

/// Only its acknowledgment removes a batch: a delivery and a topology
/// message leave every outstanding batch as it is.
pub proof fn theorem_batches_survive_deliveries(
    s: StateView,
    me: Seq<char>,
    vals: Set<Val>,
    known: Set<Seq<char>>,
    entries: Seq<(Seq<char>, Seq<Seq<char>>)>,
)
    ensures
        receive(s, me, vals, known).unconfirmed == s.unconfirmed,
        with_topology(s, entries).unconfirmed == s.unconfirmed,
{
}

/// The acknowledgment of one batch leaves every other outstanding batch as
/// it is.
pub proof fn theorem_batches_survive_other_acknowledgments(s: StateView, id: MsgId, other: MsgId)
    requires
        s.unconfirmed.contains_key(id),
        other != id,
    ensures
        acknowledge(s, other).unconfirmed.contains_key(id),
        acknowledge(s, other).unconfirmed[id] == s.unconfirmed[id],
{
}

/// A flush leaves every batch that was numbered before it outstanding and
/// as it is.
pub proof fn theorem_batches_survive_flushes(
    before: StateView,
    after: StateView,
    me: Seq<char>,
    last_id: MsgId,
    sent: Seq<MessageView<BodyView>>,
    id: MsgId,
)
    requires
        is_flush(before, after, me, last_id, sent),
        before.unconfirmed.contains_key(id),
        id <= last_id,
    ensures
        after.unconfirmed.contains_key(id),
        after.unconfirmed[id] == before.unconfirmed[id],
{
}

} // verus!
