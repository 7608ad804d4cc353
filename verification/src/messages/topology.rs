use crate::messages::MsgId;
use vstd::prelude::*;

verus! {

/// Tells the node who its neighbours are: one entry per node, listing the
/// nodes adjacent to it. When a node is listed twice the later entry counts.
#[derive(Debug, Clone, PartialEq, Eq)]
pub enum TopologyBody {
    Topology { msg_id: MsgId, topology: Vec<(String, Vec<String>)> },
}

/// Acknowledges a topology message.
#[derive(Debug, Clone, Copy, PartialEq, Eq)]
pub enum TopologyOkBody {
    TopologyOk { in_reply_to: MsgId, msg_id: MsgId },
}

} // verus!
