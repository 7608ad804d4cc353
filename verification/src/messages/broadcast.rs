use crate::messages::MsgId;
use vstd::prelude::*;

verus! {

/// A client asks the node to disseminate one value.
#[derive(Debug, Clone, Copy, PartialEq, Eq)]
pub enum BroadcastBody {
    Broadcast { msg_id: MsgId, message: i32 },
}

/// Acknowledges a broadcast request.
#[derive(Debug, Clone, Copy, PartialEq, Eq)]
pub enum BroadcastOkBody {
    BroadcastOk { in_reply_to: MsgId },
}

} // verus!
