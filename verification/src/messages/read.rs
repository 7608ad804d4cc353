use crate::messages::MsgId;
use vstd::prelude::*;

verus! {

/// Asks the node for every value it has learned.
#[derive(Debug, Clone, Copy, PartialEq, Eq)]
pub enum ReadBody {
    Read { msg_id: MsgId },
}

/// The values a node has learned, each listed once, in no particular order.
#[derive(Debug, Clone, PartialEq, Eq)]
pub enum ReadOkBody {
    ReadOk { in_reply_to: MsgId, msg_id: MsgId, messages: Vec<i32> },
}

} // verus!
