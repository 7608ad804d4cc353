use crate::messages::MsgId;
use vstd::prelude::*;

verus! {

/// Asks the node for an identifier that no other request will receive.
#[derive(Debug, Clone, Copy, PartialEq, Eq)]
pub struct GenerateBody {
    pub msg_id: MsgId,
}

/// Carries the generated identifier.
#[derive(Debug, Clone, PartialEq, Eq)]
pub struct GenerateOkBody {
    pub in_reply_to: MsgId,
    pub id: String,
}

} // verus!
