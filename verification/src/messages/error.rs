use crate::messages::MsgId;
use vstd::prelude::*;

verus! {

/// An application-level failure reported in place of a reply.
#[derive(Debug, Clone, PartialEq, Eq)]
pub struct ErrorBody {
    pub in_reply_to: MsgId,
    pub code: u32,
    pub text: String,
}

} // verus!
