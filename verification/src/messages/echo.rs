use crate::messages::MsgId;
use vstd::prelude::*;

verus! {

/// An arbitrary JSON value carried through untouched.
#[verifier::external_type_specification]
#[verifier::external_body]
pub struct ExJsonValue(serde_json::Value);

/// `serde_json::Value::clone` returns a deep copy: a value equal to the one
/// it was called on.
pub assume_specification[ <serde_json::Value as Clone>::clone ](value: &serde_json::Value) -> (copy:
    serde_json::Value)
    ensures
        copy == *value,
;

/// Asks the node to send `echo` back.
#[derive(Debug, Clone, PartialEq, Eq)]
pub struct EchoBody {
    pub msg_id: MsgId,
    pub echo: serde_json::Value,
}

/// The reply to an [`EchoBody`], carrying the same `echo`.
#[derive(Debug, Clone, PartialEq, Eq)]
pub struct EchoOkBody {
    pub msg_id: MsgId,
    pub in_reply_to: MsgId,
    pub echo: serde_json::Value,
}

} // verus!
