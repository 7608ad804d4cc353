//! The envelope that every component exchanges, and the header fields that
//! the runtime needs from any payload.

use vstd::prelude::*;

pub mod broadcast;
pub mod echo;
pub mod error;
pub mod generate;
pub mod init;
pub mod read;
pub mod topology;

verus! {

/// Identifier that a sender assigns to a request; a reply echoes it back.
pub type MsgId = u32;

/// The header fields shared by every payload: its type tag and the two
/// correlation ids, either of which may be absent.
#[derive(Debug, Clone, PartialEq, Eq)]
pub struct CommonBody {
    pub t: String,
    pub msg_id: Option<MsgId>,
    pub in_reply_to: Option<MsgId>,
}

/// Mathematical value of a [`CommonBody`].
pub struct CommonBodyView {
    pub t: Seq<char>,
    pub msg_id: Option<MsgId>,
    pub in_reply_to: Option<MsgId>,
}

impl View for CommonBody {
    type V = CommonBodyView;

    open spec fn view(&self) -> CommonBodyView {
        CommonBodyView { t: self.t@, msg_id: self.msg_id, in_reply_to: self.in_reply_to }
    }
}

/// One message on the wire: who sent it, whom it is for, and its payload.
#[derive(Debug, Clone, PartialEq, Eq)]
pub struct Message<B = CommonBody> {
    pub src: String,
    pub dest: String,
    pub body: B,
}

/// Mathematical value of a [`Message`] whose payload has the value `V`.
pub struct MessageView<V> {
    pub src: Seq<char>,
    pub dest: Seq<char>,
    pub body: V,
}

impl<B: View> View for Message<B> {
    type V = MessageView<B::V>;

    open spec fn view(&self) -> MessageView<B::V> {
        MessageView { src: self.src@, dest: self.dest@, body: self.body@ }
    }
}

/// What the runtime reads from a payload without knowing its variants.
pub trait Payload: View + Sized {
    /// The wire name of the payload's variant.
    spec fn tag(&self) -> Seq<char>;

    /// The id the sender gave this payload, if it is a request.
    spec fn request_id(&self) -> Option<MsgId>;

    /// The id of the request this payload answers, if it is a reply.
    spec fn reply_to(&self) -> Option<MsgId>;

    fn type_tag(&self) -> (t: String)
        ensures
            t@ == self.tag(),
    ;

    fn msg_id(&self) -> (id: Option<MsgId>)
        ensures
            id == self.request_id(),
    ;

    fn in_reply_to(&self) -> (id: Option<MsgId>)
        ensures
            id == self.reply_to(),
    ;

    /// An independent copy with the same mathematical value and header.
    fn duplicate(&self) -> (copy: Self)
        ensures
            copy@ == self@,
            copy.tag() == self.tag(),
            copy.request_id() == self.request_id(),
            copy.reply_to() == self.reply_to(),
    ;
}

impl Payload for CommonBody {
    open spec fn tag(&self) -> Seq<char> {
        self.t@
    }

    open spec fn request_id(&self) -> Option<MsgId> {
        self.msg_id
    }

    open spec fn reply_to(&self) -> Option<MsgId> {
        self.in_reply_to
    }

    fn type_tag(&self) -> (t: String) {
        self.t.clone()
    }

    fn msg_id(&self) -> (id: Option<MsgId>) {
        self.msg_id
    }

    fn in_reply_to(&self) -> (id: Option<MsgId>) {
        self.in_reply_to
    }

    fn duplicate(&self) -> (copy: Self) {
        CommonBody { t: self.t.clone(), msg_id: self.msg_id, in_reply_to: self.in_reply_to }
    }
}

impl<B: Payload> Message<B> {
    /// The header of this message: same endpoints, payload reduced to its
    /// type tag and correlation ids.
    pub fn to_common_message(&self) -> (common: Message<CommonBody>)
        ensures
            common@ == (MessageView {
                src: self.src@,
                dest: self.dest@,
                body: CommonBodyView {
                    t: self.body.tag(),
                    msg_id: self.body.request_id(),
                    in_reply_to: self.body.reply_to(),
                },
            }),
    {
        Message {
            src: self.src.clone(),
            dest: self.dest.clone(),
            body: CommonBody {
                t: self.body.type_tag(),
                msg_id: self.body.msg_id(),
                in_reply_to: self.body.in_reply_to(),
            },
        }
    }

    /// An independent copy of this message.
    pub fn duplicate(&self) -> (copy: Message<B>)
        ensures
            copy@ == self@,
            copy.body.tag() == self.body.tag(),
            copy.body.request_id() == self.body.request_id(),
            copy.body.reply_to() == self.body.reply_to(),
    {
        Message { src: self.src.clone(), dest: self.dest.clone(), body: self.body.duplicate() }
    }
}

/// The mathematical value of a list of strings.
pub open spec fn names(list: Seq<String>) -> Seq<Seq<char>> {
    Seq::new(list.len(), |i: int| list[i]@)
}

/// Copies a list of strings.
pub fn duplicate_names(list: &Vec<String>) -> (copy: Vec<String>)
    ensures
        names(copy@) == names(list@),
{
    let mut copy: Vec<String> = Vec::new();
    let mut i: usize = 0;
    while i < list.len()
        invariant
            i <= list.len(),
            copy.len() == i,
            forall|j: int| 0 <= j < i ==> copy[j]@ == list[j]@,
        decreases list.len() - i,
    {
        copy.push(list[i].clone());
        i += 1;
    }
    copy
}

/// Whether `name` occurs in `list`.
pub fn contains_name(list: &Vec<String>, name: &String) -> (found: bool)
    ensures
        found == names(list@).contains(name@),
{
    let mut i: usize = 0;
    while i < list.len()
        invariant
            i <= list.len(),
            forall|j: int| 0 <= j < i ==> names(list@)[j] != name@,
        decreases list.len() - i,
    {
        if list[i] == *name {
            assert(names(list@)[i as int] == name@);
            return true;
        }
        i += 1;
    }
    false
}

/// Copies a list of values.
pub fn duplicate_values(list: &Vec<i32>) -> (copy: Vec<i32>)
    ensures
        copy@ == list@,
{
    let mut copy: Vec<i32> = Vec::new();
    let mut i: usize = 0;
    while i < list.len()
        invariant
            i <= list.len(),
            copy@ == list@.take(i as int),
        decreases list.len() - i,
    {
        copy.push(list[i]);
        i += 1;
    }
    copy
}

/// Whether `value` occurs in `list`.
pub fn contains_value(list: &Vec<i32>, value: i32) -> (found: bool)
    ensures
        found == list@.contains(value),
{
    let mut i: usize = 0;
    while i < list.len()
        invariant
            i <= list.len(),
            forall|j: int| 0 <= j < i ==> list[j] != value,
        decreases list.len() - i,
    {
        if list[i] == value {
            return true;
        }
        i += 1;
    }
    false
}

} // verus!
