//! The log service: clients append messages to named logs, read them back
//! from an offset, and record how far they have read. Appends are cleared
//! with a linearizable key-value service before they take effect.

use crate::messages::error::ErrorBody;
use crate::messages::{names, Message, MessageView, MsgId, Payload};
use crate::node::Node;
use vstd::hash_map::StringHashMap;
use vstd::prelude::*;
use vstd::string::StringExecFns;

verus! {

pub type Key = String;

pub type Val = usize;

pub type Offset = usize;

/// The error code by which the key-value service says a key is missing.
pub const KEY_DOES_NOT_EXIST: u32 = 20;

/// The payloads of the log service and of its exchange with the key-value
/// service.
#[derive(Debug, Clone, PartialEq, Eq)]
pub enum Body {
    Send { msg_id: MsgId, key: Key, msg: Val },
    SendOk { in_reply_to: MsgId, offset: Offset },
    Poll { msg_id: MsgId, offsets: Vec<(Key, Offset)> },
    PollOk { in_reply_to: MsgId, msgs: Vec<(Key, Vec<(Offset, Val)>)> },
    CommitOffsets { msg_id: MsgId, offsets: Vec<(Key, Offset)> },
    CommitOffsetsOk { in_reply_to: MsgId },
    ListCommittedOffsets { msg_id: MsgId, keys: Vec<Key> },
    ListCommittedOffsetsOk { in_reply_to: MsgId, offsets: Vec<(Key, Offset)> },
    Read { msg_id: MsgId, key: Key },
    ReadOk { in_reply_to: MsgId, value: Val },
    Write { msg_id: MsgId, key: Key, value: Val },
    WriteOk { in_reply_to: MsgId },
    Cas { msg_id: MsgId, key: Key, from: Val, to: Val },
    CasOk { in_reply_to: MsgId },
    Error(ErrorBody),
}

/// The mathematical value of a list of offsets by key.
pub open spec fn offsets_view(offsets: Seq<(Key, Offset)>) -> Seq<(Seq<char>, Offset)> {
    Seq::new(offsets.len(), |i: int| (offsets[i].0@, offsets[i].1))
}

/// The mathematical value of a list of log excerpts by key.
pub open spec fn excerpts_view(msgs: Seq<(Key, Vec<(Offset, Val)>)>) -> Seq<
    (Seq<char>, Seq<(Offset, Val)>),
> {
    Seq::new(msgs.len(), |i: int| (msgs[i].0@, msgs[i].1@))
}

/// Mathematical value of a [`Body`].
pub enum BodyView {
    Send { msg_id: MsgId, key: Seq<char>, msg: Val },
    SendOk { in_reply_to: MsgId, offset: Offset },
    Poll { msg_id: MsgId, offsets: Seq<(Seq<char>, Offset)> },
    PollOk { in_reply_to: MsgId, msgs: Seq<(Seq<char>, Seq<(Offset, Val)>)> },
    CommitOffsets { msg_id: MsgId, offsets: Seq<(Seq<char>, Offset)> },
    CommitOffsetsOk { in_reply_to: MsgId },
    ListCommittedOffsets { msg_id: MsgId, keys: Seq<Seq<char>> },
    ListCommittedOffsetsOk { in_reply_to: MsgId, offsets: Seq<(Seq<char>, Offset)> },
    Read { msg_id: MsgId, key: Seq<char> },
    ReadOk { in_reply_to: MsgId, value: Val },
    Write { msg_id: MsgId, key: Seq<char>, value: Val },
    WriteOk { in_reply_to: MsgId },
    Cas { msg_id: MsgId, key: Seq<char>, from: Val, to: Val },
    CasOk { in_reply_to: MsgId },
    Error { in_reply_to: MsgId, code: u32, text: Seq<char> },
}

impl View for Body {
    type V = BodyView;

    open spec fn view(&self) -> BodyView {
        match self {
            Body::Send { msg_id, key, msg } => BodyView::Send {
                msg_id: *msg_id,
                key: key@,
                msg: *msg,
            },
            Body::SendOk { in_reply_to, offset } => BodyView::SendOk {
                in_reply_to: *in_reply_to,
                offset: *offset,
            },
            Body::Poll { msg_id, offsets } => BodyView::Poll {
                msg_id: *msg_id,
                offsets: offsets_view(offsets@),
            },
            Body::PollOk { in_reply_to, msgs } => BodyView::PollOk {
                in_reply_to: *in_reply_to,
                msgs: excerpts_view(msgs@),
            },
            Body::CommitOffsets { msg_id, offsets } => BodyView::CommitOffsets {
                msg_id: *msg_id,
                offsets: offsets_view(offsets@),
            },
            Body::CommitOffsetsOk { in_reply_to } => BodyView::CommitOffsetsOk {
                in_reply_to: *in_reply_to,
            },
            Body::ListCommittedOffsets { msg_id, keys } => BodyView::ListCommittedOffsets {
                msg_id: *msg_id,
                keys: names(keys@),
            },
            Body::ListCommittedOffsetsOk { in_reply_to, offsets } => BodyView::ListCommittedOffsetsOk {
                in_reply_to: *in_reply_to,
                offsets: offsets_view(offsets@),
            },
            Body::Read { msg_id, key } => BodyView::Read { msg_id: *msg_id, key: key@ },
            Body::ReadOk { in_reply_to, value } => BodyView::ReadOk {
                in_reply_to: *in_reply_to,
                value: *value,
            },
            Body::Write { msg_id, key, value } => BodyView::Write {
                msg_id: *msg_id,
                key: key@,
                value: *value,
            },
            Body::WriteOk { in_reply_to } => BodyView::WriteOk { in_reply_to: *in_reply_to },
            Body::Cas { msg_id, key, from, to } => BodyView::Cas {
                msg_id: *msg_id,
                key: key@,
                from: *from,
                to: *to,
            },
            Body::CasOk { in_reply_to } => BodyView::CasOk { in_reply_to: *in_reply_to },
            Body::Error(body) => BodyView::Error {
                in_reply_to: body.in_reply_to,
                code: body.code,
                text: body.text@,
            },
        }
    }
}

fn duplicate_offsets(offsets: &Vec<(Key, Offset)>) -> (copy: Vec<(Key, Offset)>)
    ensures
        offsets_view(copy@) == offsets_view(offsets@),
{
    let mut copy: Vec<(Key, Offset)> = Vec::new();
    let mut i: usize = 0;
    while i < offsets.len()
        invariant
            i <= offsets.len(),
            copy.len() == i,
            forall|j: int| 0 <= j < i ==> copy[j].0@ == offsets[j].0@ && copy[j].1 == offsets[j].1,
        decreases offsets.len() - i,
    {
        copy.push((offsets[i].0.clone(), offsets[i].1));
        i += 1;
    }
    copy
}

fn duplicate_excerpt(excerpt: &Vec<(Offset, Val)>) -> (copy: Vec<(Offset, Val)>)
    ensures
        copy@ == excerpt@,
{
    let mut copy: Vec<(Offset, Val)> = Vec::new();
    let mut i: usize = 0;
    while i < excerpt.len()
        invariant
            i <= excerpt.len(),
            copy@ == excerpt@.take(i as int),
        decreases excerpt.len() - i,
    {
        copy.push(excerpt[i]);
        i += 1;
    }
    copy
}

fn duplicate_excerpts(msgs: &Vec<(Key, Vec<(Offset, Val)>)>) -> (copy: Vec<
    (Key, Vec<(Offset, Val)>),
>)
    ensures
        excerpts_view(copy@) == excerpts_view(msgs@),
{
    let mut copy: Vec<(Key, Vec<(Offset, Val)>)> = Vec::new();
    let mut i: usize = 0;
    while i < msgs.len()
        invariant
            i <= msgs.len(),
            copy.len() == i,
            forall|j: int| 0 <= j < i ==> copy[j].0@ == msgs[j].0@ && copy[j].1@ == msgs[j].1@,
        decreases msgs.len() - i,
    {
        let excerpt = duplicate_excerpt(&msgs[i].1);
        copy.push((msgs[i].0.clone(), excerpt));
        i += 1;
    }
    copy
}

impl Payload for Body {
    open spec fn tag(&self) -> Seq<char> {
        match self {
            Body::Send { .. } => "send"@,
            Body::SendOk { .. } => "send_ok"@,
            Body::Poll { .. } => "poll"@,
            Body::PollOk { .. } => "poll_ok"@,
            Body::CommitOffsets { .. } => "commit_offsets"@,
            Body::CommitOffsetsOk { .. } => "commit_offsets_ok"@,
            Body::ListCommittedOffsets { .. } => "list_committed_offsets"@,
            Body::ListCommittedOffsetsOk { .. } => "list_committed_offsets_ok"@,
            Body::Read { .. } => "read"@,
            Body::ReadOk { .. } => "read_ok"@,
            Body::Write { .. } => "write"@,
            Body::WriteOk { .. } => "write_ok"@,
            Body::Cas { .. } => "cas"@,
            Body::CasOk { .. } => "cas_ok"@,
            Body::Error(_) => "error"@,
        }
    }

    open spec fn request_id(&self) -> Option<MsgId> {
        match self {
            Body::Send { msg_id, .. } => Some(*msg_id),
            Body::Poll { msg_id, .. } => Some(*msg_id),
            Body::CommitOffsets { msg_id, .. } => Some(*msg_id),
            Body::ListCommittedOffsets { msg_id, .. } => Some(*msg_id),
            Body::Read { msg_id, .. } => Some(*msg_id),
            Body::Write { msg_id, .. } => Some(*msg_id),
            Body::Cas { msg_id, .. } => Some(*msg_id),
            _ => None,
        }
    }

    open spec fn reply_to(&self) -> Option<MsgId> {
        match self {
            Body::SendOk { in_reply_to, .. } => Some(*in_reply_to),
            Body::PollOk { in_reply_to, .. } => Some(*in_reply_to),
            Body::CommitOffsetsOk { in_reply_to } => Some(*in_reply_to),
            Body::ListCommittedOffsetsOk { in_reply_to, .. } => Some(*in_reply_to),
            Body::ReadOk { in_reply_to, .. } => Some(*in_reply_to),
            Body::WriteOk { in_reply_to } => Some(*in_reply_to),
            Body::CasOk { in_reply_to } => Some(*in_reply_to),
            Body::Error(body) => Some(body.in_reply_to),
            _ => None,
        }
    }

    fn type_tag(&self) -> (t: String) {
        match self {
            Body::Send { .. } => "send".to_owned(),
            Body::SendOk { .. } => "send_ok".to_owned(),
            Body::Poll { .. } => "poll".to_owned(),
            Body::PollOk { .. } => "poll_ok".to_owned(),
            Body::CommitOffsets { .. } => "commit_offsets".to_owned(),
            Body::CommitOffsetsOk { .. } => "commit_offsets_ok".to_owned(),
            Body::ListCommittedOffsets { .. } => "list_committed_offsets".to_owned(),
            Body::ListCommittedOffsetsOk { .. } => "list_committed_offsets_ok".to_owned(),
            Body::Read { .. } => "read".to_owned(),
            Body::ReadOk { .. } => "read_ok".to_owned(),
            Body::Write { .. } => "write".to_owned(),
            Body::WriteOk { .. } => "write_ok".to_owned(),
            Body::Cas { .. } => "cas".to_owned(),
            Body::CasOk { .. } => "cas_ok".to_owned(),
            Body::Error(_) => "error".to_owned(),
        }
    }

    fn msg_id(&self) -> (id: Option<MsgId>) {
        match self {
            Body::Send { msg_id, .. } => Some(*msg_id),
            Body::Poll { msg_id, .. } => Some(*msg_id),
            Body::CommitOffsets { msg_id, .. } => Some(*msg_id),
            Body::ListCommittedOffsets { msg_id, .. } => Some(*msg_id),
            Body::Read { msg_id, .. } => Some(*msg_id),
            Body::Write { msg_id, .. } => Some(*msg_id),
            Body::Cas { msg_id, .. } => Some(*msg_id),
            _ => None,
        }
    }

    fn in_reply_to(&self) -> (id: Option<MsgId>) {
        match self {
            Body::SendOk { in_reply_to, .. } => Some(*in_reply_to),
            Body::PollOk { in_reply_to, .. } => Some(*in_reply_to),
            Body::CommitOffsetsOk { in_reply_to } => Some(*in_reply_to),
            Body::ListCommittedOffsetsOk { in_reply_to, .. } => Some(*in_reply_to),
            Body::ReadOk { in_reply_to, .. } => Some(*in_reply_to),
            Body::WriteOk { in_reply_to } => Some(*in_reply_to),
            Body::CasOk { in_reply_to } => Some(*in_reply_to),
            Body::Error(body) => Some(body.in_reply_to),
            _ => None,
        }
    }

    fn duplicate(&self) -> (copy: Self) {
        match self {
            Body::Send { msg_id, key, msg } => Body::Send {
                msg_id: *msg_id,
                key: key.clone(),
                msg: *msg,
            },
            Body::SendOk { in_reply_to, offset } => Body::SendOk {
                in_reply_to: *in_reply_to,
                offset: *offset,
            },
            Body::Poll { msg_id, offsets } => Body::Poll {
                msg_id: *msg_id,
                offsets: duplicate_offsets(offsets),
            },
            Body::PollOk { in_reply_to, msgs } => Body::PollOk {
                in_reply_to: *in_reply_to,
                msgs: duplicate_excerpts(msgs),
            },
            Body::CommitOffsets { msg_id, offsets } => Body::CommitOffsets {
                msg_id: *msg_id,
                offsets: duplicate_offsets(offsets),
            },
            Body::CommitOffsetsOk { in_reply_to } => Body::CommitOffsetsOk {
                in_reply_to: *in_reply_to,
            },
            Body::ListCommittedOffsets { msg_id, keys } => Body::ListCommittedOffsets {
                msg_id: *msg_id,
                keys: crate::messages::duplicate_names(keys),
            },
            Body::ListCommittedOffsetsOk { in_reply_to, offsets } => Body::ListCommittedOffsetsOk {
                in_reply_to: *in_reply_to,
                offsets: duplicate_offsets(offsets),
            },
            Body::Read { msg_id, key } => Body::Read { msg_id: *msg_id, key: key.clone() },
            Body::ReadOk { in_reply_to, value } => Body::ReadOk {
                in_reply_to: *in_reply_to,
                value: *value,
            },
            Body::Write { msg_id, key, value } => Body::Write {
                msg_id: *msg_id,
                key: key.clone(),
                value: *value,
            },
            Body::WriteOk { in_reply_to } => Body::WriteOk { in_reply_to: *in_reply_to },
            Body::Cas { msg_id, key, from, to } => Body::Cas {
                msg_id: *msg_id,
                key: key.clone(),
                from: *from,
                to: *to,
            },
            Body::CasOk { in_reply_to } => Body::CasOk { in_reply_to: *in_reply_to },
            Body::Error(body) => Body::Error(
                ErrorBody {
                    in_reply_to: body.in_reply_to,
                    code: body.code,
                    text: body.text.clone(),
                },
            ),
        }
    }
}

/// What the node remembers of an append while the key-value service
/// decides on it: the log, the message, and whom to answer under which id.
#[derive(Debug, Clone, PartialEq, Eq)]
pub struct PendingSend {
    pub key: Key,
    pub value: Val,
    pub msg_id: MsgId,
    pub src: String,
    pub dest: String,
}

/// What the node's tables can name: the handler of each request type, and
/// the continuation of an append.
#[derive(Debug, Clone, PartialEq, Eq)]
pub enum Handler {
    Send,
    Poll,
    CommitOffsets,
    ListCommittedOffsets,
    Error,
    SendReply(PendingSend),
}

/// Mathematical value of a log node's [`State`].
pub struct StateView {
    /// The messages of each log, in the order appended.
    pub logs: Map<Seq<char>, Seq<Val>>,
    /// How far clients have read each log.
    pub committed: Map<Seq<char>, Offset>,
    /// The offset the node proposes for the next append to each log.
    pub latest: Map<Seq<char>, Offset>,
}

/// The state of a log node.
pub struct State {
    logs_db: StringHashMap<Vec<Val>>,
    committed_offsets: StringHashMap<Offset>,
    latest_offsets: StringHashMap<Offset>,
}

impl View for State {
    type V = StateView;

    closed spec fn view(&self) -> StateView {
        StateView {
            logs: Map::new(
                |key: Seq<char>| self.logs_db@.contains_key(key),
                |key: Seq<char>| self.logs_db@[key]@,
            ),
            committed: self.committed_offsets@,
            latest: self.latest_offsets@,
        }
    }
}

pub type KafkaNode = Node<State, Body, Handler>;

/// The name of the key-value service.
pub open spec fn lin_kv() -> Seq<char> {
    "lin-kv"@
}

/// The state that `node` carries.
pub open spec fn log_state(node: &KafkaNode) -> StateView {
    node.app_state()->0@
}

/// `after` has one message more in its outbox than `before`: `sent`.
pub open spec fn has_sent_one(after: &KafkaNode, before: &KafkaNode, sent: MessageView<BodyView>) -> bool {
    &&& after.outbox().len() == before.outbox().len() + 1
    &&& after.outbox().drop_last() == before.outbox()
    &&& after.outbox().last()@ == sent
}

/// The messages of `log`.
pub open spec fn log_of(logs: Map<Seq<char>, Seq<Val>>, key: Seq<char>) -> Seq<Val> {
    if logs.contains_key(key) {
        logs[key]
    } else {
        Seq::empty()
    }
}

/// The offset proposed for the next append to the log `key`: zero until
/// one is recorded.
pub open spec fn next_offset(latest: Map<Seq<char>, Offset>, key: Seq<char>) -> Offset {
    if latest.contains_key(key) {
        latest[key]
    } else {
        0
    }
}

/// The messages of `log` from `offset` on, each with its offset.
pub open spec fn excerpt(log: Seq<Val>, offset: Offset) -> Seq<(Offset, Val)> {
    Seq::new((log.len() - offset) as nat, |i: int| ((i + offset) as Offset, log[i + offset]))
}

/// Every requested offset of an existing log lies within the log or just
/// behind its end.
pub open spec fn pollable(logs: Map<Seq<char>, Seq<Val>>, offsets: Seq<(Seq<char>, Offset)>) -> bool {
    forall|i: int|
        0 <= i < offsets.len() && logs.contains_key((#[trigger] offsets[i]).0) ==> offsets[i].1
            <= logs[offsets[i].0].len()
}

/// What a poll returns: for each request that names an existing log, in the
/// order asked, the log's messages from the requested offset on. Requests
/// for logs that do not exist are passed over.
pub open spec fn polled(logs: Map<Seq<char>, Seq<Val>>, offsets: Seq<(Seq<char>, Offset)>) -> Seq<
    (Seq<char>, Seq<(Offset, Val)>),
>
    decreases offsets.len(),
{
    if offsets.len() == 0 {
        Seq::empty()
    } else {
        let earlier = polled(logs, offsets.drop_last());
        let (key, offset) = offsets.last();
        if logs.contains_key(key) {
            earlier.push((key, excerpt(logs[key], offset)))
        } else {
            earlier
        }
    }
}

/// The committed offsets after `offsets` are recorded in order.
pub open spec fn recorded(committed: Map<Seq<char>, Offset>, offsets: Seq<(Seq<char>, Offset)>) -> Map<
    Seq<char>,
    Offset,
>
    decreases offsets.len(),
{
    if offsets.len() == 0 {
        committed
    } else {
        recorded(committed, offsets.drop_last()).insert(offsets.last().0, offsets.last().1)
    }
}

/// What listing returns: for each of `keys` that has a committed offset, in
/// the order asked, the key with that offset.
pub open spec fn listed(committed: Map<Seq<char>, Offset>, keys: Seq<Seq<char>>) -> Seq<
    (Seq<char>, Offset),
>
    decreases keys.len(),
{
    if keys.len() == 0 {
        Seq::empty()
    } else {
        let earlier = listed(committed, keys.drop_last());
        if committed.contains_key(keys.last()) {
            earlier.push((keys.last(), committed[keys.last()]))
        } else {
            earlier
        }
    }
}

fn excerpt_from(log: &Vec<Val>, offset: Offset) -> (out: Vec<(Offset, Val)>)
    requires
        offset <= log.len(),
    ensures
        out@ == excerpt(log@, offset),
{
    let mut out: Vec<(Offset, Val)> = Vec::new();
    let mut i: usize = offset;
    while i < log.len()
        invariant
            offset <= i <= log.len(),
            out.len() == i - offset,
            forall|j: int| 0 <= j < out.len() ==> out[j] == ((j + offset) as Offset, log[j + offset]),
        decreases log.len() - i,
    {
        out.push((i, log[i]));
        i += 1;
    }
    out
}

impl State {
    /// A state with no logs and no offsets.
    pub fn new() -> (state: State)
        ensures
            state@ == (StateView {
                logs: Map::empty(),
                committed: Map::empty(),
                latest: Map::empty(),
            }),
    {
        let state = State {
            logs_db: StringHashMap::new(),
            committed_offsets: StringHashMap::new(),
            latest_offsets: StringHashMap::new(),
        };
        assert(state@.logs =~= Map::empty());
        state
    }

    /// The messages of the log `key`, oldest first.
    pub fn log(&self, key: &Key) -> (log: Vec<Val>)
        ensures
            log@ == log_of(self@.logs, key@),
    {
        let mut log: Vec<Val> = Vec::new();
        match self.logs_db.get(key.as_str()) {
            Some(stored) => {
                let mut i: usize = 0;
                while i < stored.len()
                    invariant
                        i <= stored.len(),
                        log@ == stored@.take(i as int),
                    decreases stored.len() - i,
                {
                    log.push(stored[i]);
                    i += 1;
                }
            },
            None => {},
        }
        log
    }

    /// The committed offset of the log `key`, if one was recorded.
    pub fn committed(&self, key: &Key) -> (offset: Option<Offset>)
        ensures
            offset is Some == self@.committed.contains_key(key@),
            offset is Some ==> offset->0 == self@.committed[key@],
    {
        match self.committed_offsets.get(key.as_str()) {
            Some(offset) => Some(*offset),
            None => None,
        }
    }

    /// The offset to propose for the next append to `key`, recorded as zero
    /// if none was recorded.
    fn propose_offset(&mut self, key: &Key) -> (offset: Offset)
        ensures
            offset == next_offset(old(self)@.latest, key@),
            final(self)@ == (StateView {
                latest: old(self)@.latest.insert(key@, offset),
                ..old(self)@
            }),
    {
        let found = match self.latest_offsets.get(key.as_str()) {
            Some(offset) => Some(*offset),
            None => None,
        };
        match found {
            Some(offset) => {
                assert(self@.latest =~= self@.latest.insert(key@, offset));
                offset
            },
            None => {
                self.latest_offsets.insert(key.clone(), 0);
                0
            },
        }
    }

    /// Appends `value` to the log `key` and returns its offset.
    fn append(&mut self, key: &Key, value: Val) -> (offset: Offset)
        requires
            log_of(old(self)@.logs, key@).len() < usize::MAX,
        ensures
            offset == log_of(old(self)@.logs, key@).len(),
            final(self)@ == (StateView {
                logs: old(self)@.logs.insert(key@, log_of(old(self)@.logs, key@).push(value)),
                ..old(self)@
            }),
    {
        let mut log = self.log(key);
        log.push(value);
        let offset = log.len() - 1;
        self.logs_db.insert(key.clone(), log);
        assert(self@.logs =~= old(self)@.logs.insert(
            key@,
            log_of(old(self)@.logs, key@).push(value),
        ));
        offset
    }

    /// Whether every offset of `offsets` can be polled.
    pub fn can_poll(&self, offsets: &Vec<(Key, Offset)>) -> (ok: bool)
        ensures
            ok == pollable(self@.logs, offsets_view(offsets@)),
    {
        let mut i: usize = 0;
        while i < offsets.len()
            invariant
                i <= offsets.len(),
                pollable(self@.logs, offsets_view(offsets@).take(i as int)),
            decreases offsets.len() - i,
        {
            match self.logs_db.get(offsets[i].0.as_str()) {
                Some(log) => {
                    if offsets[i].1 > log.len() {
                        proof {
                            let asked = offsets_view(offsets@);
                            assert(self@.logs.contains_key(asked[i as int].0));
                        }
                        return false;
                    }
                },
                None => {},
            }
            i += 1;
        }
        assert(offsets_view(offsets@).take(i as int) =~= offsets_view(offsets@));
        true
    }

    fn poll(&self, offsets: &Vec<(Key, Offset)>) -> (msgs: Vec<(Key, Vec<(Offset, Val)>)>)
        requires
            pollable(self@.logs, offsets_view(offsets@)),
        ensures
            excerpts_view(msgs@) == polled(self@.logs, offsets_view(offsets@)),
    {
        let mut msgs: Vec<(Key, Vec<(Offset, Val)>)> = Vec::new();
        let mut i: usize = 0;
        let ghost asked = offsets_view(offsets@);
        while i < offsets.len()
            invariant
                i <= offsets.len(),
                asked == offsets_view(offsets@),
                pollable(self@.logs, asked),
                excerpts_view(msgs@) == polled(self@.logs, asked.take(i as int)),
            decreases offsets.len() - i,
        {
            proof {
                assert(asked.take(i + 1).drop_last() =~= asked.take(i as int));
            }
            match self.logs_db.get(offsets[i].0.as_str()) {
                Some(log) => {
                    assert(self@.logs.contains_key(asked[i as int].0));
                    let found = excerpt_from(log, offsets[i].1);
                    msgs.push((offsets[i].0.clone(), found));
                },
                None => {},
            }
            i += 1;
        }
        assert(asked.take(i as int) =~= asked);
        msgs
    }

    fn record(&mut self, offsets: &Vec<(Key, Offset)>)
        ensures
            final(self)@ == (StateView {
                committed: recorded(old(self)@.committed, offsets_view(offsets@)),
                ..old(self)@
            }),
    {
        let mut i: usize = 0;
        let ghost asked = offsets_view(offsets@);
        while i < offsets.len()
            invariant
                i <= offsets.len(),
                asked == offsets_view(offsets@),
                self.logs_db == old(self).logs_db,
                self.latest_offsets == old(self).latest_offsets,
                self.committed_offsets@ == recorded(old(self)@.committed, asked.take(i as int)),
            decreases offsets.len() - i,
        {
            proof {
                assert(asked.take(i + 1).drop_last() =~= asked.take(i as int));
            }
            self.committed_offsets.insert(offsets[i].0.clone(), offsets[i].1);
            i += 1;
        }
        assert(asked.take(i as int) =~= asked);
    }

    fn list(&self, keys: &Vec<Key>) -> (offsets: Vec<(Key, Offset)>)
        ensures
            offsets_view(offsets@) == listed(self@.committed, names(keys@)),
    {
        let mut offsets: Vec<(Key, Offset)> = Vec::new();
        let mut i: usize = 0;
        let ghost asked = names(keys@);
        while i < keys.len()
            invariant
                i <= keys.len(),
                asked == names(keys@),
                offsets_view(offsets@) == listed(self@.committed, asked.take(i as int)),
            decreases keys.len() - i,
        {
            proof {
                assert(asked.take(i + 1).drop_last() =~= asked.take(i as int));
            }
            match self.committed_offsets.get(keys[i].as_str()) {
                Some(offset) => {
                    offsets.push((keys[i].clone(), *offset));
                },
                None => {},
            }
            i += 1;
        }
        assert(asked.take(i as int) =~= asked);
        offsets
    }
}

/// Handles an append request. The node proposes the next offset of the log
/// to the key-value service, as a swap of that offset for the one after it
/// under the key `<log>_next_offset`, and remembers the request until the
/// service answers.
pub fn handle_send(node: &mut KafkaNode, msg: Message<Body>)
    requires
        msg.body is Send,
        old(node).initialized(),
        old(node).last_msg_id() < u32::MAX,
        old(node).app_state() is Some,
        next_offset(log_state(old(node)).latest, msg.body->Send_key@) < usize::MAX,
    ensures
        final(node).app_state() is Some,
        ({
            let from = next_offset(log_state(old(node)).latest, msg.body->Send_key@);
            let id = (old(node).last_msg_id() + 1) as MsgId;
            &&& log_state(final(node)) == (StateView {
                latest: log_state(old(node)).latest.insert(msg.body->Send_key@, from),
                ..log_state(old(node))
            })
            &&& has_sent_one(
                final(node),
                old(node),
                MessageView {
                    src: old(node).id(),
                    dest: lin_kv(),
                    body: BodyView::Cas {
                        msg_id: id,
                        key: msg.body->Send_key@ + "_next_offset"@,
                        from,
                        to: (from + 1) as Val,
                    },
                },
            )
            &&& final(node).last_msg_id() == id
            &&& final(node).callbacks() == old(node).callbacks().insert(id, final(node).callbacks()[id])
            &&& final(node).callbacks()[id] is SendReply
            &&& final(node).callbacks()[id]->SendReply_0.key@ == msg.body->Send_key@
            &&& final(node).callbacks()[id]->SendReply_0.value == msg.body->msg
            &&& final(node).callbacks()[id]->SendReply_0.msg_id == msg.body->Send_msg_id
            &&& final(node).callbacks()[id]->SendReply_0.src@ == msg.src@
            &&& final(node).callbacks()[id]->SendReply_0.dest@ == msg.dest@
        }),
        final(node).handlers() == old(node).handlers(),
        final(node).unconfirmed() == old(node).unconfirmed(),
        final(node).same_name(old(node)),
{
    let Message { src, dest, body } = msg;
    match body {
        Body::Send { msg_id, key, msg: value } => {
            let mut state = node.take_state().unwrap();
            let from = state.propose_offset(&key);
            node.set_state(state);
            let to = from + 1;
            let mut cas_key = key.clone();
            cas_key.append("_next_offset");
            let pending = PendingSend { key, value, msg_id, src, dest };
            crate::lin_kv::cas(node, cas_key, from, to, Handler::SendReply(pending));
        },
        _ => {},
    }
}

/// Continues an append once the key-value service has answered.
///
/// On confirmation the message is appended to the log and the client is
/// told its offset. When the service reports the key missing, the node
/// writes the message under the log's name to the service. Any other error
/// is passed over.
pub fn handle_send_reply(node: &mut KafkaNode, pending: PendingSend, reply: Message<Body>)
    requires
        reply.body is CasOk || reply.body is Error,
        reply.body is CasOk ==> old(node).app_state() is Some && log_of(
            log_state(old(node)).logs,
            pending.key@,
        ).len() < usize::MAX,
        reply.body is Error && reply.body->Error_0.code == KEY_DOES_NOT_EXIST ==> old(
            node,
        ).initialized() && old(node).last_msg_id() < u32::MAX,
    ensures
        final(node).same_tables(old(node)),
        final(node).same_name(old(node)),
        reply.body is CasOk ==> {
            let log = log_of(log_state(old(node)).logs, pending.key@);
            &&& final(node).app_state() is Some
            &&& log_state(final(node)) == (StateView {
                logs: log_state(old(node)).logs.insert(pending.key@, log.push(pending.value)),
                ..log_state(old(node))
            })
            &&& has_sent_one(
                final(node),
                old(node),
                MessageView {
                    src: pending.dest@,
                    dest: pending.src@,
                    body: BodyView::SendOk {
                        in_reply_to: pending.msg_id,
                        offset: log.len() as Offset,
                    },
                },
            )
            &&& final(node).same_identity(old(node))
        },
        reply.body is Error && reply.body->Error_0.code == KEY_DOES_NOT_EXIST ==> {
            &&& final(node).app_state() == old(node).app_state()
            &&& has_sent_one(
                final(node),
                old(node),
                MessageView {
                    src: old(node).id(),
                    dest: lin_kv(),
                    body: BodyView::Write {
                        msg_id: (old(node).last_msg_id() + 1) as MsgId,
                        key: pending.key@,
                        value: pending.value,
                    },
                },
            )
            &&& final(node).last_msg_id() == old(node).last_msg_id() + 1
        },
        reply.body is Error && reply.body->Error_0.code != KEY_DOES_NOT_EXIST ==> {
            &&& final(node).app_state() == old(node).app_state()
            &&& final(node).outbox() == old(node).outbox()
            &&& final(node).same_identity(old(node))
        },
{
    let PendingSend { key, value, msg_id, src, dest } = pending;
    match reply.body {
        Body::CasOk { .. } => {
            let mut state = node.take_state().unwrap();
            let offset = state.append(&key, value);
            node.set_state(state);
            node.send_msg(
                Message { src: dest, dest: src, body: Body::SendOk { in_reply_to: msg_id, offset } },
            );
            assert(node.outbox().drop_last() =~= old(node).outbox());
        },
        Body::Error(ErrorBody { code, .. }) => {
            if code == KEY_DOES_NOT_EXIST {
                let src = node.node_id().clone();
                let body = Body::Write { msg_id: node.next_msg_id(), key, value };
                node.send_msg(Message { src, dest: "lin-kv".to_owned(), body });
                assert(node.outbox().drop_last() =~= old(node).outbox());
            }
        },
        _ => {},
    }
}

/// Handles a poll: replies with the messages of each requested log from
/// the requested offset on.
pub fn handle_poll(node: &mut KafkaNode, msg: Message<Body>)
    requires
        msg.body is Poll,
        old(node).app_state() is Some,
        pollable(log_state(old(node)).logs, offsets_view(msg.body->Poll_offsets@)),
    ensures
        final(node).app_state() == old(node).app_state(),
        has_sent_one(
            final(node),
            old(node),
            MessageView {
                src: msg.dest@,
                dest: msg.src@,
                body: BodyView::PollOk {
                    in_reply_to: msg.body->Poll_msg_id,
                    msgs: polled(log_state(old(node)).logs, offsets_view(msg.body->Poll_offsets@)),
                },
            },
        ),
        final(node).same_identity(old(node)),
        final(node).same_tables(old(node)),
{
    let Message { src, dest, body } = msg;
    match body {
        Body::Poll { msg_id, offsets } => {
            let msgs = node.state_ref().unwrap().poll(&offsets);
            node.send_msg(
                Message { src: dest, dest: src, body: Body::PollOk { in_reply_to: msg_id, msgs } },
            );
            assert(node.outbox().drop_last() =~= old(node).outbox());
        },
        _ => {},
    }
}

/// Handles a commit: records each offset, a later one for the same log
/// replacing an earlier one, and acknowledges.
pub fn handle_commit_offsets(node: &mut KafkaNode, msg: Message<Body>)
    requires
        msg.body is CommitOffsets,
        old(node).app_state() is Some,
    ensures
        final(node).app_state() is Some,
        log_state(final(node)) == (StateView {
            committed: recorded(
                log_state(old(node)).committed,
                offsets_view(msg.body->CommitOffsets_offsets@),
            ),
            ..log_state(old(node))
        }),
        has_sent_one(
            final(node),
            old(node),
            MessageView {
                src: msg.dest@,
                dest: msg.src@,
                body: BodyView::CommitOffsetsOk { in_reply_to: msg.body->CommitOffsets_msg_id },
            },
        ),
        final(node).same_identity(old(node)),
        final(node).same_tables(old(node)),
{
    let Message { src, dest, body } = msg;
    match body {
        Body::CommitOffsets { msg_id, offsets } => {
            let mut state = node.take_state().unwrap();
            state.record(&offsets);
            node.set_state(state);
            node.send_msg(
                Message { src: dest, dest: src, body: Body::CommitOffsetsOk { in_reply_to: msg_id } },
            );
            assert(node.outbox().drop_last() =~= old(node).outbox());
        },
        _ => {},
    }
}

/// Handles a listing: replies with the committed offset of each requested
/// log that has one.
pub fn handle_list_committed_offsets(node: &mut KafkaNode, msg: Message<Body>)
    requires
        msg.body is ListCommittedOffsets,
        old(node).app_state() is Some,
    ensures
        final(node).app_state() == old(node).app_state(),
        has_sent_one(
            final(node),
            old(node),
            MessageView {
                src: msg.dest@,
                dest: msg.src@,
                body: BodyView::ListCommittedOffsetsOk {
                    in_reply_to: msg.body->ListCommittedOffsets_msg_id,
                    offsets: listed(log_state(old(node)).committed, names(msg.body->keys@)),
                },
            },
        ),
        final(node).same_identity(old(node)),
        final(node).same_tables(old(node)),
{
    let Message { src, dest, body } = msg;
    match body {
        Body::ListCommittedOffsets { msg_id, keys } => {
            let offsets = node.state_ref().unwrap().list(&keys);
            node.send_msg(
                Message {
                    src: dest,
                    dest: src,
                    body: Body::ListCommittedOffsetsOk { in_reply_to: msg_id, offsets },
                },
            );
            assert(node.outbox().drop_last() =~= old(node).outbox());
        },
        _ => {},
    }
}

/// Handles an error that no continuation waits for: it is passed over, and
/// only its code, the request it answers and its sender are reported.
pub fn handle_error(node: &KafkaNode, msg: Message<Body>) -> (report: (u32, MsgId, String))
    requires
        msg.body is Error,
    ensures
        report.0 == msg.body->Error_0.code,
        report.1 == msg.body->Error_0.in_reply_to,
        report.2@ == msg.src@,
{
    let Message { src, body, .. } = msg;
    match body {
        Body::Error(ErrorBody { code, in_reply_to, .. }) => (code, in_reply_to, src),
        _ => (0, 0, src),
    }
}

} // verus!
