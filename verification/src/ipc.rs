//! Inter-process communication via message passing.
//!
//! Processes send fixed-size messages through per-process inboxes (bounded ring
//! buffers). Delivery is non-blocking on both ends: [`send`] fails immediately
//! where the target inbox is at capacity, and [`recv`] returns `None` immediately
//! where the inbox is empty.
use vstd::prelude::*;

verus! {

/// A process ID.
pub type Pid = u8;

/// Maximum message payload size in bytes.
pub const MSG_MAX_SIZE: usize = 256;

/// Number of messages per inbox.
pub const INBOX_SIZE: usize = 16;

/// Number of inbox slots, matching the maximum number of processes.
pub const MAX_INBOX_PROCS: usize = 16;

/// Error code for "no such process".
pub const ESRCH: i32 = -3;

/// A message between processes.
#[derive(Clone)]
pub struct Message {
    /// Sender process ID.
    pub from: Pid,
    /// Message type tag (application-defined).
    pub tag: u32,
    /// Payload length.
    pub len: usize,
    /// Payload data.
    pub data: [u8; MSG_MAX_SIZE],
}

/// What a message says.
#[verifier::ext_equal]
pub ghost struct MessageModel {
    pub from: Pid,
    pub tag: u32,
    pub payload: Seq<u8>,
}

impl View for Message {
    type V = MessageModel;

    open spec fn view(&self) -> MessageModel {
        MessageModel {
            from: self.from,
            tag: self.tag,
            payload: self.data@.take(self.len as int),
        }
    }
}

/// A payload as it is sent: what exceeds the largest message is left off.
pub open spec fn carried(payload: Seq<u8>) -> Seq<u8> {
    if payload.len() <= MSG_MAX_SIZE {
        payload
    } else {
        payload.take(MSG_MAX_SIZE as int)
    }
}

impl Message {
    /// Whether the payload lies within the buffer.
    pub open spec fn wf(self) -> bool {
        self.len <= MSG_MAX_SIZE
    }

    /// Create a new message with the given tag and data. A payload longer than
    /// [`MSG_MAX_SIZE`] is truncated.
    pub fn new(tag: u32, payload: &[u8]) -> (r: Self)
        ensures
            r.wf(),
            r@ == (MessageModel { from: 0, tag, payload: carried(payload@) }),
            forall|i: int| r.len <= i < MSG_MAX_SIZE ==> r.data@[i] == 0,
    {
        let len: usize = if payload.len() <= MSG_MAX_SIZE {
            payload.len()
        } else {
            MSG_MAX_SIZE
        };
        let mut data: [u8; MSG_MAX_SIZE] = [0u8; MSG_MAX_SIZE];
        let mut i: usize = 0;
        while i < len
            invariant
                i <= len <= MSG_MAX_SIZE,
                len <= payload@.len(),
                forall|j: int| 0 <= j < i ==> data@[j] == payload@[j],
                forall|j: int| i <= j < MSG_MAX_SIZE ==> data@[j] == 0,
            decreases len - i,
        {
            data[i] = payload[i];
            i += 1;
        }
        assert(data@.take(len as int) =~= carried(payload@));
        Message { from: 0, tag, len, data }
    }

    /// Get the payload as a byte slice.
    pub fn payload(&self) -> (r: &[u8])
        requires
            self.wf(),
        ensures
            r@ == self@.payload,
    {
        vstd::slice::slice_subrange(self.data.as_slice(), 0, self.len)
    }
}

/// Per-process message inbox (ring buffer).
pub struct Inbox {
    messages: Vec<Option<Message>>,
    head: usize,
    tail: usize,
    count: usize,
}

impl View for Inbox {
    type V = Seq<MessageModel>;

    /// The waiting messages, the oldest first.
    closed spec fn view(&self) -> Seq<MessageModel> {
        Seq::new(
            self.count as nat,
            |k: int| self.messages@[(self.head + k) % (INBOX_SIZE as int)]->0@,
        )
    }
}

impl Inbox {
    /// The invariant of the ring: the messages stand from the head on, one behind
    /// the other, up to the tail.
    pub closed spec fn wf(&self) -> bool {
        &&& self.messages@.len() == INBOX_SIZE
        &&& self.head < INBOX_SIZE
        &&& self.tail < INBOX_SIZE
        &&& self.count <= INBOX_SIZE
        &&& self.tail == (self.head + self.count) % (INBOX_SIZE as int)
        &&& forall|k: int|
            0 <= k < self.count ==> (#[trigger] self.messages@[(self.head + k) % (INBOX_SIZE as int)])
                is Some
        &&& forall|i: int|
            0 <= i < INBOX_SIZE ==> ((#[trigger] self.messages@[i]) matches Some(m) ==> m.wf())
    }

    /// Create an empty inbox.
    pub fn new() -> (r: Self)
        ensures
            r.wf(),
            r@ == Seq::<MessageModel>::empty(),
    {
        let mut messages: Vec<Option<Message>> = Vec::new();
        let mut i: usize = 0;
        while i < INBOX_SIZE
            invariant
                i <= INBOX_SIZE,
                messages@.len() == i,
                forall|j: int| 0 <= j < i ==> #[trigger] messages@[j] is None,
            decreases INBOX_SIZE - i,
        {
            messages.push(None);
            i += 1;
        }
        let r = Inbox { messages, head: 0, tail: 0, count: 0 };
        assert(r@ =~= Seq::<MessageModel>::empty());
        r
    }

    /// Push a message into the inbox. Returns false if full.
    pub fn push(&mut self, msg: Message) -> (r: bool)
        requires
            old(self).wf(),
            msg.wf(),
        ensures
            final(self).wf(),
            r == (old(self)@.len() < INBOX_SIZE),
            final(self)@ == (if r {
                old(self)@.push(msg@)
            } else {
                old(self)@
            }),
    {
        if self.count >= INBOX_SIZE {
            return false;
        }
        self.messages.set(self.tail, Some(msg));
        self.tail = (self.tail + 1) % INBOX_SIZE;
        self.count = self.count + 1;
        assert(self@ =~= old(self)@.push(msg@));
        true
    }

    /// Pop a message from the inbox. Returns None if empty.
    pub fn pop(&mut self) -> (r: Option<Message>)
        requires
            old(self).wf(),
        ensures
            final(self).wf(),
            match r {
                Some(m) => m.wf() && old(self)@.len() > 0 && m@ == old(self)@[0] && final(self)@
                    == old(self)@.drop_first(),
                None => old(self)@.len() == 0 && final(self)@ == old(self)@,
            },
    {
        if self.count == 0 {
            return None;
        }
        assert(self.messages@[(self.head + 0) % (INBOX_SIZE as int)] is Some);
        let ghost given = self.messages@;
        let h: usize = self.head;
        let slot = &mut self.messages[h];
        let msg = slot.take();
        self.head = (self.head + 1) % INBOX_SIZE;
        self.count = self.count - 1;
        proof {
            assert(self.messages@ =~= given.update(h as int, None));
            assert forall|k: int| 0 <= k < self.count implies (#[trigger] self.messages@[(self.head
                + k) % (INBOX_SIZE as int)]) == given[(h + (k + 1)) % (INBOX_SIZE as int)] by {}
            assert(self@ =~= old(self)@.drop_first());
        }
        msg
    }

    /// Check if the inbox is empty.
    pub fn is_empty(&self) -> (r: bool)
        ensures
            r == (self@.len() == 0),
    {
        self.count == 0
    }

    /// Check if the inbox is full.
    pub fn is_full(&self) -> (r: bool)
        ensures
            r == (self@.len() >= INBOX_SIZE),
    {
        self.count >= INBOX_SIZE
    }
}

/// Validate a PID is within the inbox array bounds.
///
/// Returns the PID as an index, or `Err(ESRCH)` if it exceeds the maximum process
/// count.
pub fn validate_pid(pid: Pid) -> (r: Result<usize, i32>)
    ensures
        r == (if (pid as usize) < MAX_INBOX_PROCS {
            Ok::<usize, i32>(pid as usize)
        } else {
            Err(ESRCH)
        }),
{
    let idx: usize = pid as usize;
    if idx >= MAX_INBOX_PROCS {
        return Err(ESRCH);
    }
    Ok(idx)
}

/// Reasons [`send`] can fail to deliver a message.
#[derive(Debug, Clone, Copy, PartialEq, Eq, Structural)]
pub enum IpcSendError {
    /// The target does not name a process.
    InvalidTarget,
    /// The target's inbox is at capacity.
    InboxFull,
}

/// Process inboxes, indexed by PID.
pub struct Inboxes {
    boxes: Vec<Inbox>,
}

impl View for Inboxes {
    type V = Seq<Seq<MessageModel>>;

    closed spec fn view(&self) -> Seq<Seq<MessageModel>> {
        Seq::new(self.boxes@.len(), |i: int| self.boxes@[i]@)
    }
}

impl Inboxes {
    /// There is an inbox for each process.
    pub closed spec fn wf(&self) -> bool {
        &&& self.boxes@.len() == MAX_INBOX_PROCS
        &&& forall|i: int| 0 <= i < MAX_INBOX_PROCS ==> (#[trigger] self.boxes@[i]).wf()
    }

    /// Empty inboxes.
    pub fn new() -> (r: Self)
        ensures
            r.wf(),
            r@ == Seq::new(MAX_INBOX_PROCS as nat, |i: int| Seq::<MessageModel>::empty()),
    {
        let mut boxes: Vec<Inbox> = Vec::new();
        let mut i: usize = 0;
        while i < MAX_INBOX_PROCS
            invariant
                i <= MAX_INBOX_PROCS,
                boxes@.len() == i,
                forall|j: int|
                    0 <= j < i ==> (#[trigger] boxes@[j]).wf() && boxes@[j]@ == Seq::<
                        MessageModel,
                    >::empty(),
            decreases MAX_INBOX_PROCS - i,
        {
            boxes.push(Inbox::new());
            i += 1;
        }
        let r = Inboxes { boxes };
        assert(r@ =~= Seq::new(MAX_INBOX_PROCS as nat, |i: int| Seq::<MessageModel>::empty()));
        r
    }
}

/// What becomes of a message that a process sends: the inboxes behind it, and the
/// result.
pub open spec fn delivered(
    inboxes: Seq<Seq<MessageModel>>,
    current: Pid,
    to: Pid,
    msg: MessageModel,
) -> (Seq<Seq<MessageModel>>, Result<(), IpcSendError>) {
    if to >= MAX_INBOX_PROCS {
        (inboxes, Err(IpcSendError::InvalidTarget))
    } else if inboxes[to as int].len() >= INBOX_SIZE {
        (inboxes, Err(IpcSendError::InboxFull))
    } else {
        (
            inboxes.update(
                to as int,
                inboxes[to as int].push(MessageModel { from: current, ..msg }),
            ),
            Ok(()),
        )
    }
}

/// Send a message from the process `current` to the process `to`.
///
/// Non-blocking: fails immediately rather than blocking if the target's inbox is
/// full. No authorization takes place here; it belongs to the system-call boundary.
pub fn send(inboxes: &mut Inboxes, current: Pid, to: Pid, mut msg: Message) -> (r: Result<
    (),
    IpcSendError,
>)
    requires
        old(inboxes).wf(),
        msg.wf(),
    ensures
        final(inboxes).wf(),
        (final(inboxes)@, r) == delivered(old(inboxes)@, current, to, msg@),
{
    let idx: usize = match validate_pid(to) {
        Ok(i) => i,
        Err(_) => {
            return Err(IpcSendError::InvalidTarget);
        },
    };
    let ghost sent = MessageModel { from: current, ..msg@ };
    msg.from = current;
    assert(msg@ =~= sent);
    assert(inboxes.boxes@[idx as int].wf());
    let ghost given = inboxes.boxes@;
    let target = &mut inboxes.boxes[idx];
    let ok = target.push(msg);
    proof {
        assert forall|i: int| 0 <= i < MAX_INBOX_PROCS implies (#[trigger] inboxes.boxes@[i]).wf() by {
            assert(given[i].wf());
        }
        assert(inboxes@ =~= delivered(old(inboxes)@, current, to, sent).0);
    }
    if ok {
        Ok(())
    } else {
        Err(IpcSendError::InboxFull)
    }
}

/// What a process receives: the inboxes behind it, and the oldest message.
pub open spec fn received(inboxes: Seq<Seq<MessageModel>>, current: Pid) -> (
    Seq<Seq<MessageModel>>,
    Option<MessageModel>,
) {
    if current >= MAX_INBOX_PROCS || inboxes[current as int].len() == 0 {
        (inboxes, None)
    } else {
        (
            inboxes.update(current as int, inboxes[current as int].drop_first()),
            Some(inboxes[current as int][0]),
        )
    }
}

/// Receive a message from the inbox of the process `current`. Non-blocking:
/// returns None if the inbox is empty or the PID is invalid.
pub fn recv(inboxes: &mut Inboxes, current: Pid) -> (r: Option<Message>)
    requires
        old(inboxes).wf(),
    ensures
        final(inboxes).wf(),
        final(inboxes)@ == received(old(inboxes)@, current).0,
        match r {
            Some(m) => m.wf() && received(old(inboxes)@, current).1 == Some(m@),
            None => received(old(inboxes)@, current).1 is None,
        },
{
    let idx: usize = match validate_pid(current) {
        Ok(i) => i,
        Err(_) => {
            return None;
        },
    };
    assert(inboxes.boxes@[idx as int].wf());
    let ghost given = inboxes.boxes@;
    let source = &mut inboxes.boxes[idx];
    let msg = source.pop();
    proof {
        assert forall|i: int| 0 <= i < MAX_INBOX_PROCS implies (#[trigger] inboxes.boxes@[i]).wf() by {
            assert(given[i].wf());
        }
        assert(inboxes@ =~= received(old(inboxes)@, current).0);
    }
    msg
}

/// Check if the inbox of the process `current` has messages. Returns false if the
/// PID is invalid.
pub fn has_messages(inboxes: &Inboxes, current: Pid) -> (r: bool)
    requires
        inboxes.wf(),
    ensures
        r == (current < MAX_INBOX_PROCS && inboxes@[current as int].len() > 0),
{
    let idx: usize = match validate_pid(current) {
        Ok(i) => i,
        Err(_) => {
            return false;
        },
    };
    !inboxes.boxes[idx].is_empty()
}

// ---------------------------------------------------------------------------
// Laws
// ---------------------------------------------------------------------------

/// Law: messages arrive in the order in which they were sent, and a process that
/// found its inbox empty receives what is sent to it next, under the sender's PID.
pub proof fn law_sent_message_is_received(
    inboxes: Seq<Seq<MessageModel>>,
    sender: Pid,
    receiver: Pid,
    msg: MessageModel,
)
    requires
        inboxes.len() == MAX_INBOX_PROCS,
        receiver < MAX_INBOX_PROCS,
        inboxes[receiver as int].len() == 0,
    ensures
        ({
            let (after, sent) = delivered(inboxes, sender, receiver, msg);
            &&& sent is Ok
            &&& received(after, receiver) == (
                inboxes,
                Some(MessageModel { from: sender, ..msg }),
            )
        }),
{
    let (after, sent) = delivered(inboxes, sender, receiver, msg);
    assert(received(after, receiver).0 =~= inboxes) by {
        assert(after[receiver as int].drop_first() =~= inboxes[receiver as int]);
    }
}

/// Law: receiving does not overtake. Where messages wait, the oldest is received,
/// whether or not another one is sent first.
pub proof fn law_delivery_keeps_order(
    inboxes: Seq<Seq<MessageModel>>,
    sender: Pid,
    receiver: Pid,
    msg: MessageModel,
)
    requires
        inboxes.len() == MAX_INBOX_PROCS,
        receiver < MAX_INBOX_PROCS,
        0 < inboxes[receiver as int].len() < INBOX_SIZE,
    ensures
        received(delivered(inboxes, sender, receiver, msg).0, receiver).1 == received(
            inboxes,
            receiver,
        ).1,
        received(delivered(inboxes, sender, receiver, msg).0, receiver).0 == delivered(
            received(inboxes, receiver).0,
            sender,
            receiver,
            msg,
        ).0,
{
    let q = inboxes[receiver as int];
    let m = MessageModel { from: sender, ..msg };
    assert(q.push(m).drop_first() =~= q.drop_first().push(m));
    assert(received(delivered(inboxes, sender, receiver, msg).0, receiver).0 =~= delivered(
        received(inboxes, receiver).0,
        sender,
        receiver,
        msg,
    ).0);
}

/// Law: no message reaches a process it was not sent to, and a message that was
/// refused changes no inbox.
pub proof fn law_other_inboxes_are_untouched(
    inboxes: Seq<Seq<MessageModel>>,
    sender: Pid,
    to: Pid,
    msg: MessageModel,
    other: int,
)
    requires
        inboxes.len() == MAX_INBOX_PROCS,
        0 <= other < inboxes.len(),
        other != to,
    ensures
        delivered(inboxes, sender, to, msg).0[other] == inboxes[other],
        delivered(inboxes, sender, to, msg).1 is Err ==> delivered(inboxes, sender, to, msg).0
            == inboxes,
{
}

} // verus!
