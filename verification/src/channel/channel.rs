//! Channel handles: opening, sending and receiving.
//!
//! The operations here run an attempt on the mapped bytes to its end, for a
//! caller with the segment to itself. Processes that share a segment run
//! the attempts of [`crate::channel::protocol`] on atomic words instead, and
//! judge their outcomes by the same rules.
use vstd::prelude::*;

use std::sync::Arc;

use crate::bytes;
use crate::channel::error;
use crate::channel::error::{Result, TesseraChannelError};
use crate::channel::header;
use crate::channel::header::HeaderView;
use crate::channel::laws;
use crate::channel::namespace;
use crate::channel::namespace::NamespaceHandle;
use crate::channel::protocol;
use crate::channel::protocol::{Action, RecvAttempt, RecvPhase, SendAttempt, SendPhase};
use crate::channel::region;
use crate::channel::region::{QueueView, Region, RegionView, SlotView};
use crate::channel::{ChannelConfig, ChannelRole};
use crate::text;

verus! {

/// How often a waiting side looks at the counters before it yields.
pub const SPIN_BUDGET_BEFORE_YIELD: u32 = 64;

/// How to get at the segment of a channel.
#[derive(Debug)]
pub enum OpenPlan {
    /// Create a segment of this name and size.
    Create {
        /// Segment name.
        name: String,
        /// Segment size in bytes.
        size: usize,
    },
    /// Open the segment of this name.
    Attach {
        /// Segment name.
        name: String,
    },
}

/// How long an operation may wait.
#[derive(Clone, Copy, Debug, PartialEq, Eq)]
pub enum Wait {
    /// Not at all.
    Never,
    /// As long as it takes.
    Forever,
    /// So many microseconds.
    Micros(u64),
}

/// What came of one attempt to receive.
#[derive(Debug)]
pub enum RecvOutcome {
    /// A message.
    Got(Vec<u8>),
    /// No position is claimed.
    Empty,
    /// The next position is claimed but not published yet.
    NotReady,
}

/// Handle of a channel.
#[derive(Clone, Debug)]
pub struct Channel {
    region: Arc<Region>,
    role: ChannelRole,
}

/// What a channel handle knows.
pub struct ChannelView {
    /// Its segment.
    pub region: RegionView,
    /// What it is for.
    pub role: ChannelRole,
}

impl View for Channel {
    type V = ChannelView;

    closed spec fn view(&self) -> ChannelView {
        ChannelView { region: self.region@, role: self.role }
    }
}

impl ChannelView {
    /// The handle has slots, and the mapping is long enough for them.
    pub open spec fn fits(self, mem: Seq<u8>) -> bool {
        self.region.slot_count > 0 && self.region.fits(mem)
    }

    /// The queue that the segment holds.
    pub open spec fn queue(self, mem: Seq<u8>) -> QueueView {
        self.region.queue(mem)
    }
}

/// Name of the segment that a configuration leads to.
pub open spec fn config_name(c: ChannelConfig) -> Seq<char> {
    namespace::shm_name_of(crate::namespace::description_digest(c.description@))
}

impl ChannelConfig {
    /// Checks the geometry and says how to get at the segment.
    pub fn plan(&self) -> (r: Result<OpenPlan>)
        ensures
            match self.role {
                ChannelRole::Receiver => match region::create_refusal(
                    self.slot_count,
                    self.slot_size_bytes,
                ) {
                    Some(words) => r matches Err(e) && error::is_config(e, words),
                    None => r matches Ok(OpenPlan::Create { name, size }) && name@ == config_name(
                        *self,
                    ) && size == header::segment_len(
                        self.slot_count as int,
                        self.slot_size_bytes as int,
                    ),
                },
                ChannelRole::Sender => match region::attach_refusal(
                    self.slot_count,
                    self.slot_size_bytes,
                ) {
                    Some(words) => r matches Err(e) && error::is_config(e, words),
                    None => r matches Ok(OpenPlan::Attach { name }) && name@ == config_name(*self),
                },
            },
    {
        let name = NamespaceHandle::derive(self.description.as_str()).shm_name();
        match self.role {
            ChannelRole::Receiver => match Region::plan_create(
                self.slot_count,
                self.slot_size_bytes,
            ) {
                Ok(size) => Ok(OpenPlan::Create { name, size }),
                Err(e) => Err(e),
            },
            ChannelRole::Sender => match Region::plan_attach(
                self.slot_count,
                self.slot_size_bytes,
            ) {
                Ok(_) => Ok(OpenPlan::Attach { name }),
                Err(e) => Err(e),
            },
        }
    }
}

/// The queue after an uncontended send: the tail moves on, and the slot of
/// the old tail holds the message, published.
pub open spec fn after_send(q: QueueView, n: u32, message: Seq<u8>, timestamp: u64) -> QueueView {
    let i = protocol::slot_of(q.tail, n) as int;
    let s = q.slots[i];
    QueueView {
        head: q.head,
        tail: protocol::next_position(q.tail),
        slots: q.slots.update(
            i,
            SlotView {
                sequence: q.tail,
                ready: 1,
                length: message.len() as u32,
                timestamp,
                payload: bytes::overwrite(s.payload, 0, message),
            },
        ),
    }
}

/// The queue after an uncontended receive: the head moves on, and its slot
/// is given back.
pub open spec fn after_recv(q: QueueView, n: u32) -> QueueView {
    let i = protocol::slot_of(q.head, n) as int;
    QueueView {
        head: protocol::next_position(q.head),
        tail: q.tail,
        slots: q.slots.update(i, SlotView { ready: 0, ..q.slots[i] }),
    }
}

/// No position can be claimed.
pub open spec fn queue_is_full(q: QueueView, n: u32) -> bool {
    protocol::distance(q.head, q.tail) >= n
}

/// Words for a slot whose sequence word is not the position.
pub open spec fn mismatch_words(head: u64, n: u32, observed: u64) -> Seq<char> {
    "slot sequence mismatch at head "@ + text::dec(head as nat) + ": slot["@ + text::dec(
        protocol::slot_of(head, n) as nat,
    ) + "].sequence = "@ + text::dec(observed as nat) + "; expected "@ + text::dec(head as nat)
        + ". Indicates a stale write from a wrapped sender that didn't observe ready=0 — should not occur with the current CAS-based Sender protocol. Failing fast."@
}

/// What comes of one attempt to receive from a queue, where the queue is
/// left, and the error where there is one.
pub open spec fn received(
    q: QueueView,
    n: u32,
    r: Result<RecvOutcome>,
    after: QueueView,
) -> bool {
    let s = q.slots[protocol::slot_of(q.head, n) as int];
    if q.head >= q.tail {
        r == Ok::<RecvOutcome, TesseraChannelError>(RecvOutcome::Empty) && after == q
    } else if s.ready == 0 {
        r == Ok::<RecvOutcome, TesseraChannelError>(RecvOutcome::NotReady) && after == q
    } else if s.sequence != q.head {
        &&& r matches Err(e) && error::is_region(e, mismatch_words(q.head, n, s.sequence))
        &&& after == q
    } else {
        &&& r matches Ok(RecvOutcome::Got(m)) && m@ == s.message()
        &&& after == after_recv(q, n)
    }
}

/// What a sender is told after an attempt: `Ok(true)` when it is done,
/// `Ok(false)` when it should wait and try again.
pub open spec fn send_verdict(
    n: u32,
    sent: bool,
    wait: Wait,
    deadline_reached: bool,
    head: u64,
    tail: u64,
) -> Result<bool> {
    if sent {
        Ok(true)
    } else {
        match wait {
            Wait::Never => Err(TesseraChannelError::ChannelFull { slot_count: n }),
            Wait::Forever => Ok(false),
            Wait::Micros(timeout_micros) => if deadline_reached {
                Err(TesseraChannelError::Timeout { timeout_micros, head, tail })
            } else {
                Ok(false)
            },
        }
    }
}

/// What the receiver is told after an attempt without a message: the error,
/// or nothing when it should wait and try again.
pub open spec fn recv_refusal(
    wait: Wait,
    deadline_reached: bool,
    head: u64,
    tail: u64,
) -> Option<TesseraChannelError> {
    match wait {
        Wait::Never => Some(TesseraChannelError::ChannelEmpty { head }),
        Wait::Forever => None,
        Wait::Micros(timeout_micros) => if deadline_reached {
            Some(TesseraChannelError::Timeout { timeout_micros, head, tail })
        } else {
            None
        },
    }
}

/// Why a handle of this role may not send a message of this length.
pub open spec fn send_refusal(c: ChannelView, len: nat) -> Option<TesseraChannelError> {
    if c.role != ChannelRole::Sender {
        Some(
            TesseraChannelError::RoleMismatch {
                actual: c.role.as_snapshot(),
                required: ChannelRole::Sender.as_snapshot(),
            },
        )
    } else if len > c.region.slot_size_bytes {
        Some(
            TesseraChannelError::OversizedPayload {
                payload_size: len as usize,
                slot_size: c.region.slot_size_bytes as usize,
            },
        )
    } else {
        None
    }
}

/// Why a handle of this role may not receive.
pub open spec fn role_refusal(c: ChannelView) -> Option<TesseraChannelError> {
    if c.role != ChannelRole::Receiver {
        Some(
            TesseraChannelError::RoleMismatch {
                actual: c.role.as_snapshot(),
                required: ChannelRole::Receiver.as_snapshot(),
            },
        )
    } else {
        None
    }
}

/// What a send on the mapped bytes returns and does.
pub open spec fn send_contract(
    c: ChannelView,
    q: QueueView,
    message: Seq<u8>,
    timestamp: u64,
    wait: Wait,
    deadline_reached: bool,
    r: Result<bool>,
    after: QueueView,
) -> bool {
    let n = c.region.slot_count;
    match send_refusal(c, message.len()) {
        Some(e) => r == Err::<bool, TesseraChannelError>(e) && after == q,
        None => {
            let full = queue_is_full(q, n);
            &&& r == send_verdict(n, !full, wait, deadline_reached, q.head, q.tail)
            &&& after == if full {
                q
            } else {
                after_send(q, n, message, timestamp)
            }
        },
    }
}

/// What a receive on the mapped bytes returns and does: a message, `None`
/// when the caller should wait and try again, or an error.
pub open spec fn recv_contract(
    c: ChannelView,
    q: QueueView,
    wait: Wait,
    deadline_reached: bool,
    r: Result<Option<Vec<u8>>>,
    after: QueueView,
) -> bool {
    let n = c.region.slot_count;
    let s = q.slots[protocol::slot_of(q.head, n) as int];
    match role_refusal(c) {
        Some(e) => r == Err::<Option<Vec<u8>>, TesseraChannelError>(e) && after == q,
        None => if q.head >= q.tail || s.ready == 0 {
            &&& after == q
            &&& r == match recv_refusal(wait, deadline_reached, q.head, q.tail) {
                Some(e) => Err::<Option<Vec<u8>>, TesseraChannelError>(e),
                None => Ok::<Option<Vec<u8>>, TesseraChannelError>(None),
            }
        } else if s.sequence != q.head {
            &&& after == q
            &&& r matches Err(e) && error::is_region(e, mismatch_words(q.head, n, s.sequence))
        } else {
            &&& after == after_recv(q, n)
            &&& r matches Ok(Some(m)) && m@ == s.message()
        },
    }
}

/// How far an uncontended attempt to send has got.
spec fn send_stage(
    q: QueueView,
    phase: SendPhase,
    n: u32,
    message: Seq<u8>,
    timestamp: u64,
) -> QueueView {
    let i = protocol::slot_of(q.tail, n) as int;
    let claimed = QueueView { tail: protocol::next_position(q.tail), ..q };
    let s0 = q.slots[i];
    let s1 = SlotView { payload: bytes::overwrite(s0.payload, 0, message), ..s0 };
    let s2 = SlotView { length: message.len() as u32, timestamp, ..s1 };
    let s3 = SlotView { sequence: q.tail, ..s2 };
    match phase {
        SendPhase::CopyPayload { claimed: _ } => claimed,
        SendPhase::WriteMetadata { claimed: _ } => claimed.with_slot(i, s1),
        SendPhase::StampSequence { claimed: _ } => claimed.with_slot(i, s2),
        SendPhase::MarkReady { claimed: _ } => claimed.with_slot(i, s3),
        SendPhase::Sent => after_send(q, n, message, timestamp),
        _ => q,
    }
}

/// What an uncontended attempt to send knows.
spec fn send_knows(q: QueueView, phase: SendPhase, n: u32) -> bool {
    match phase {
        SendPhase::LoadTail => true,
        SendPhase::LoadHead { tail } => tail == q.tail,
        SendPhase::Claim { tail } => tail == q.tail && !queue_is_full(q, n),
        SendPhase::CopyPayload { claimed } => claimed == q.tail && !queue_is_full(q, n),
        SendPhase::WriteMetadata { claimed } => claimed == q.tail && !queue_is_full(q, n),
        SendPhase::StampSequence { claimed } => claimed == q.tail && !queue_is_full(q, n),
        SendPhase::MarkReady { claimed } => claimed == q.tail && !queue_is_full(q, n),
        SendPhase::Sent => !queue_is_full(q, n),
        SendPhase::Full => queue_is_full(q, n),
    }
}

/// Steps left of an uncontended attempt to send.
spec fn send_rank(phase: SendPhase) -> nat {
    match phase {
        SendPhase::LoadTail => 7,
        SendPhase::LoadHead { .. } => 6,
        SendPhase::Claim { .. } => 5,
        SendPhase::CopyPayload { .. } => 4,
        SendPhase::WriteMetadata { .. } => 3,
        SendPhase::StampSequence { .. } => 2,
        SendPhase::MarkReady { .. } => 1,
        SendPhase::Sent => 0,
        SendPhase::Full => 0,
    }
}

/// How far an uncontended attempt to receive has got.
spec fn recv_stage(q: QueueView, phase: RecvPhase, n: u32) -> QueueView {
    let i = protocol::slot_of(q.head, n) as int;
    match phase {
        RecvPhase::AdvanceHead { head: _ } => q.with_slot(i, SlotView { ready: 0, ..q.slots[i] }),
        RecvPhase::Got => after_recv(q, n),
        _ => q,
    }
}

/// What an uncontended attempt to receive knows.
spec fn recv_knows(q: QueueView, phase: RecvPhase, n: u32, got: Seq<u8>) -> bool {
    let s = q.slots[protocol::slot_of(q.head, n) as int];
    match phase {
        RecvPhase::LoadHead => true,
        RecvPhase::LoadTail { head } => head == q.head,
        RecvPhase::LoadReady { head } => head == q.head && q.head < q.tail,
        RecvPhase::LoadSequence { head } => head == q.head && q.head < q.tail && s.ready != 0,
        RecvPhase::CopyPayload { head } => head == q.head && q.head < q.tail && s.ready != 0
            && s.sequence == q.head,
        RecvPhase::ClearReady { head } => head == q.head && q.head < q.tail && s.ready != 0
            && s.sequence == q.head && got == s.message(),
        RecvPhase::AdvanceHead { head } => head == q.head && q.head < q.tail && s.ready != 0
            && s.sequence == q.head && got == s.message(),
        RecvPhase::Got => q.head < q.tail && s.ready != 0 && s.sequence == q.head && got
            == s.message(),
        RecvPhase::Empty => q.head >= q.tail,
        RecvPhase::NotReady => q.head < q.tail && s.ready == 0,
        RecvPhase::Mismatch { head, observed } => head == q.head && q.head < q.tail && s.ready != 0
            && s.sequence != q.head && observed == s.sequence,
    }
}

/// Steps left of an uncontended attempt to receive.
spec fn recv_rank(phase: RecvPhase) -> nat {
    match phase {
        RecvPhase::LoadHead => 7,
        RecvPhase::LoadTail { .. } => 6,
        RecvPhase::LoadReady { .. } => 5,
        RecvPhase::LoadSequence { .. } => 4,
        RecvPhase::CopyPayload { .. } => 3,
        RecvPhase::ClearReady { .. } => 2,
        RecvPhase::AdvanceHead { .. } => 1,
        _ => 0,
    }
}

/// Whether no position can be claimed, by the counters.
pub fn is_full(head: u64, tail: u64, slot_count: u32) -> (r: bool)
    ensures
        r == (protocol::distance(head, tail) >= slot_count),
{
    tail.wrapping_sub(head) >= slot_count as u64
}

/// Whether no position is claimed, by the counters.
pub fn is_empty(head: u64, tail: u64) -> (r: bool)
    ensures
        r == (head >= tail),
{
    head >= tail
}

/// Words for a slot whose sequence word is not the position.
pub fn mismatch_error(head: u64, slot_count: u32, observed: u64) -> (e: TesseraChannelError)
    requires
        slot_count > 0,
    ensures
        error::is_region(e, mismatch_words(head, slot_count, observed)),
{
    let mut m = String::from_str("slot sequence mismatch at head ");
    text::push_dec(&mut m, head);
    m.append(": slot[");
    text::push_dec(&mut m, head % (slot_count as u64));
    m.append("].sequence = ");
    text::push_dec(&mut m, observed);
    m.append("; expected ");
    text::push_dec(&mut m, head);
    m.append(
        ". Indicates a stale write from a wrapped sender that didn't observe ready=0 — should not occur with the current CAS-based Sender protocol. Failing fast.",
    );
    TesseraChannelError::Region(m)
}

impl Channel {
    /// Opens a channel over its mapped segment. The receiver stamps the
    /// mapping; a sender checks it.
    pub fn open(config: ChannelConfig, mem: &mut [u8], epoch_micros: u64) -> (r: Result<Channel>)
        requires
            config.role == ChannelRole::Receiver && region::create_refusal(
                config.slot_count,
                config.slot_size_bytes,
            ) is None ==> header::segment_len(
                config.slot_count as int,
                config.slot_size_bytes as int,
            ) <= old(mem)@.len(),
        ensures
            ({
                let n = config.slot_count;
                let size = config.slot_size_bytes;
                let digest = crate::namespace::description_digest(config.description@);
                let need = header::segment_len(n as int, size as int);
                let h = HeaderView::of(old(mem)@);
                let view = ChannelView {
                    region: RegionView {
                        slot_count: n,
                        slot_size_bytes: size,
                        name: namespace::shm_name_of(digest),
                        owner: config.role == ChannelRole::Receiver,
                        unlinked: false,
                    },
                    role: config.role,
                };
                match config.role {
                    ChannelRole::Receiver => match region::create_refusal(n, size) {
                        Some(words) => {
                            &&& r matches Err(e) && error::is_config(e, words)
                            &&& final(mem)@ == old(mem)@
                        },
                        None => {
                            &&& r matches Ok(c) && c@ == view
                            &&& final(mem)@ == bytes::overwrite(
                                old(mem)@,
                                0,
                                region::fresh_header(digest, epoch_micros, n, size).bytes(),
                            )
                        },
                    },
                    ChannelRole::Sender => final(mem)@ == old(mem)@ && if region::attach_refusal(
                        n,
                        size,
                    ) is Some {
                        r matches Err(e) && error::is_config(e, region::attach_refusal(n, size)->0)
                    } else if need > usize::MAX {
                        r matches Err(e) && error::is_config(
                            e,
                            "region size overflow: slot_count="@ + text::dec(n as nat)
                                + " * slot_size_bytes="@ + text::dec(size as nat)
                                + " exceeds usize::MAX"@,
                        )
                    } else if old(mem)@.len() < need {
                        r matches Err(e) && error::is_region(
                            e,
                            region::short_words(
                                namespace::shm_name_of(digest),
                                need as nat,
                                old(mem)@.len(),
                            ),
                        )
                    } else {
                        match r {
                            Ok(c) => region::accepts(h, digest, n, size) && c@ == view,
                            Err(e) => !region::accepts(h, digest, n, size) && region::refused_with(
                                h,
                                digest,
                                n,
                                size,
                                e,
                            ),
                        }
                    },
                }
            }),
            r matches Ok(c) ==> c@.fits(final(mem)@),
            config.role == ChannelRole::Receiver && bytes::is_zero(old(mem)@) ==> (r matches Ok(c)
                ==> laws::settled(
                c@.queue(final(mem)@),
                config.slot_count as int,
                config.slot_size_bytes as int,
            ) && laws::waiting(c@.queue(final(mem)@), config.slot_count as int).len() == 0),
    {
        assert(mem@.len() == mem.len());
        let handle = NamespaceHandle::derive(config.description.as_str());
        let region = match config.role {
            ChannelRole::Receiver => Region::create(
                mem,
                &handle,
                config.slot_count,
                config.slot_size_bytes,
                epoch_micros,
            ),
            ChannelRole::Sender => Region::attach(
                mem,
                &handle,
                config.slot_count,
                config.slot_size_bytes,
            ),
        };
        proof {
            let n = config.slot_count;
            let size = config.slot_size_bytes as int;
            if config.role == ChannelRole::Receiver && bytes::is_zero(old(mem)@) && region is Ok {
                region::law_fresh_segment_is_empty(
                    old(mem)@,
                    region::fresh_header(handle@, epoch_micros, n, config.slot_size_bytes),
                    n as nat,
                    size,
                );
                laws::law_empty_queue(region->Ok_0@.queue(mem@), n as int, size);
            }
        }
        match region {
            Ok(region) => Ok(Channel { region: Arc::new(region), role: config.role }),
            Err(e) => Err(e),
        }
    }

    /// Role of this handle.
    pub fn role(&self) -> (r: ChannelRole)
        ensures
            r == self@.role,
    {
        self.role
    }

    /// True for the handle that created the segment.
    pub fn is_owner(&self) -> (r: bool)
        ensures
            r == self@.region.owner,
    {
        self.region.is_owner()
    }

    /// The segment of this handle.
    pub fn region(&self) -> (r: &Region)
        ensures
            r@ == self@.region,
    {
        &self.region
    }

    /// Checks that the handle has the role that an operation requires.
    pub fn require_role(&self, required: ChannelRole) -> (r: Result<()>)
        ensures
            r == if self@.role == required {
                Ok::<(), TesseraChannelError>(())
            } else {
                Err::<(), TesseraChannelError>(
                    TesseraChannelError::RoleMismatch {
                        actual: self@.role.as_snapshot(),
                        required: required.as_snapshot(),
                    },
                )
            },
    {
        if self.role != required {
            return Err(
                TesseraChannelError::RoleMismatch {
                    actual: self.role.snapshot(),
                    required: required.snapshot(),
                },
            );
        }
        Ok(())
    }

    /// Checks that a message fits a slot.
    pub fn validate_payload_len(&self, bytes_len: usize) -> (r: Result<()>)
        ensures
            r == if bytes_len <= self@.region.slot_size_bytes {
                Ok::<(), TesseraChannelError>(())
            } else {
                Err::<(), TesseraChannelError>(
                    TesseraChannelError::OversizedPayload {
                        payload_size: bytes_len,
                        slot_size: self@.region.slot_size_bytes as usize,
                    },
                )
            },
    {
        let cap: usize = self.region.slot_size_bytes() as usize;
        if bytes_len > cap {
            return Err(
                TesseraChannelError::OversizedPayload { payload_size: bytes_len, slot_size: cap },
            );
        }
        Ok(())
    }

    /// Checks that this handle may send a message of this length.
    pub fn admit_send(&self, bytes_len: usize) -> (r: Result<()>)
        ensures
            r == match send_refusal(self@, bytes_len as nat) {
                Some(e) => Err::<(), TesseraChannelError>(e),
                None => Ok::<(), TesseraChannelError>(()),
            },
    {
        match self.require_role(ChannelRole::Sender) {
            Ok(_) => self.validate_payload_len(bytes_len),
            Err(e) => Err(e),
        }
    }

    /// Judges an attempt to send: `Ok(true)` when it is done, `Ok(false)`
    /// when the caller should wait and try again.
    pub fn judge_send(
        &self,
        sent: bool,
        wait: Wait,
        deadline_reached: bool,
        head: u64,
        tail: u64,
    ) -> (r: Result<bool>)
        ensures
            r == send_verdict(
                self@.region.slot_count,
                sent,
                wait,
                deadline_reached,
                head,
                tail,
            ),
            r matches Ok(done) ==> done == sent,
            r is Err <==> !sent && (wait is Never || (wait is Micros && deadline_reached)),
    {
        if sent {
            return Ok(true);
        }
        match wait {
            Wait::Never => Err(
                TesseraChannelError::ChannelFull { slot_count: self.region.slot_count() },
            ),
            Wait::Forever => Ok(false),
            Wait::Micros(timeout_micros) => {
                if deadline_reached {
                    Err(TesseraChannelError::Timeout { timeout_micros, head, tail })
                } else {
                    Ok(false)
                }
            },
        }
    }

    /// Judges an attempt to receive: a message, or `None` when the caller
    /// should wait and try again.
    pub fn judge_recv(
        &self,
        outcome: RecvOutcome,
        wait: Wait,
        deadline_reached: bool,
        head: u64,
        tail: u64,
    ) -> (r: Result<Option<Vec<u8>>>)
        ensures
            r == match outcome {
                RecvOutcome::Got(m) => Ok::<Option<Vec<u8>>, TesseraChannelError>(Some(m)),
                _ => match recv_refusal(wait, deadline_reached, head, tail) {
                    Some(e) => Err::<Option<Vec<u8>>, TesseraChannelError>(e),
                    None => Ok::<Option<Vec<u8>>, TesseraChannelError>(None),
                },
            },
            outcome is Got <==> (r matches Ok(m) && m is Some),
            r is Err <==> !(outcome is Got) && (wait is Never || (wait is Micros
                && deadline_reached)),
    {
        match outcome {
            RecvOutcome::Got(m) => return Ok(Some(m)),
            RecvOutcome::Empty => {},
            RecvOutcome::NotReady => {},
        }
        match wait {
            Wait::Never => Err(TesseraChannelError::ChannelEmpty { head }),
            Wait::Forever => Ok(None),
            Wait::Micros(timeout_micros) => {
                if deadline_reached {
                    Err(TesseraChannelError::Timeout { timeout_micros, head, tail })
                } else {
                    Ok(None)
                }
            },
        }
    }

    /// Performs one access of an attempt on the mapped bytes.
    fn perform(&self, mem: &mut [u8], action: Action, message: &[u8], timestamp_nanos: u64) -> (r:
        u64)
        requires
            self@.fits(old(mem)@),
            message@.len() <= self@.region.slot_size_bytes,
            match action {
                Action::CopyIn { slot } => slot < self@.region.slot_count,
                Action::WriteMetadata { slot } => slot < self@.region.slot_count,
                Action::StoreSequence { slot, value } => slot < self@.region.slot_count,
                Action::LoadReady { slot } => slot < self@.region.slot_count,
                Action::LoadSequence { slot } => slot < self@.region.slot_count,
                Action::StoreReady { slot, value } => slot < self@.region.slot_count,
                _ => true,
            },
        ensures
            (self@.queue(final(mem)@), r) == protocol::performed(
                self@.queue(old(mem)@),
                action,
                message@,
                timestamp_nanos,
            ),
            region::same_header(old(mem)@, final(mem)@),
    {
        match action {
            Action::LoadHead => self.region.load_head(mem),
            Action::LoadTail => self.region.load_tail(mem),
            Action::ExchangeTail { expected, desired } => {
                if self.region.load_tail(mem) == expected {
                    self.region.store_tail(mem, desired);
                    1
                } else {
                    0
                }
            },
            Action::CopyIn { slot } => {
                self.region.write_slot_payload(mem, slot, message);
                0
            },
            Action::WriteMetadata { slot } => {
                let _ = self.region.write_slot_metadata(
                    mem,
                    slot,
                    message.len() as u32,
                    timestamp_nanos,
                );
                0
            },
            Action::StoreSequence { slot, value } => {
                self.region.store_sequence(mem, slot, value);
                0
            },
            Action::LoadReady { slot } => self.region.load_ready(mem, slot),
            Action::LoadSequence { slot } => self.region.load_sequence(mem, slot),
            Action::CopyOut { slot } => 0,
            Action::StoreReady { slot, value } => {
                self.region.store_ready(mem, slot, value);
                0
            },
            Action::StoreHead { value } => {
                self.region.store_head(mem, value);
                0
            },
            Action::Stop => 0,
        }
    }

    /// Runs one attempt to send on the mapped bytes. `false` says that there
    /// was no room.
    pub fn try_send_inner(&self, mem: &mut [u8], message: &[u8], timestamp_nanos: u64) -> (sent:
        bool)
        requires
            self@.fits(old(mem)@),
            message@.len() <= self@.region.slot_size_bytes,
        ensures
            sent == !queue_is_full(self@.queue(old(mem)@), self@.region.slot_count),
            self@.queue(final(mem)@) == if sent {
                after_send(
                    self@.queue(old(mem)@),
                    self@.region.slot_count,
                    message@,
                    timestamp_nanos,
                )
            } else {
                self@.queue(old(mem)@)
            },
            region::same_header(old(mem)@, final(mem)@),
    {
        let n: u32 = self.region.slot_count();
        let mut attempt = SendAttempt::start(n);
        let ghost mem0 = mem@;
        let ghost q0 = self@.queue(mem@);
        loop
            invariant
                self@.fits(mem@),
                mem0 == old(mem)@,
                mem@.len() == mem0.len(),
                message@.len() <= self@.region.slot_size_bytes,
                n == self@.region.slot_count,
                n > 0,
                attempt.slot_count == n,
                q0 == self@.queue(mem0),
                q0.slots.len() == n,
                send_knows(q0, attempt.phase, n),
                self@.queue(mem@) == send_stage(q0, attempt.phase, n, message@, timestamp_nanos),
                region::same_header(mem0, mem@),
            decreases send_rank(attempt.phase),
        {
            match attempt.phase {
                SendPhase::Sent => {
                    return true;
                },
                SendPhase::Full => {
                    return false;
                },
                _ => {},
            }
            let action = attempt.action();
            let word: u64 = self.perform(mem, action, message, timestamp_nanos);
            attempt.observe(word);
            proof {
                assert(self@.queue(mem@) =~= send_stage(
                    q0,
                    attempt.phase,
                    n,
                    message@,
                    timestamp_nanos,
                ));
            }
        }
    }

    /// Runs one attempt to receive on the mapped bytes.
    pub fn try_recv_inner(&self, mem: &mut [u8]) -> (r: Result<RecvOutcome>)
        requires
            self@.fits(old(mem)@),
        ensures
            received(
                self@.queue(old(mem)@),
                self@.region.slot_count,
                r,
                self@.queue(final(mem)@),
            ),
            region::same_header(old(mem)@, final(mem)@),
    {
        let n: u32 = self.region.slot_count();
        let mut attempt = RecvAttempt::start(n);
        let mut got: Vec<u8> = Vec::new();
        let none: Vec<u8> = Vec::new();
        let ghost mem0 = mem@;
        let ghost q0 = self@.queue(mem@);
        loop
            invariant
                self@.fits(mem@),
                mem0 == old(mem)@,
                mem@.len() == mem0.len(),
                n == self@.region.slot_count,
                n > 0,
                attempt.slot_count == n,
                none@.len() == 0,
                q0 == self@.queue(mem0),
                q0.slots.len() == n,
                recv_knows(q0, attempt.phase, n, got@),
                self@.queue(mem@) == recv_stage(q0, attempt.phase, n),
                region::same_header(mem0, mem@),
            decreases recv_rank(attempt.phase),
        {
            match attempt.phase {
                RecvPhase::Got => {
                    return Ok(RecvOutcome::Got(got));
                },
                RecvPhase::Empty => {
                    return Ok(RecvOutcome::Empty);
                },
                RecvPhase::NotReady => {
                    return Ok(RecvOutcome::NotReady);
                },
                RecvPhase::Mismatch { head, observed } => {
                    return Err(mismatch_error(head, n, observed));
                },
                _ => {},
            }
            let action = attempt.action();
            if let Action::CopyOut { slot } = action {
                got = self.region.read_message(mem, slot);
            }
            let word: u64 = self.perform(mem, action, none.as_slice(), 0);
            attempt.observe(word);
            proof {
                assert(self@.queue(mem@) =~= recv_stage(q0, attempt.phase, n));
            }
        }
    }

    /// Sends a message, or fails if there is no room.
    pub fn try_send(&self, mem: &mut [u8], message: &[u8], timestamp_nanos: u64) -> (r: Result<()>)
        requires
            self@.fits(old(mem)@),
        ensures
            region::same_header(old(mem)@, final(mem)@),
            send_contract(
                self@,
                self@.queue(old(mem)@),
                message@,
                timestamp_nanos,
                Wait::Never,
                false,
                match r {
                    Ok(_) => Ok(true),
                    Err(e) => Err(e),
                },
                self@.queue(final(mem)@),
            ),
    {
        match self.run_send(mem, message, timestamp_nanos, Wait::Never, false) {
            Ok(_) => Ok(()),
            Err(e) => Err(e),
        }
    }

    /// Sends a message. `Ok(false)` says that there is no room yet: the
    /// caller waits for the receiver and calls again.
    pub fn send(&self, mem: &mut [u8], message: &[u8], timestamp_nanos: u64) -> (r: Result<bool>)
        requires
            self@.fits(old(mem)@),
        ensures
            region::same_header(old(mem)@, final(mem)@),
            send_contract(
                self@,
                self@.queue(old(mem)@),
                message@,
                timestamp_nanos,
                Wait::Forever,
                false,
                r,
                self@.queue(final(mem)@),
            ),
    {
        self.run_send(mem, message, timestamp_nanos, Wait::Forever, false)
    }

    /// Sends a message within a time limit. `Ok(false)` says that there is
    /// no room yet and the limit is not reached.
    pub fn send_timeout(
        &self,
        mem: &mut [u8],
        message: &[u8],
        timestamp_nanos: u64,
        timeout_micros: u64,
        deadline_reached: bool,
    ) -> (r: Result<bool>)
        requires
            self@.fits(old(mem)@),
        ensures
            region::same_header(old(mem)@, final(mem)@),
            send_contract(
                self@,
                self@.queue(old(mem)@),
                message@,
                timestamp_nanos,
                Wait::Micros(timeout_micros),
                deadline_reached,
                r,
                self@.queue(final(mem)@),
            ),
    {
        self.run_send(
            mem,
            message,
            timestamp_nanos,
            Wait::Micros(timeout_micros),
            deadline_reached,
        )
    }

    fn run_send(
        &self,
        mem: &mut [u8],
        message: &[u8],
        timestamp_nanos: u64,
        wait: Wait,
        deadline_reached: bool,
    ) -> (r: Result<bool>)
        requires
            self@.fits(old(mem)@),
        ensures
            region::same_header(old(mem)@, final(mem)@),
            send_contract(
                self@,
                self@.queue(old(mem)@),
                message@,
                timestamp_nanos,
                wait,
                deadline_reached,
                r,
                self@.queue(final(mem)@),
            ),
    {
        match self.admit_send(message.len()) {
            Ok(_) => {},
            Err(e) => return Err(e),
        }
        let sent: bool = self.try_send_inner(mem, message, timestamp_nanos);
        let head: u64 = self.region.load_head(mem);
        let tail: u64 = self.region.load_tail(mem);
        self.judge_send(sent, wait, deadline_reached, head, tail)
    }

    /// Receives a message, or fails if none is ready.
    pub fn try_recv(&self, mem: &mut [u8]) -> (r: Result<Vec<u8>>)
        requires
            self@.fits(old(mem)@),
        ensures
            region::same_header(old(mem)@, final(mem)@),
            recv_contract(
                self@,
                self@.queue(old(mem)@),
                Wait::Never,
                false,
                match r {
                    Ok(m) => Ok(Some(m)),
                    Err(e) => Err(e),
                },
                self@.queue(final(mem)@),
            ),
    {
        match self.require_role(ChannelRole::Receiver) {
            Ok(_) => {},
            Err(e) => return Err(e),
        }
        match self.try_recv_inner(mem) {
            Ok(RecvOutcome::Got(m)) => Ok(m),
            Ok(_) => Err(TesseraChannelError::ChannelEmpty { head: self.region.load_head(mem) }),
            Err(e) => Err(e),
        }
    }

    /// Receives a message. `Ok(None)` says that none is ready yet: the
    /// caller waits for a sender and calls again.
    pub fn recv(&self, mem: &mut [u8]) -> (r: Result<Option<Vec<u8>>>)
        requires
            self@.fits(old(mem)@),
        ensures
            region::same_header(old(mem)@, final(mem)@),
            recv_contract(
                self@,
                self@.queue(old(mem)@),
                Wait::Forever,
                false,
                r,
                self@.queue(final(mem)@),
            ),
    {
        self.run_recv(mem, Wait::Forever, false)
    }

    /// Receives a message within a time limit. `Ok(None)` says that none is
    /// ready yet and the limit is not reached.
    pub fn recv_timeout(&self, mem: &mut [u8], timeout_micros: u64, deadline_reached: bool) -> (r:
        Result<Option<Vec<u8>>>)
        requires
            self@.fits(old(mem)@),
        ensures
            region::same_header(old(mem)@, final(mem)@),
            recv_contract(
                self@,
                self@.queue(old(mem)@),
                Wait::Micros(timeout_micros),
                deadline_reached,
                r,
                self@.queue(final(mem)@),
            ),
    {
        self.run_recv(mem, Wait::Micros(timeout_micros), deadline_reached)
    }

    fn run_recv(&self, mem: &mut [u8], wait: Wait, deadline_reached: bool) -> (r: Result<
        Option<Vec<u8>>,
    >)
        requires
            self@.fits(old(mem)@),
        ensures
            region::same_header(old(mem)@, final(mem)@),
            recv_contract(
                self@,
                self@.queue(old(mem)@),
                wait,
                deadline_reached,
                r,
                self@.queue(final(mem)@),
            ),
    {
        match self.require_role(ChannelRole::Receiver) {
            Ok(_) => {},
            Err(e) => return Err(e),
        }
        let outcome = match self.try_recv_inner(mem) {
            Ok(outcome) => outcome,
            Err(e) => return Err(e),
        };
        let head: u64 = self.region.load_head(mem);
        let tail: u64 = self.region.load_tail(mem);
        self.judge_recv(outcome, wait, deadline_reached, head, tail)
    }

    /// The head and tail counters.
    pub fn positions(&self, mem: &[u8]) -> (r: (u64, u64))
        requires
            self@.fits(mem@),
        ensures
            r == (self@.queue(mem@).head, self@.queue(mem@).tail),
    {
        (self.region.load_head(mem), self.region.load_tail(mem))
    }
}

} // verus!
