//! What holds of a channel that many senders and its receiver use at once.
//!
//! A world is a queue, any number of senders each somewhere in an attempt of
//! [`crate::channel::protocol`], and the receiver in its own. One of them
//! makes its next access at a time, in any order whatever. The laws hold in
//! every world that can be reached from an empty channel, up to the limit of
//! 2^64 messages that the counters can number.
use vstd::prelude::*;

use crate::channel::laws;
use crate::channel::protocol;
use crate::channel::protocol::{Action, RecvPhase, SendPhase};
use crate::channel::region::{QueueView, SlotView};

verus! {

/// A sender with the message it is sending.
pub struct Sender {
    /// Where its attempt is.
    pub phase: SendPhase,
    /// What it sends.
    pub message: Seq<u8>,
    /// Time of sending.
    pub timestamp: u64,
}

/// The receiver with the message it copied last.
pub struct Receiver {
    /// Where its attempt is.
    pub phase: RecvPhase,
    /// What it copied out last.
    pub got: Seq<u8>,
}

/// A channel and all that use it.
pub struct World {
    /// Number of slots.
    pub n: u32,
    /// Payload bytes per slot.
    pub size: int,
    /// The shared counters and slots.
    pub q: QueueView,
    /// The senders.
    pub senders: Map<int, Sender>,
    /// The receiver.
    pub receiver: Receiver,
    /// The messages whose positions were claimed, by position.
    pub claimed: Seq<Seq<u8>>,
    /// Who claimed each position.
    pub owners: Seq<int>,
    /// The messages that were received, in order.
    pub delivered: Seq<Seq<u8>>,
}

/// One step of a world.
pub enum Step {
    /// A sender begins to send a message.
    Join {
        /// Who.
        id: int,
        /// What.
        message: Seq<u8>,
        /// When.
        timestamp: u64,
    },
    /// A sender makes its next access.
    Send {
        /// Who.
        id: int,
    },
    /// A sender's claim fails though the tail has not moved, as a weak
    /// exchange may.
    ClaimFails {
        /// Who.
        id: int,
    },
    /// The receiver makes its next access.
    Receive,
    /// The receiver begins another attempt.
    Again,
}

/// The attempt is over.
pub open spec fn send_over(phase: SendPhase) -> bool {
    phase is Sent || phase is Full
}

/// The attempt is over.
pub open spec fn recv_over(phase: RecvPhase) -> bool {
    phase is Got || phase is Empty || phase is NotReady || phase is Mismatch
}

/// The step can be taken.
pub open spec fn enabled(w: World, step: Step) -> bool {
    match step {
        Step::Join { id, message, timestamp } => {
            &&& w.senders.contains_key(id) ==> send_over(w.senders[id].phase)
            &&& message.len() <= w.size
        },
        Step::Send { id } => {
            &&& w.senders.contains_key(id)
            &&& !send_over(w.senders[id].phase)
            &&& w.senders[id].phase is Claim ==> w.q.tail < u64::MAX
        },
        Step::ClaimFails { id } => w.senders.contains_key(id) && w.senders[id].phase is Claim,
        Step::Receive => !recv_over(w.receiver.phase),
        Step::Again => recv_over(w.receiver.phase),
    }
}

/// The world after the step.
pub open spec fn next(w: World, step: Step) -> World {
    match step {
        Step::Join { id, message, timestamp } => World {
            senders: w.senders.insert(
                id,
                Sender { phase: SendPhase::LoadTail, message, timestamp },
            ),
            ..w
        },
        Step::Send { id } => {
            let s = w.senders[id];
            let (q, word) = protocol::performed(
                w.q,
                s.phase.next_action(w.n),
                s.message,
                s.timestamp,
            );
            let claims = s.phase is Claim && word != 0;
            World {
                q,
                senders: w.senders.insert(id, Sender { phase: s.phase.after(word, w.n), ..s }),
                claimed: if claims {
                    w.claimed.push(s.message)
                } else {
                    w.claimed
                },
                owners: if claims {
                    w.owners.push(id)
                } else {
                    w.owners
                },
                ..w
            }
        },
        Step::ClaimFails { id } => {
            let s = w.senders[id];
            World {
                senders: w.senders.insert(id, Sender { phase: s.phase.after(0, w.n), ..s }),
                ..w
            }
        },
        Step::Receive => {
            let r = w.receiver;
            let a = r.phase.next_action(w.n);
            let (q, word) = protocol::performed(w.q, a, Seq::empty(), 0);
            World {
                q,
                receiver: Receiver {
                    phase: r.phase.after(word),
                    got: match a {
                        Action::CopyOut { slot } => w.q.slots[slot as int].message(),
                        _ => r.got,
                    },
                },
                delivered: if r.phase is AdvanceHead {
                    w.delivered.push(r.got)
                } else {
                    w.delivered
                },
                ..w
            }
        },
        Step::Again => World {
            receiver: Receiver { phase: RecvPhase::LoadHead, ..w.receiver },
            ..w
        },
    }
}

/// An empty channel that nobody has used.
pub open spec fn initial(w: World) -> bool {
    &&& w.n > 0
    &&& 0 <= w.size <= u32::MAX
    &&& w.q.head == 0
    &&& w.q.tail == 0
    &&& w.q.slots.len() == w.n
    &&& forall|i: int|
        0 <= i < w.n ==> (#[trigger] w.q.slots[i]).ready == 0 && w.q.slots[i].payload.len()
            == w.size
    &&& w.senders == Map::<int, Sender>::empty()
    &&& w.receiver.phase is LoadHead
    &&& w.claimed.len() == 0
    &&& w.owners.len() == 0
    &&& w.delivered.len() == 0
}

/// The position that a sender in this phase has claimed and not published.
pub open spec fn holding(phase: SendPhase) -> Option<u64> {
    match phase {
        SendPhase::CopyPayload { claimed } => Some(claimed),
        SendPhase::WriteMetadata { claimed } => Some(claimed),
        SendPhase::StampSequence { claimed } => Some(claimed),
        SendPhase::MarkReady { claimed } => Some(claimed),
        _ => None,
    }
}

/// The receiver has given the slot at the head back and not yet moved on.
pub open spec fn receiver_leaving(w: World) -> bool {
    w.receiver.phase is AdvanceHead
}

/// How far a sender has filled its slot.
pub open spec fn filled(s: Sender, t: SlotView) -> bool {
    &&& t.ready == 0
    &&& s.phase is WriteMetadata || s.phase is StampSequence || s.phase is MarkReady ==> {
        &&& s.message.len() <= t.payload.len()
        &&& t.payload.take(s.message.len() as int) == s.message
    }
    &&& s.phase is StampSequence || s.phase is MarkReady ==> t.length == s.message.len()
    &&& s.phase matches SendPhase::MarkReady { claimed } ==> t.sequence == claimed
}

/// The state of a position between head and tail: its sender is filling the
/// slot, or the receiver has just given it back, or it is published.
pub open spec fn position_ok(w: World, p: int) -> bool {
    let id = w.owners[p];
    let s = w.senders[id];
    let t = laws::slot(w.q, p, w.n as int);
    &&& w.senders.contains_key(id)
    &&& if holding(s.phase) == Some(p as u64) {
        s.message == w.claimed[p] && filled(s, t)
    } else if receiver_leaving(w) && p == w.q.head {
        t.ready == 0
    } else {
        t.ready == 1 && t.sequence == p && t.message() == w.claimed[p]
    }
}

/// What a sender can rely on.
pub open spec fn sender_ok(w: World, id: int) -> bool {
    let s = w.senders[id];
    &&& s.message.len() <= w.size
    &&& s.phase matches SendPhase::LoadHead { tail } ==> tail <= w.q.tail
    &&& s.phase matches SendPhase::Claim { tail } ==> tail <= w.q.tail && tail - w.q.head < w.n
    &&& holding(s.phase) matches Some(p) ==> {
        &&& w.q.head <= p < w.q.tail
        &&& w.owners[p as int] == id
        &&& !(receiver_leaving(w) && p == w.q.head)
    }
}

/// What the receiver can rely on.
pub open spec fn receiver_ok(w: World) -> bool {
    let t = laws::slot(w.q, w.q.head as int, w.n as int);
    match w.receiver.phase {
        RecvPhase::LoadTail { head } => head == w.q.head,
        RecvPhase::LoadReady { head } => head == w.q.head && w.q.head < w.q.tail,
        RecvPhase::LoadSequence { head } => head == w.q.head && w.q.head < w.q.tail && t.ready
            != 0,
        RecvPhase::CopyPayload { head } => head == w.q.head && w.q.head < w.q.tail && t.ready
            != 0,
        RecvPhase::ClearReady { head } => head == w.q.head && w.q.head < w.q.tail && t.ready != 0
            && w.receiver.got == w.claimed[head as int],
        RecvPhase::AdvanceHead { head } => head == w.q.head && w.q.head < w.q.tail
            && w.receiver.got == w.claimed[head as int],
        RecvPhase::Mismatch { head, observed } => false,
        _ => true,
    }
}

/// Counters and histories fit together.
pub open spec fn counters_ok(w: World) -> bool {
    &&& w.n > 0
    &&& 0 <= w.size <= u32::MAX
    &&& w.q.slots.len() == w.n
    &&& forall|i: int| 0 <= i < w.n ==> (#[trigger] w.q.slots[i]).payload.len() == w.size
    &&& w.q.head <= w.q.tail <= w.q.head + w.n
    &&& w.claimed.len() == w.q.tail
    &&& w.owners.len() == w.q.tail
    &&& w.delivered == w.claimed.take(w.q.head as int)
}

/// What holds in every world that can be reached.
pub open spec fn sound(w: World) -> bool {
    &&& counters_ok(w)
    &&& forall|p: int| w.q.head <= p < w.q.tail ==> #[trigger] position_ok(w, p)
    &&& forall|p: int|
        w.q.tail <= p < w.q.head + w.n ==> (#[trigger] laws::slot(w.q, p, w.n as int)).ready == 0
    &&& forall|id: int| w.senders.contains_key(id) ==> #[trigger] sender_ok(w, id)
    &&& receiver_ok(w)
}

/// An unused channel is sound.
pub proof fn law_initial_world_is_sound(w: World)
    requires
        initial(w),
    ensures
        sound(w),
{
    assert(w.delivered =~= w.claimed.take(0));
    assert forall|p: int| w.q.tail <= p < w.q.head + w.n implies (#[trigger] laws::slot(
        w.q,
        p,
        w.n as int,
    )).ready == 0 by {
        laws::lemma_slot_in_range(p, w.n as int);
    }
}

/// A step of a sender that changes neither counters nor slots.
proof fn lemma_sender_looks(w: World, id: int, phase: SendPhase)
    requires
        sound(w),
        w.senders.contains_key(id),
        holding(w.senders[id].phase) is None,
        holding(phase) is None,
        sender_ok(
            World { senders: w.senders.insert(id, Sender { phase, ..w.senders[id] }), ..w },
            id,
        ),
    ensures
        sound(World { senders: w.senders.insert(id, Sender { phase, ..w.senders[id] }), ..w }),
{
    let v = World { senders: w.senders.insert(id, Sender { phase, ..w.senders[id] }), ..w };
    assert forall|p: int| v.q.head <= p < v.q.tail implies #[trigger] position_ok(v, p) by {
        assert(position_ok(w, p));
    }
    assert forall|j: int| v.senders.contains_key(j) implies #[trigger] sender_ok(v, j) by {
        if j != id {
            assert(sender_ok(w, j));
        }
    }
}

/// A sender that claims a position: it is the next one, its slot is free,
/// and nobody else has it.
proof fn lemma_claim(w: World, id: int)
    requires
        sound(w),
        w.senders.contains_key(id),
        w.senders[id].phase == (SendPhase::Claim { tail: w.q.tail }),
        w.q.tail < u64::MAX,
    ensures
        sound(next(w, Step::Send { id })),
{
    let v = next(w, Step::Send { id });
    let n = w.n as int;
    let t = w.q.tail as int;
    assert(sender_ok(w, id));
    assert(v.q.tail == t + 1);
    assert(v.delivered =~= v.claimed.take(v.q.head as int));
    assert forall|p: int| v.q.head <= p < v.q.tail implies #[trigger] position_ok(v, p) by {
        laws::lemma_slot_in_range(p, n);
        if p < t {
            assert(position_ok(w, p));
            assert(v.owners[p] == w.owners[p] && v.claimed[p] == w.claimed[p]);
            if w.owners[p] == id {
                assert(holding(w.senders[id].phase) is None);
            }
        } else {
            assert(laws::slot(w.q, t, n).ready == 0);
        }
    }
    assert forall|p: int| v.q.tail <= p < v.q.head + v.n implies (#[trigger] laws::slot(v.q, p, n)).ready
        == 0 by {
        assert(laws::slot(w.q, p, n).ready == 0);
    }
    assert forall|j: int| v.senders.contains_key(j) implies #[trigger] sender_ok(v, j) by {
        assert(sender_ok(w, j));
    }
}

/// A sender that works on the slot of the position it holds.
proof fn lemma_fill(w: World, id: int)
    requires
        sound(w),
        w.senders.contains_key(id),
        holding(w.senders[id].phase) is Some,
    ensures
        sound(next(w, Step::Send { id })),
{
    let v = next(w, Step::Send { id });
    let n = w.n as int;
    let s = w.senders[id];
    let c = holding(s.phase)->0 as int;
    assert(sender_ok(w, id));
    assert(position_ok(w, c));
    laws::lemma_slot_in_range(c, n);
    let i = c % n;
    assert(protocol::slot_of(c as u64, w.n) == i);
    let t = w.q.slots[i];
    let u = v.q.slots[i];
    assert(u.payload.len() == w.size);
    if s.phase is CopyPayload {
        assert(u.payload.take(s.message.len() as int) =~= s.message);
    }
    if s.phase is MarkReady {
        assert(t.message() =~= s.message);
        assert(u.message() == t.message());
    }
    assert forall|p: int| v.q.head <= p < v.q.tail implies #[trigger] position_ok(v, p) by {
        assert(position_ok(w, p));
        laws::lemma_slot_in_range(p, n);
        if p != c {
            laws::lemma_distinct_slots(p, c, n);
            assert(laws::slot(v.q, p, n) == laws::slot(w.q, p, n));
        }
    }
    assert forall|p: int| v.q.tail <= p < v.q.head + v.n implies (#[trigger] laws::slot(v.q, p, n)).ready
        == 0 by {
        laws::lemma_slot_in_range(p, n);
        laws::lemma_distinct_slots(p, c, n);
        assert(laws::slot(w.q, p, n).ready == 0);
    }
    assert forall|j: int| v.senders.contains_key(j) implies #[trigger] sender_ok(v, j) by {
        assert(sender_ok(w, j));
    }
    let h = w.q.head as int;
    laws::lemma_slot_in_range(h, n);
    if h != c {
        laws::lemma_distinct_slots(h, c, n);
        assert(laws::slot(v.q, h, n) == laws::slot(w.q, h, n));
    }
}

/// A step of the receiver that changes neither counters nor slots.
proof fn lemma_receiver_looks(w: World, r: Receiver)
    requires
        sound(w),
        !receiver_leaving(w),
        !(r.phase is AdvanceHead),
        receiver_ok(World { receiver: r, ..w }),
    ensures
        sound(World { receiver: r, ..w }),
{
    let v = World { receiver: r, ..w };
    assert forall|p: int| v.q.head <= p < v.q.tail implies #[trigger] position_ok(v, p) by {
        assert(position_ok(w, p));
    }
    assert forall|j: int| v.senders.contains_key(j) implies #[trigger] sender_ok(v, j) by {
        assert(sender_ok(w, j));
    }
}

/// The receiver gives the slot back that it has read.
proof fn lemma_clear(w: World)
    requires
        sound(w),
        w.receiver.phase is ClearReady,
    ensures
        sound(next(w, Step::Receive)),
{
    let v = next(w, Step::Receive);
    let n = w.n as int;
    let h = w.q.head as int;
    laws::lemma_slot_in_range(h, n);
    assert(protocol::slot_of(w.q.head, w.n) == h % n);
    assert(position_ok(w, h));
    assert forall|p: int| v.q.head <= p < v.q.tail implies #[trigger] position_ok(v, p) by {
        assert(position_ok(w, p));
        laws::lemma_slot_in_range(p, n);
        if p != h {
            laws::lemma_distinct_slots(p, h, n);
            assert(laws::slot(v.q, p, n) == laws::slot(w.q, p, n));
        }
    }
    assert forall|p: int| v.q.tail <= p < v.q.head + v.n implies (#[trigger] laws::slot(v.q, p, n)).ready
        == 0 by {
        laws::lemma_slot_in_range(p, n);
        laws::lemma_distinct_slots(p, h, n);
        assert(laws::slot(w.q, p, n).ready == 0);
    }
    assert forall|j: int| v.senders.contains_key(j) implies #[trigger] sender_ok(v, j) by {
        assert(sender_ok(w, j));
    }
}

/// The receiver moves on.
proof fn lemma_advance(w: World)
    requires
        sound(w),
        w.receiver.phase is AdvanceHead,
    ensures
        sound(next(w, Step::Receive)),
{
    let v = next(w, Step::Receive);
    let n = w.n as int;
    let h = w.q.head as int;
    assert(position_ok(w, h));
    assert(v.delivered =~= v.claimed.take(v.q.head as int));
    assert forall|p: int| v.q.head <= p < v.q.tail implies #[trigger] position_ok(v, p) by {
        assert(position_ok(w, p));
    }
    assert forall|p: int| v.q.tail <= p < v.q.head + v.n implies (#[trigger] laws::slot(v.q, p, n)).ready
        == 0 by {
        if p == h + n {
            vstd::arithmetic::div_mod::lemma_mod_add_multiples_vanish(h, n);
            assert(laws::slot(w.q, h, n).ready == 0);
        } else {
            assert(laws::slot(w.q, p, n).ready == 0);
        }
    }
    assert forall|j: int| v.senders.contains_key(j) implies #[trigger] sender_ok(v, j) by {
        assert(sender_ok(w, j));
    }
}

/// Every step leads from a sound world to a sound world.
pub proof fn law_step_keeps_soundness(w: World, step: Step)
    requires
        sound(w),
        enabled(w, step),
    ensures
        sound(next(w, step)),
{
    let v = next(w, step);
    match step {
        Step::Join { id, message, timestamp } => {
            assert forall|p: int| v.q.head <= p < v.q.tail implies #[trigger] position_ok(v, p) by {
                assert(position_ok(w, p));
            }
            assert forall|j: int| v.senders.contains_key(j) implies #[trigger] sender_ok(v, j) by {
                if j != id {
                    assert(sender_ok(w, j));
                }
            }
        },
        Step::Send { id } => {
            let s = w.senders[id];
            assert(sender_ok(w, id));
            if holding(s.phase) is Some {
                lemma_fill(w, id);
            } else {
                match s.phase {
                    SendPhase::Claim { tail } => {
                        if tail == w.q.tail {
                            lemma_claim(w, id);
                        } else {
                            lemma_sender_looks(w, id, SendPhase::LoadTail);
                        }
                    },
                    _ => {
                        let (q, word) = protocol::performed(
                            w.q,
                            s.phase.next_action(w.n),
                            s.message,
                            s.timestamp,
                        );
                        lemma_sender_looks(w, id, s.phase.after(word, w.n));
                    },
                }
            }
        },
        Step::ClaimFails { id } => {
            assert(sender_ok(w, id));
            lemma_sender_looks(w, id, SendPhase::LoadTail);
        },
        Step::Receive => {
            let n = w.n as int;
            let h = w.q.head as int;
            laws::lemma_slot_in_range(h, n);
            assert(protocol::slot_of(w.q.head, w.n) == h % n);
            if h < w.q.tail {
                assert(position_ok(w, h));
            }
            match w.receiver.phase {
                RecvPhase::ClearReady { head } => {
                    lemma_clear(w);
                },
                RecvPhase::AdvanceHead { head } => {
                    lemma_advance(w);
                },
                _ => {
                    lemma_receiver_looks(w, v.receiver);
                },
            }
        },
        Step::Again => {
            lemma_receiver_looks(w, v.receiver);
        },
    }
}

/// A run: a world, the steps taken, and the world they lead to.
pub open spec fn runs_to(w: World, steps: Seq<Step>, v: World) -> bool
    decreases steps.len(),
{
    if steps.len() == 0 {
        v == w
    } else {
        enabled(w, steps[0]) && runs_to(next(w, steps[0]), steps.drop_first(), v)
    }
}

/// However the steps of senders and receiver interleave, from an unused
/// channel only sound worlds are reached.
pub proof fn law_every_run_is_sound(w: World, steps: Seq<Step>, v: World)
    requires
        sound(w),
        runs_to(w, steps, v),
    ensures
        sound(v),
    decreases steps.len(),
{
    if steps.len() > 0 {
        law_step_keeps_soundness(w, steps[0]);
        law_every_run_is_sound(next(w, steps[0]), steps.drop_first(), v);
    }
}

/// First in, first out, and nothing lost: what was received is exactly what
/// was claimed first, in the order of the claims; and at most as many
/// messages are under way as there are slots.
pub proof fn law_delivery_is_in_claim_order(w: World)
    requires
        sound(w),
    ensures
        w.delivered == w.claimed.take(w.delivered.len() as int),
        w.delivered.len() == w.q.head,
        w.claimed.len() - w.delivered.len() <= w.n,
{
}

/// Two senders never hold the same position or the same slot, and the
/// receiver never reads a slot that a sender is filling: the copies in and
/// out of a slot are each made by one side alone.
pub proof fn law_slot_access_is_exclusive(w: World, a: int, b: int)
    requires
        sound(w),
        w.senders.contains_key(a),
        w.senders.contains_key(b),
        holding(w.senders[a].phase) is Some,
    ensures
        a != b && holding(w.senders[b].phase) is Some ==> protocol::slot_of(
            holding(w.senders[a].phase)->0,
            w.n,
        ) != protocol::slot_of(holding(w.senders[b].phase)->0, w.n),
        w.receiver.phase matches RecvPhase::CopyPayload { head } ==> protocol::slot_of(
            holding(w.senders[a].phase)->0,
            w.n,
        ) != protocol::slot_of(head, w.n),
{
    let n = w.n as int;
    let pa = holding(w.senders[a].phase)->0 as int;
    assert(sender_ok(w, a));
    assert(position_ok(w, pa));
    laws::lemma_slot_in_range(pa, n);
    if a != b && holding(w.senders[b].phase) is Some {
        let pb = holding(w.senders[b].phase)->0 as int;
        assert(sender_ok(w, b));
        laws::lemma_slot_in_range(pb, n);
        laws::lemma_distinct_slots(pa, pb, n);
    }
    if w.receiver.phase is CopyPayload {
        let h = w.q.head as int;
        assert(position_ok(w, h));
        laws::lemma_slot_in_range(h, n);
        laws::lemma_distinct_slots(pa, h, n);
    }
}

/// The receiver never meets a slot whose sequence word is not the position.
pub proof fn law_no_sequence_mismatch(w: World)
    requires
        sound(w),
    ensures
        !(w.receiver.phase is Mismatch),
{
}

/// A message that one of several receivers was handed.
pub struct Handed {
    /// Who.
    pub who: int,
    /// What.
    pub message: Seq<u8>,
}

/// A channel whose receiving is shared: whoever holds the turn is the
/// receiver, for one attempt at a time.
pub struct Shared {
    /// The channel and its senders.
    pub world: World,
    /// Who holds the turn.
    pub turn: Option<int>,
    /// What the receivers were handed, in order.
    pub handed: Seq<Handed>,
}

/// One step of a shared channel.
pub enum SharedStep {
    /// Somebody takes the turn and begins an attempt.
    Take {
        /// Who.
        who: int,
    },
    /// Whoever holds the turn makes the next access.
    Receive,
    /// Whoever holds the turn has ended the attempt and gives the turn back.
    Leave,
    /// A sender's step.
    Other {
        /// Which.
        step: Step,
    },
}

/// The step can be taken.
pub open spec fn shared_enabled(x: Shared, step: SharedStep) -> bool {
    match step {
        SharedStep::Take { who } => x.turn is None,
        SharedStep::Receive => x.turn is Some && enabled(x.world, Step::Receive),
        SharedStep::Leave => x.turn is Some && recv_over(x.world.receiver.phase),
        SharedStep::Other { step } => !(step is Receive) && !(step is Again) && enabled(
            x.world,
            step,
        ),
    }
}

/// The shared channel after the step.
pub open spec fn shared_next(x: Shared, step: SharedStep) -> Shared {
    match step {
        SharedStep::Take { who } => Shared {
            world: next(x.world, Step::Again),
            turn: Some(who),
            ..x
        },
        SharedStep::Receive => Shared {
            world: next(x.world, Step::Receive),
            handed: if x.world.receiver.phase is AdvanceHead {
                x.handed.push(Handed { who: x.turn->0, message: x.world.receiver.got })
            } else {
                x.handed
            },
            ..x
        },
        SharedStep::Leave => Shared { turn: None, ..x },
        SharedStep::Other { step } => Shared { world: next(x.world, step), ..x },
    }
}

/// What holds in every shared channel that can be reached.
pub open spec fn shared_sound(x: Shared) -> bool {
    &&& sound(x.world)
    &&& x.turn is None ==> recv_over(x.world.receiver.phase) || x.world.receiver.phase is LoadHead
    &&& x.handed.len() == x.world.delivered.len()
    &&& forall|k: int|
        0 <= k < x.handed.len() ==> (#[trigger] x.handed[k]).message == x.world.delivered[k]
}

/// A run: a shared channel, the steps taken, and what they lead to.
pub open spec fn shared_runs_to(x: Shared, steps: Seq<SharedStep>, y: Shared) -> bool
    decreases steps.len(),
{
    if steps.len() == 0 {
        y == x
    } else {
        shared_enabled(x, steps[0]) && shared_runs_to(
            shared_next(x, steps[0]),
            steps.drop_first(),
            y,
        )
    }
}

/// Receivers that take turns are handed each message exactly once, in the
/// order in which the messages were claimed, however their steps and those
/// of the senders interleave; the head has moved on by as many as were
/// handed out.
pub proof fn law_receivers_in_turn_get_each_message_once(
    x: Shared,
    steps: Seq<SharedStep>,
    y: Shared,
    k: int,
)
    requires
        initial(x.world),
        x.turn is None,
        x.handed.len() == 0,
        shared_runs_to(x, steps, y),
    ensures
        y.world.q.head == y.handed.len(),
        y.handed.len() <= y.world.claimed.len(),
        0 <= k < y.handed.len() ==> y.handed[k].message == y.world.claimed[k],
{
    law_initial_world_is_sound(x.world);
    lemma_shared_run(x, steps, y);
}

proof fn lemma_shared_run(x: Shared, steps: Seq<SharedStep>, y: Shared)
    requires
        shared_sound(x),
        shared_runs_to(x, steps, y),
    ensures
        shared_sound(y),
    decreases steps.len(),
{
    if steps.len() > 0 {
        lemma_shared_step(x, steps[0]);
        lemma_shared_run(shared_next(x, steps[0]), steps.drop_first(), y);
    }
}

proof fn lemma_shared_step(x: Shared, step: SharedStep)
    requires
        shared_sound(x),
        shared_enabled(x, step),
    ensures
        shared_sound(shared_next(x, step)),
{
    match step {
        SharedStep::Take { who } => {
            if recv_over(x.world.receiver.phase) {
                law_step_keeps_soundness(x.world, Step::Again);
            } else {
                assert(next(x.world, Step::Again) == x.world);
            }
        },
        SharedStep::Receive => {
            law_step_keeps_soundness(x.world, Step::Receive);
        },
        SharedStep::Leave => {},
        SharedStep::Other { step } => {
            law_step_keeps_soundness(x.world, step);
        },
    }
}

} // verus!
