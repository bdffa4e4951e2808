//! The life of a worker process, from its first segment to its end.
//!
//! A worker attaches to the pool, creates its control channel, attaches to
//! the ack channel and only then says, once, that it is ready: the owner
//! attaches to the control channel on that word and so never meets one that
//! an earlier worker left behind. From then on it takes one message after
//! another. Told to end, or left by its owner, it removes its temporary
//! files before it ends. Whoever runs a worker performs the steps and says
//! what came of each.
use vstd::prelude::*;

use crate::channel::{ChannelConfig, ChannelRole, TesseraChannelError};
use crate::pool::{PoolConfig, TesseraPoolError};
use crate::sink::error;
use crate::sink::error::TesseraSinkError;
use crate::sink::messages;
use crate::sink::messages::{AckMessage, AckView, ControlMessage, ControlView};
use crate::sink::worker;
use crate::sink::worker::{ack_send_failure, judge_control, LoopStep};
use crate::sink::worker::{WorkerParams, WorkerParamsView};

verus! {

/// Where a worker is in its life.
#[derive(Clone, Copy, Debug, PartialEq, Eq)]
pub enum RunPhase {
    /// The pool is to be attached to.
    AttachingPool,
    /// The control channel is to be created.
    CreatingControl,
    /// The ack channel is to be attached to.
    AttachingAck,
    /// The owner is to be told that the worker is ready.
    Announcing,
    /// A message is to be taken from the control channel.
    Serving,
    /// A message is being carried out and answered.
    Dispatching,
    /// The temporary files are to be removed.
    CleaningUp,
    /// The worker has ended as it should.
    Ended,
    /// The worker has failed.
    Failed,
}

/// A worker process.
#[derive(Debug)]
pub struct WorkerRun {
    params: WorkerParams,
    phase: RunPhase,
}

/// A worker process.
pub struct RunView {
    /// What it was started with.
    pub params: WorkerParamsView,
    /// Where it is in its life.
    pub phase: RunPhase,
}

impl View for WorkerRun {
    type V = RunView;

    closed spec fn view(&self) -> RunView {
        RunView { params: self.params@, phase: self.phase }
    }
}

/// What a worker does next.
#[derive(Debug)]
pub enum RunStep {
    /// Attach to the pool.
    AttachPool(PoolConfig),
    /// Create the control channel.
    CreateControl(ChannelConfig),
    /// Attach to the ack channel.
    AttachAck(ChannelConfig),
    /// Send the word that the worker is ready.
    SendReady(AckMessage),
    /// Take a message from the control channel, waiting for a short time.
    Receive,
    /// Carry the message out and send the answer.
    Dispatch(ControlMessage),
    /// Remove all temporary files.
    CleanUp,
    /// End.
    End,
    /// End with this failure.
    Fail(TesseraSinkError),
}

/// What came of a step.
#[derive(Debug)]
pub enum RunEvent {
    /// The pool is attached to.
    PoolAttached,
    /// It could not be attached to.
    PoolFailed(TesseraPoolError),
    /// The control channel is there.
    ControlCreated,
    /// The ack channel is attached to.
    AckAttached,
    /// A channel could not be opened.
    ChannelFailed(TesseraChannelError),
    /// The ready word or the answer was sent.
    Sent,
    /// It could not be sent.
    SendFailed(TesseraChannelError),
    /// What the control channel gave.
    Received {
        /// A message, or why there is none.
        message: core::result::Result<Vec<u8>, TesseraChannelError>,
        /// The owner's process is gone.
        parent_is_gone: bool,
    },
    /// The temporary files were removed.
    CleanedUp,
}

/// How a worker goes on from what the control channel gave.
pub open spec fn phase_after_message(
    message: core::result::Result<Vec<u8>, TesseraChannelError>,
    parent_is_gone: bool,
) -> RunPhase {
    match message {
        Ok(b) => match messages::control_decoded(b@) {
            Ok(ControlView::Shutdown) => RunPhase::CleaningUp,
            Ok(_) => RunPhase::Dispatching,
            Err(words) => RunPhase::Failed,
        },
        Err(TesseraChannelError::Timeout { .. }) => if parent_is_gone {
            RunPhase::CleaningUp
        } else {
            RunPhase::Serving
        },
        Err(e) => RunPhase::Failed,
    }
}

/// The phase after an event.
pub open spec fn phase_after(phase: RunPhase, event: RunEvent) -> RunPhase {
    match (phase, event) {
        (RunPhase::AttachingPool, RunEvent::PoolAttached) => RunPhase::CreatingControl,
        (RunPhase::CreatingControl, RunEvent::ControlCreated) => RunPhase::AttachingAck,
        (RunPhase::AttachingAck, RunEvent::AckAttached) => RunPhase::Announcing,
        (RunPhase::Announcing, RunEvent::Sent) => RunPhase::Serving,
        (RunPhase::Serving, RunEvent::Received { message, parent_is_gone }) => phase_after_message(
            message,
            parent_is_gone,
        ),
        (RunPhase::Dispatching, RunEvent::Sent) => RunPhase::Serving,
        (RunPhase::CleaningUp, RunEvent::CleanedUp) => RunPhase::Ended,
        _ => RunPhase::Failed,
    }
}

/// The event is one that can follow on the step of this phase.
pub open spec fn expects(phase: RunPhase, event: RunEvent) -> bool {
    match phase {
        RunPhase::AttachingPool => event is PoolAttached || event is PoolFailed,
        RunPhase::CreatingControl => event is ControlCreated || event is ChannelFailed,
        RunPhase::AttachingAck => event is AckAttached || event is ChannelFailed,
        RunPhase::Announcing => event is Sent || event is SendFailed,
        RunPhase::Serving => event is Received,
        RunPhase::Dispatching => event is Sent || event is SendFailed,
        RunPhase::CleaningUp => event is CleanedUp,
        RunPhase::Ended => false,
        RunPhase::Failed => false,
    }
}

/// `e` says why a worker cannot go on that failed to send.
pub open spec fn send_failed_with(c: TesseraChannelError, e: TesseraSinkError) -> bool {
    match c {
        TesseraChannelError::Timeout { .. } => error::is_timeout(
            e,
            worker::ACK_SEND_TIMEOUT_MICROS,
            "ack send (owner not draining)"@,
        ),
        _ => e == TesseraSinkError::Channel(c),
    }
}

/// `e` is how the event is reported that ends the worker.
pub open spec fn fails_with(event: RunEvent, e: TesseraSinkError) -> bool {
    match event {
        RunEvent::PoolFailed(p) => e == TesseraSinkError::Pool(p),
        RunEvent::ChannelFailed(c) => e == TesseraSinkError::Channel(c),
        RunEvent::SendFailed(c) => send_failed_with(c, e),
        RunEvent::Received { message, parent_is_gone } => match message {
            Ok(b) => messages::control_decoded(b@) matches Err(words) && error::is_protocol(
                e,
                words,
            ),
            Err(c) => e == TesseraSinkError::Channel(c),
        },
        _ => false,
    }
}

/// The configuration is how a worker attaches to the pool.
pub open spec fn attaches_to_pool(c: PoolConfig, p: WorkerParamsView) -> bool {
    &&& c.description@ == p.pool_description
    &&& c.slot_count == p.pool_slot_count
    &&& c.slot_size_bytes == p.pool_slot_size_bytes
    &&& !c.is_owner
    &&& c.ttl_micros == 0
    &&& !c.force_recreate
}

/// The configuration is how a worker creates its control channel.
pub open spec fn creates_control(c: ChannelConfig, p: WorkerParamsView) -> bool {
    &&& c.description@ == p.control_description
    &&& c.slot_count == p.control_slot_count
    &&& c.slot_size_bytes == p.control_slot_size_bytes
    &&& c.role == ChannelRole::Receiver
    &&& c.force_recreate == p.force_recreate
}

/// The configuration is how a worker attaches to the ack channel.
pub open spec fn attaches_to_ack(c: ChannelConfig, p: WorkerParamsView) -> bool {
    &&& c.description@ == p.ack_description
    &&& c.slot_count == p.ack_slot_count
    &&& c.slot_size_bytes == p.ack_slot_size_bytes
    &&& c.role == ChannelRole::Sender
    &&& !c.force_recreate
}

impl RunView {
    /// The step is the one that the phase asks for.
    pub open spec fn asks_for(self, step: RunStep) -> bool {
        match self.phase {
            RunPhase::AttachingPool => step matches RunStep::AttachPool(c) && attaches_to_pool(
                c,
                self.params,
            ),
            RunPhase::CreatingControl => step matches RunStep::CreateControl(c) && creates_control(
                c,
                self.params,
            ),
            RunPhase::AttachingAck => step matches RunStep::AttachAck(c) && attaches_to_ack(
                c,
                self.params,
            ),
            RunPhase::Announcing => step matches RunStep::SendReady(m) && m@ == (
            AckView::WorkerReady { worker_id: self.params.worker_id }),
            RunPhase::Serving => step is Receive,
            RunPhase::Dispatching => step is Dispatch,
            RunPhase::CleaningUp => step is CleanUp,
            RunPhase::Ended => step is End,
            RunPhase::Failed => step is Fail,
        }
    }
}

/// Begins the life of a worker. It goes on as [`WorkerRun::observe`] says.
pub fn run_worker(params: WorkerParams) -> (r: (WorkerRun, RunStep))
    ensures
        r.0@ == (RunView { params: params@, phase: RunPhase::AttachingPool }),
        r.0@.asks_for(r.1),
{
    let step = RunStep::AttachPool(params.pool_config());
    (WorkerRun { params, phase: RunPhase::AttachingPool }, step)
}

impl WorkerRun {
    /// Where the worker is in its life.
    pub fn phase(&self) -> (r: RunPhase)
        ensures
            r == self@.phase,
    {
        self.phase
    }

    fn enter(&mut self, phase: RunPhase)
        ensures
            final(self)@ == (RunView { phase, ..old(self)@ }),
    {
        self.phase = phase;
    }

    fn fail(&mut self, e: TesseraSinkError) -> (step: RunStep)
        ensures
            final(self)@ == (RunView { phase: RunPhase::Failed, ..old(self)@ }),
            step == RunStep::Fail(e),
    {
        self.phase = RunPhase::Failed;
        RunStep::Fail(e)
    }

    /// Takes in what came of a step and says what to do next.
    pub fn observe(&mut self, event: RunEvent) -> (step: RunStep)
        requires
            expects(old(self)@.phase, event),
        ensures
            final(self)@ == (RunView {
                phase: phase_after(old(self)@.phase, event),
                ..old(self)@
            }),
            final(self)@.asks_for(step),
            step matches RunStep::Dispatch(m) ==> (event matches RunEvent::Received {
                message: Ok(b),
                parent_is_gone,
            } && messages::control_decoded(b@) == Ok::<ControlView, Seq<char>>(m@)),
            step matches RunStep::Fail(e) ==> fails_with(event, e),
    {
        match event {
            RunEvent::PoolAttached => {
                self.enter(RunPhase::CreatingControl);
                RunStep::CreateControl(self.params.control_config())
            },
            RunEvent::PoolFailed(e) => self.fail(TesseraSinkError::Pool(e)),
            RunEvent::ControlCreated => {
                self.enter(RunPhase::AttachingAck);
                RunStep::AttachAck(self.params.ack_config())
            },
            RunEvent::AckAttached => {
                self.enter(RunPhase::Announcing);
                RunStep::SendReady(self.params.ready_message())
            },
            RunEvent::ChannelFailed(e) => self.fail(TesseraSinkError::Channel(e)),
            RunEvent::Sent => {
                self.enter(RunPhase::Serving);
                RunStep::Receive
            },
            RunEvent::SendFailed(e) => {
                let e = ack_send_failure(e);
                self.fail(e)
            },
            RunEvent::Received { message, parent_is_gone } => {
                match judge_control(message, parent_is_gone) {
                    Ok(LoopStep::Dispatch(m)) => {
                        self.enter(RunPhase::Dispatching);
                        RunStep::Dispatch(m)
                    },
                    Ok(LoopStep::Wait) => {
                        self.enter(RunPhase::Serving);
                        RunStep::Receive
                    },
                    Ok(LoopStep::Exit) => {
                        self.enter(RunPhase::CleaningUp);
                        RunStep::CleanUp
                    },
                    Err(e) => self.fail(e),
                }
            },
            RunEvent::CleanedUp => {
                self.enter(RunPhase::Ended);
                RunStep::End
            },
        }
    }
}

/// The phase of a worker after the first `k` of its events.
#[verifier::opaque]
pub open spec fn phase_at(events: Seq<RunEvent>, k: nat) -> RunPhase
    decreases k,
{
    if k == 0 {
        RunPhase::AttachingPool
    } else {
        phase_after(phase_at(events, (k - 1) as nat), events[k - 1])
    }
}

/// Each event is one that can follow on the step before it.
pub open spec fn is_life(events: Seq<RunEvent>) -> bool {
    forall|k: int|
        0 <= k < events.len() ==> expects(phase_at(events, k as nat), #[trigger] events[k])
}

/// What the control channel gave is the word to end: a shutdown, or no
/// message while the owner is gone.
pub open spec fn told_to_end(event: RunEvent) -> bool {
    event matches RunEvent::Received { message, parent_is_gone } && (match message {
        Ok(b) => messages::control_decoded(b@) == Ok::<ControlView, Seq<char>>(
            ControlView::Shutdown,
        ),
        Err(e) => e is Timeout && parent_is_gone,
    })
}

/// What the control channel gave is no message: it cannot be decoded, or
/// the channel failed.
pub open spec fn gave_no_message(event: RunEvent) -> bool {
    event matches RunEvent::Received { message, parent_is_gone } && (match message {
        Ok(b) => messages::control_decoded(b@) is Err,
        Err(e) => !(e is Timeout),
    })
}

/// From which phase, and by which event, a phase is come to.
proof fn lemma_step(events: Seq<RunEvent>, k: nat)
    requires
        is_life(events),
        0 < k <= events.len(),
    ensures
        ({
            let p = phase_at(events, (k - 1) as nat);
            let q = phase_at(events, k);
            let e = events[k - 1];
            &&& expects(p, e)
            &&& !(q is AttachingPool)
            &&& q is CreatingControl ==> p is AttachingPool && e is PoolAttached
            &&& q is AttachingAck ==> p is CreatingControl && e is ControlCreated
            &&& q is Announcing ==> p is AttachingAck && e is AckAttached
            &&& q is Serving ==> p is Serving || p is Dispatching || (p is Announcing && e is Sent)
            &&& q is Dispatching ==> p is Serving
            &&& q is CleaningUp ==> p is Serving && told_to_end(e)
            &&& q is Ended ==> p is CleaningUp && e is CleanedUp
            &&& q is Failed && p is Serving ==> gave_no_message(e)
            &&& q is Failed && !(p is Serving) ==> e is PoolFailed || e is ChannelFailed
                || e is SendFailed
        }),
{
    reveal(phase_at);
    let p = phase_at(events, (k - 1) as nat);
    let e = events[k - 1];
    assert(expects(p, e));
    assert(phase_at(events, k) == phase_after(p, e));
}

/// The phases in which a worker has yet to say that it is ready come first,
/// one after another.
proof fn lemma_setup(events: Seq<RunEvent>, k: nat)
    requires
        is_life(events),
        k <= events.len(),
    ensures
        phase_at(events, k) is AttachingPool <==> k == 0,
        phase_at(events, k) is CreatingControl ==> k == 1 && events[0] is PoolAttached,
        phase_at(events, k) is AttachingAck ==> k == 2 && phase_at(events, 1) is CreatingControl
            && events[1] is ControlCreated,
        phase_at(events, k) is Announcing ==> k == 3 && phase_at(events, 1) is CreatingControl
            && events[1] is ControlCreated && events[2] is AckAttached,
        phase_at(events, k) is Serving || phase_at(events, k) is Dispatching || phase_at(
            events,
            k,
        ) is CleaningUp || phase_at(events, k) is Ended ==> k >= 4 && phase_at(
            events,
            3,
        ) is Announcing && events[3] is Sent,
    decreases k,
{
    if k > 0 {
        lemma_setup(events, (k - 1) as nat);
        lemma_step(events, k);
    } else {
        reveal(phase_at);
    }
}

/// A worker says that it is ready only after it has created its control
/// channel, and says so once.
pub proof fn law_ready_follows_the_control_channel(events: Seq<RunEvent>, k: nat, other: nat)
    requires
        is_life(events),
        k <= events.len(),
        other <= events.len(),
        phase_at(events, k) is Announcing,
    ensures
        k == 3,
        phase_at(events, 1) is CreatingControl,
        events[1] is ControlCreated,
        events[2] is AckAttached,
        phase_at(events, other) is Announcing ==> other == k,
{
    lemma_setup(events, k);
    lemma_setup(events, other);
}

/// A worker takes no message before it has said that it is ready.
pub proof fn law_no_message_before_the_ready_word(events: Seq<RunEvent>, k: nat)
    requires
        is_life(events),
        k <= events.len(),
        phase_at(events, k) is Serving || phase_at(events, k) is Dispatching,
    ensures
        k >= 4,
        phase_at(events, 3) is Announcing,
        events[3] is Sent,
{
    lemma_setup(events, k);
}

/// A worker that ends as it should has removed its temporary files right
/// before, because it was told to end or no message came and its owner was
/// gone; and that is the end.
pub proof fn law_files_are_removed_before_the_end(events: Seq<RunEvent>, k: nat)
    requires
        is_life(events),
        k <= events.len(),
        phase_at(events, k) is Ended,
    ensures
        k >= 2,
        k == events.len(),
        phase_at(events, (k - 1) as nat) is CleaningUp,
        events[k - 1] is CleanedUp,
        phase_at(events, (k - 2) as nat) is Serving,
        told_to_end(events[k - 2]),
{
    lemma_setup(events, k);
    lemma_step(events, k);
    lemma_step(events, (k - 1) as nat);
    if k < events.len() {
        lemma_step(events, k + 1);
    }
}

/// Nothing that a job runs into ends a worker: after the ready word it fails
/// only if an answer cannot be sent, or the control channel fails or gives
/// what is no message.
pub proof fn law_a_job_does_not_end_the_worker(events: Seq<RunEvent>, k: nat)
    requires
        is_life(events),
        4 < k <= events.len(),
        phase_at(events, k) is Failed,
    ensures
        k == events.len(),
        (phase_at(events, (k - 1) as nat) is Dispatching && events[k - 1] is SendFailed)
            || gave_no_message(events[k - 1]),
{
    let j = (k - 1) as nat;
    lemma_setup(events, j);
    lemma_step(events, k);
    if k < events.len() {
        lemma_step(events, k + 1);
    }
}

} // verus!
