//! Starting a sink: the configurations of its parts, and the steps by which
//! its workers are brought up.
//!
//! All workers are spawned; then every worker must say that it is ready;
//! only then are the control channels attached to. A worker says so once it
//! has created its control channel, so that the owner never attaches to one
//! that an earlier worker left behind. On any failure every worker spawned
//! so far is ended.
use vstd::prelude::*;

use crate::channel::{ChannelConfig, ChannelRole, TesseraChannelError};
use crate::pool::PoolConfig;
use crate::sink::config::SinkConfig;
use crate::sink::error;
use crate::sink::error::TesseraSinkError;
use crate::sink::messages;
use crate::sink::messages::{AckMessage, AckView};
use crate::sink::names;
use crate::sink::worker::{WorkerParams, WorkerParamsView};
use crate::text;

verus! {

/// How long the workers may take to get ready, in microseconds.
pub const WORKER_READY_TIMEOUT_MICROS: u64 = 10_000_000;

/// How long attaching to a control channel is tried, in microseconds.
pub const CONTROL_ATTACH_TIMEOUT_MICROS: u64 = 10_000_000;

impl SinkConfig {
    /// How the owner creates the pool.
    pub fn pool_config(&self) -> (c: PoolConfig)
        ensures
            c.description@ == names::pool_text(self.description@),
            c.slot_count == self.pool_slot_count,
            c.slot_size_bytes == self.pool_slot_size_bytes,
            c.is_owner,
            c.ttl_micros == self.ttl_micros,
            c.force_recreate == self.force_recreate,
    {
        PoolConfig {
            description: names::pool(self.description.as_str()),
            slot_count: self.pool_slot_count,
            slot_size_bytes: self.pool_slot_size_bytes,
            is_owner: true,
            ttl_micros: self.ttl_micros,
            force_recreate: self.force_recreate,
        }
    }

    /// How the owner creates the ack channel, which it reads.
    pub fn ack_config(&self) -> (c: ChannelConfig)
        ensures
            c.description@ == names::ack_text(self.description@),
            c.slot_count == self.ack_slot_count,
            c.slot_size_bytes == self.ack_slot_size_bytes,
            c.role == ChannelRole::Receiver,
            c.force_recreate == self.force_recreate,
    {
        ChannelConfig {
            description: names::ack(self.description.as_str()),
            slot_count: self.ack_slot_count,
            slot_size_bytes: self.ack_slot_size_bytes,
            role: ChannelRole::Receiver,
            force_recreate: self.force_recreate,
        }
    }

    /// How the owner attaches to the control channel of a worker, which the
    /// worker reads.
    pub fn control_config(&self, worker_id: u32) -> (c: ChannelConfig)
        ensures
            c.description@ == names::control_text(self.description@, worker_id),
            c.slot_count == self.control_slot_count,
            c.slot_size_bytes == self.control_slot_size_bytes,
            c.role == ChannelRole::Sender,
            !c.force_recreate,
    {
        ChannelConfig {
            description: names::control(self.description.as_str(), worker_id),
            slot_count: self.control_slot_count,
            slot_size_bytes: self.control_slot_size_bytes,
            role: ChannelRole::Sender,
            force_recreate: false,
        }
    }

    /// The parameters of a worker.
    pub fn worker_params(&self, worker_id: u32) -> (p: WorkerParams)
        ensures
            p@ == (WorkerParamsView {
                pool_description: names::pool_text(self.description@),
                control_description: names::control_text(self.description@, worker_id),
                ack_description: names::ack_text(self.description@),
                pool_slot_count: self.pool_slot_count,
                pool_slot_size_bytes: self.pool_slot_size_bytes,
                control_slot_count: self.control_slot_count,
                control_slot_size_bytes: self.control_slot_size_bytes,
                ack_slot_count: self.ack_slot_count,
                ack_slot_size_bytes: self.ack_slot_size_bytes,
                worker_id,
                force_recreate: self.force_recreate,
            }),
    {
        WorkerParams {
            pool_description: names::pool(self.description.as_str()),
            control_description: names::control(self.description.as_str(), worker_id),
            ack_description: names::ack(self.description.as_str()),
            pool_slot_count: self.pool_slot_count,
            pool_slot_size_bytes: self.pool_slot_size_bytes,
            control_slot_count: self.control_slot_count,
            control_slot_size_bytes: self.control_slot_size_bytes,
            ack_slot_count: self.ack_slot_count,
            ack_slot_size_bytes: self.ack_slot_size_bytes,
            worker_id,
            force_recreate: self.force_recreate,
        }
    }
}

/// How far the workers are.
#[derive(Clone, Copy, Debug, PartialEq, Eq)]
pub enum Phase {
    /// The workers from here on are to be spawned.
    Spawning(u32),
    /// All were spawned; so many have not said that they are ready.
    Waiting(u32),
    /// All are ready; the control channels from here on are to be attached
    /// to.
    Attaching(u32),
    /// All is done.
    Started,
    /// It failed.
    Failed,
}

/// The workers while they are brought up.
#[derive(Debug)]
pub struct Startup {
    ready: Vec<bool>,
    phase: Phase,
}

/// The workers while they are brought up.
#[verifier::ext_equal]
pub struct StartupView {
    /// Which have said that they are ready.
    pub ready: Seq<bool>,
    /// How far they are.
    pub phase: Phase,
}

impl View for Startup {
    type V = StartupView;

    closed spec fn view(&self) -> StartupView {
        StartupView { ready: self.ready@, phase: self.phase }
    }
}

/// What to do next.
#[derive(Debug)]
pub enum StartStep {
    /// Spawn this worker.
    Spawn(u32),
    /// Take a message from the ack channel, waiting for a short time.
    AwaitReady,
    /// Attach to the control channel of this worker.
    Attach(u32),
    /// Done.
    Done,
    /// End every worker spawned so far and fail.
    KillAll(TesseraSinkError),
}

/// What happened.
#[derive(Debug)]
pub enum StartEvent {
    /// The worker was spawned.
    Spawned,
    /// It could not be spawned.
    SpawnFailed(String),
    /// A message came.
    Acked(Vec<u8>),
    /// No message came in time.
    NoAck {
        /// The first worker that has ended, with its status.
        exited: Option<(u32, String)>,
        /// The time for all workers to get ready is over.
        deadline_reached: bool,
    },
    /// The ack channel failed.
    AckFailed(TesseraChannelError),
    /// The control channel is attached to.
    Attached,
    /// It could not be attached to.
    AttachFailed {
        /// Status of the worker if it has ended.
        exited: Option<String>,
        /// The time for attaching is over.
        deadline_reached: bool,
    },
}

/// How many have not said that they are ready.
pub open spec fn missing(ready: Seq<bool>) -> nat
    decreases ready.len(),
{
    if ready.len() == 0 {
        0
    } else {
        missing(ready.drop_last()) + if ready.last() {
            0nat
        } else {
            1nat
        }
    }
}

/// Words for a worker that ended while starting.
pub open spec fn early_exit_words(status: Seq<char>) -> Seq<char> {
    "worker exited during startup: "@ + status
}

/// Words for workers that did not get ready in time.
pub open spec fn not_ready_words(count: nat, remaining: nat) -> Seq<char> {
    "waiting for worker readiness ("@ + text::dec((count - remaining) as nat) + " of "@ + text::dec(
        count,
    ) + " ready)"@
}

impl StartupView {
    /// The count of those that are not ready is right, and each phase began
    /// when the one before was over.
    pub open spec fn ok(self) -> bool {
        &&& 0 < self.ready.len() <= u32::MAX
        &&& match self.phase {
            Phase::Spawning(next) => next < self.ready.len() && missing(self.ready)
                == self.ready.len(),
            Phase::Waiting(remaining) => remaining == missing(self.ready) && remaining > 0,
            Phase::Attaching(next) => next < self.ready.len() && missing(self.ready) == 0,
            Phase::Started => missing(self.ready) == 0,
            Phase::Failed => true,
        }
    }

    /// The step that this phase asks for.
    pub open spec fn step(self) -> Option<StartStep> {
        match self.phase {
            Phase::Spawning(next) => Some(StartStep::Spawn(next)),
            Phase::Waiting(remaining) => Some(StartStep::AwaitReady),
            Phase::Attaching(next) => Some(StartStep::Attach(next)),
            Phase::Started => Some(StartStep::Done),
            Phase::Failed => None,
        }
    }

    /// The event is one that can follow on the step of this phase.
    pub open spec fn expects(self, event: StartEvent) -> bool {
        match self.phase {
            Phase::Spawning(next) => event is Spawned || event is SpawnFailed,
            Phase::Waiting(remaining) => event is Acked || event is NoAck || event is AckFailed,
            Phase::Attaching(next) => event is Attached || event is AttachFailed,
            _ => false,
        }
    }

    /// The workers after one has said that it is ready. One that there is
    /// not, or that has said so before, changes nothing.
    pub open spec fn with_ready(self, worker_id: u32, remaining: u32) -> StartupView {
        if worker_id < self.ready.len() && !self.ready[worker_id as int] {
            StartupView {
                ready: self.ready.update(worker_id as int, true),
                phase: if remaining == 1 {
                    Phase::Attaching(0)
                } else {
                    Phase::Waiting((remaining - 1) as u32)
                },
            }
        } else {
            self
        }
    }

    /// The workers after an event, if it is no failure.
    pub open spec fn after(self, event: StartEvent) -> Option<StartupView> {
        let count = self.ready.len();
        match (self.phase, event) {
            (Phase::Spawning(next), StartEvent::Spawned) => Some(
                StartupView {
                    phase: if next + 1 == count {
                        Phase::Waiting(count as u32)
                    } else {
                        Phase::Spawning((next + 1) as u32)
                    },
                    ..self
                },
            ),
            (Phase::Waiting(remaining), StartEvent::Acked(b)) => match messages::ack_decoded(b@) {
                Ok(AckView::WorkerReady { worker_id }) => Some(
                    self.with_ready(worker_id, remaining),
                ),
                Ok(_) => Some(self),
                Err(words) => None,
            },
            (Phase::Waiting(remaining), StartEvent::NoAck { exited: None, deadline_reached: false })
            => Some(self),
            (Phase::Attaching(next), StartEvent::Attached) => Some(
                StartupView {
                    phase: if next + 1 == count {
                        Phase::Started
                    } else {
                        Phase::Attaching((next + 1) as u32)
                    },
                    ..self
                },
            ),
            (
                Phase::Attaching(next),
                StartEvent::AttachFailed { exited: None, deadline_reached: false },
            ) => Some(self),
            _ => None,
        }
    }

    /// `e` is how an event is reported that is a failure.
    pub open spec fn fails_with(self, event: StartEvent, e: TesseraSinkError) -> bool {
        match (self.phase, event) {
            (Phase::Spawning(next), StartEvent::SpawnFailed(why)) => error::is_spawn(e, next, why@),
            (Phase::Waiting(remaining), StartEvent::Acked(b)) => messages::ack_decoded(
                b@,
            ) matches Err(words) && error::is_protocol(e, words),
            (Phase::Waiting(remaining), StartEvent::NoAck { exited, deadline_reached }) =>
                match exited {
                Some((w, status)) => error::is_spawn(e, w, early_exit_words(status@)),
                None => error::is_timeout(
                    e,
                    WORKER_READY_TIMEOUT_MICROS,
                    not_ready_words(self.ready.len(), remaining as nat),
                ),
            },
            (Phase::Waiting(remaining), StartEvent::AckFailed(c)) => e == TesseraSinkError::Channel(
                c,
            ),
            (Phase::Attaching(next), StartEvent::AttachFailed { exited, deadline_reached }) =>
                match exited {
                Some(status) => error::is_spawn(e, next, early_exit_words(status@)),
                None => error::is_timeout(
                    e,
                    CONTROL_ATTACH_TIMEOUT_MICROS,
                    "attaching control channel for worker "@ + text::dec(next as nat),
                ),
            },
            _ => false,
        }
    }
}

/// When one more is ready, one fewer is missing.
proof fn lemma_missing_update(ready: Seq<bool>, i: int)
    requires
        0 <= i < ready.len(),
        !ready[i],
    ensures
        missing(ready) >= 1,
        missing(ready.update(i, true)) == missing(ready) - 1,
    decreases ready.len(),
{
    let u = ready.update(i, true);
    if i == ready.len() - 1 {
        assert(u.drop_last() =~= ready.drop_last());
    } else {
        lemma_missing_update(ready.drop_last(), i);
        assert(u.drop_last() =~= ready.drop_last().update(i, true));
    }
}

/// Of those that are all not ready, all are missing.
proof fn lemma_missing_all(ready: Seq<bool>)
    requires
        forall|i: int| 0 <= i < ready.len() ==> !ready[i],
    ensures
        missing(ready) == ready.len(),
    decreases ready.len(),
{
    if ready.len() > 0 {
        lemma_missing_all(ready.drop_last());
    }
}

/// If none is missing, all are ready.
proof fn lemma_missing_none(ready: Seq<bool>, i: int)
    requires
        missing(ready) == 0,
        0 <= i < ready.len(),
    ensures
        ready[i],
    decreases ready.len(),
{
    if i < ready.len() - 1 {
        lemma_missing_none(ready.drop_last(), i);
    }
}

fn timed_out(timeout_micros: u64, context: String) -> (e: TesseraSinkError)
    ensures
        error::is_timeout(e, timeout_micros, context@),
{
    TesseraSinkError::Timeout { timeout_micros, context }
}

fn ended_early(worker_id: u32, status: &str) -> (e: TesseraSinkError)
    ensures
        error::is_spawn(e, worker_id, early_exit_words(status@)),
{
    let mut message = String::from_str("worker exited during startup: ");
    message.append(status);
    TesseraSinkError::WorkerSpawn { worker_id, message }
}

impl Startup {
    /// Begins to bring up the workers of a valid configuration.
    pub fn new(config: &SinkConfig) -> (r: (Startup, StartStep))
        requires
            config.worker_count > 0,
        ensures
            r.0@.ok(),
            r.0@ == (StartupView {
                ready: Seq::new(config.worker_count as nat, |i: int| false),
                phase: Phase::Spawning(0),
            }),
            r.1 == StartStep::Spawn(0),
    {
        let mut ready: Vec<bool> = Vec::new();
        let mut i: u32 = 0;
        while i < config.worker_count
            invariant
                i <= config.worker_count,
                ready@ == Seq::new(i as nat, |k: int| false),
            decreases config.worker_count - i,
        {
            ready.push(false);
            i = i + 1;
            assert(ready@ =~= Seq::new(i as nat, |k: int| false));
        }
        proof {
            lemma_missing_all(ready@);
        }
        (Startup { ready, phase: Phase::Spawning(0) }, StartStep::Spawn(0))
    }

    /// How far the workers are.
    pub fn phase(&self) -> (r: Phase)
        ensures
            r == self@.phase,
    {
        self.phase
    }

    /// The step that the phase asks for.
    fn step(&self) -> (r: StartStep)
        requires
            !(self@.phase is Failed),
        ensures
            self@.step() == Some(r),
    {
        match self.phase {
            Phase::Spawning(next) => StartStep::Spawn(next),
            Phase::Waiting(_) => StartStep::AwaitReady,
            Phase::Attaching(next) => StartStep::Attach(next),
            _ => StartStep::Done,
        }
    }

    fn fail(&mut self, e: TesseraSinkError) -> (r: StartStep)
        ensures
            final(self)@ == (StartupView { phase: Phase::Failed, ..old(self)@ }),
            r == StartStep::KillAll(e),
    {
        self.phase = Phase::Failed;
        StartStep::KillAll(e)
    }

    /// Takes in what happened and says what to do next.
    pub fn observe(&mut self, event: StartEvent) -> (r: StartStep)
        requires
            old(self)@.ok(),
            old(self)@.expects(event),
        ensures
            final(self)@.ok(),
            match old(self)@.after(event) {
                Some(v) => final(self)@ == v && v.step() == Some(r),
                None => {
                    &&& final(self)@ == (StartupView { phase: Phase::Failed, ..old(self)@ })
                    &&& r matches StartStep::KillAll(e) && old(self)@.fails_with(event, e)
                },
            },
    {
        let ghost before = self@;
        let count: u32 = self.ready.len() as u32;
        match (self.phase, event) {
            (Phase::Spawning(next), StartEvent::Spawned) => {
                self.phase = if next + 1 == count {
                    Phase::Waiting(count)
                } else {
                    Phase::Spawning(next + 1)
                };
                self.step()
            },
            (Phase::Spawning(next), StartEvent::SpawnFailed(why)) => {
                self.fail(TesseraSinkError::WorkerSpawn { worker_id: next, message: why })
            },
            (Phase::Waiting(remaining), StartEvent::Acked(b)) => {
                match AckMessage::decode(b.as_slice()) {
                    Ok(AckMessage::WorkerReady { worker_id }) => {
                        if worker_id < count && !self.ready[worker_id as usize] {
                            proof {
                                lemma_missing_update(self.ready@, worker_id as int);
                            }
                            self.ready.set(worker_id as usize, true);
                            self.phase = if remaining == 1 {
                                Phase::Attaching(0)
                            } else {
                                Phase::Waiting(remaining - 1)
                            };
                        }
                        self.step()
                    },
                    Ok(_) => self.step(),
                    Err(e) => self.fail(e),
                }
            },
            (Phase::Waiting(remaining), StartEvent::NoAck { exited, deadline_reached }) => {
                match exited {
                    Some((w, status)) => {
                        let e = ended_early(w, status.as_str());
                        self.fail(e)
                    },
                    None => {
                        if deadline_reached {
                            proof {
                                lemma_missing_bound(self.ready@);
                            }
                            let mut context = String::from_str("waiting for worker readiness (");
                            text::push_dec(&mut context, (count - remaining) as u64);
                            context.append(" of ");
                            text::push_dec(&mut context, count as u64);
                            context.append(" ready)");
                            self.fail(timed_out(WORKER_READY_TIMEOUT_MICROS, context))
                        } else {
                            self.step()
                        }
                    },
                }
            },
            (Phase::Waiting(remaining), StartEvent::AckFailed(c)) => {
                self.fail(TesseraSinkError::Channel(c))
            },
            (Phase::Attaching(next), StartEvent::Attached) => {
                self.phase = if next + 1 == count {
                    Phase::Started
                } else {
                    Phase::Attaching(next + 1)
                };
                self.step()
            },
            (Phase::Attaching(next), StartEvent::AttachFailed { exited, deadline_reached }) => {
                match exited {
                    Some(status) => {
                        let e = ended_early(next, status.as_str());
                        self.fail(e)
                    },
                    None => {
                        if deadline_reached {
                            let mut context = String::from_str(
                                "attaching control channel for worker ",
                            );
                            text::push_dec(&mut context, next as u64);
                            self.fail(timed_out(CONTROL_ATTACH_TIMEOUT_MICROS, context))
                        } else {
                            self.step()
                        }
                    },
                }
            },
            _ => self.step(),
        }
    }
}

/// No more are missing than there are.
proof fn lemma_missing_bound(ready: Seq<bool>)
    ensures
        missing(ready) <= ready.len(),
    decreases ready.len(),
{
    if ready.len() > 0 {
        lemma_missing_bound(ready.drop_last());
    }
}

/// No control channel is attached to, and no sink is started, before every
/// worker has said that it is ready.
pub proof fn law_all_are_ready_before_any_is_attached(v: StartupView, i: int)
    requires
        v.ok(),
        v.phase is Attaching || v.phase is Started,
        0 <= i < v.ready.len(),
    ensures
        v.ready[i],
{
    lemma_missing_none(v.ready, i);
}

/// An event that a phase expects, if it is no failure, leads to a phase
/// that asks for a step.
pub proof fn law_every_event_is_answered(v: StartupView, event: StartEvent)
    requires
        v.ok(),
        v.expects(event),
    ensures
        v.after(event) matches Some(w) ==> w.ok() && w.step() is Some,
{
    if let (Phase::Waiting(remaining), StartEvent::Acked(b)) = (v.phase, event) {
        if let Ok(AckView::WorkerReady { worker_id }) = messages::ack_decoded(b@) {
            if worker_id < v.ready.len() && !v.ready[worker_id as int] {
                lemma_missing_update(v.ready, worker_id as int);
            }
        }
    }
    lemma_missing_bound(v.ready);
}

} // verus!
