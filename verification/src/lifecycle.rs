//! Decisions in the life of a shared segment: creating it, or giving its
//! name back. The operating-system calls are made by the caller, who
//! reports what came of them.
use vstd::prelude::*;

use crate::text;

verus! {

/// The error number of "no such file or directory".
pub const ENOENT: i32 = 2;

/// What came of an attempt to create a named segment.
#[derive(Debug)]
pub enum MapOutcome {
    /// A fresh mapping of the requested size.
    Mapped,
    /// The name is taken; with the system's words for it.
    Exists(String),
    /// Any other failure; with the system's words for it.
    Failed(String),
}

/// What to do after an attempt to create a named segment.
#[derive(Clone, Copy, Debug, PartialEq, Eq)]
pub enum CreateStep {
    /// Stamp the fresh mapping.
    Stamp,
    /// Remove the name, whoever holds it, and try once more.
    UnlinkAndRetry,
}

/// What to do to remove a segment's name.
#[derive(Clone, Copy, Debug, PartialEq, Eq)]
pub enum UnlinkStep {
    /// Nothing: the name was given back before and may be another's now.
    Done,
    /// Ask the system to remove the name, then report what came of it.
    Call,
}

/// Words for a failed first or second attempt.
pub open spec fn create_failure_text(retried: bool, error: Seq<char>) -> Seq<char> {
    if retried {
        "create after force_recreate unlink: "@ + error
    } else {
        "create: "@ + error
    }
}

/// Decides what follows an attempt to create a segment.
///
/// A name that is taken is never inspected: its holder may be about to
/// stamp it. It is refused with the words in `refusal`, unless the caller
/// asserts with `force_recreate` that there is no living holder; it is then
/// removed, once.
pub fn create_step(
    outcome: MapOutcome,
    retried: bool,
    force_recreate: bool,
    refusal: String,
) -> (r: Result<CreateStep, String>)
    ensures
        match outcome {
            MapOutcome::Mapped => r == Ok::<CreateStep, String>(CreateStep::Stamp),
            MapOutcome::Exists(e) => if !retried && force_recreate {
                r == Ok::<CreateStep, String>(CreateStep::UnlinkAndRetry)
            } else if !retried {
                r == Err::<CreateStep, String>(refusal)
            } else {
                r matches Err(m) && m@ == create_failure_text(retried, e@)
            },
            MapOutcome::Failed(e) => r matches Err(m) && m@ == create_failure_text(retried, e@),
        },
        follows(outcome, retried, force_recreate, refusal, r),
{
    match outcome {
        MapOutcome::Mapped => Ok(CreateStep::Stamp),
        MapOutcome::Exists(e) => {
            if !retried && force_recreate {
                Ok(CreateStep::UnlinkAndRetry)
            } else if !retried {
                Err(refusal)
            } else {
                Err(create_failure(retried, e.as_str()))
            }
        },
        MapOutcome::Failed(e) => Err(create_failure(retried, e.as_str())),
    }
}

fn create_failure(retried: bool, error: &str) -> (m: String)
    ensures
        m@ == create_failure_text(retried, error@),
{
    let mut m = String::from_str(if retried {
        "create after force_recreate unlink: "
    } else {
        "create: "
    });
    m.append(error);
    m
}

/// Whether a `shm_unlink` call left the name gone: it succeeded, or the
/// name was not there.
pub open spec fn name_is_gone(rc: i32, errno: Option<i32>) -> bool {
    rc == 0 || errno == Some(ENOENT)
}

/// What a handle does to remove its segment's name, by whether it created
/// the segment and whether it has given the name back; `None` where it may
/// not.
pub open spec fn unlink_asked(owner: bool, unlinked: bool) -> Option<UnlinkStep> {
    if unlinked {
        Some(UnlinkStep::Done)
    } else if owner {
        Some(UnlinkStep::Call)
    } else {
        None
    }
}

/// Whether the segment's name is removed when the handle goes.
pub open spec fn name_goes_with_handle(owner: bool, unlinked: bool) -> bool {
    owner && !unlinked
}

/// A name is given back once. After a call that left it gone, the handle
/// neither asks for another one nor removes the name when it goes, so that
/// a successor may take the name over at once.
pub proof fn law_a_name_is_given_back_once(owner: bool, rc: i32, errno: Option<i32>)
    requires
        unlink_asked(owner, false) == Some(UnlinkStep::Call),
    ensures
        unlink_asked(owner, name_is_gone(rc, errno)) == Some(
            if name_is_gone(rc, errno) {
                UnlinkStep::Done
            } else {
                UnlinkStep::Call
            },
        ),
        name_goes_with_handle(owner, name_is_gone(rc, errno)) == !name_is_gone(rc, errno),
{
}

/// A handle that did not create the segment never removes its name.
pub proof fn law_attachers_leave_the_name(unlinked: bool)
    ensures
        unlink_asked(false, unlinked) != Some(UnlinkStep::Call),
        !name_goes_with_handle(false, unlinked),
{
}

/// An optional error number as `{:?}` prints it.
pub open spec fn errno_text(errno: Option<i32>) -> Seq<char> {
    match errno {
        Some(n) => "Some("@ + text::dec_int(n as int) + ")"@,
        None => "None"@,
    }
}

/// Words for a failed `shm_unlink` call.
pub open spec fn unlink_failure_text(
    name: Seq<char>,
    error: Seq<char>,
    errno: Option<i32>,
) -> Seq<char> {
    "shm_unlink('"@ + name + "') failed: "@ + error + " (errno="@ + errno_text(errno)
        + "). Region state flags NOT updated; caller may retry unlink(), or drop the Region to let Shmem's drop-time unlink attempt cleanup."@
}

fn errno_string(errno: Option<i32>) -> (m: String)
    ensures
        m@ == errno_text(errno),
{
    match errno {
        Some(n) => {
            let mut m = String::from_str("Some(");
            text::push_dec_int(&mut m, n);
            m.append(")");
            m
        },
        None => String::from_str("None"),
    }
}

/// Judges a `shm_unlink` call: `Ok` where the name is gone.
pub fn judge_unlink(name: &str, rc: i32, errno: Option<i32>, error: &str) -> (r: Result<
    (),
    String,
>)
    ensures
        match r {
            Ok(_) => name_is_gone(rc, errno),
            Err(m) => !name_is_gone(rc, errno) && m@ == unlink_failure_text(name@, error@, errno),
        },
{
    let absent: bool = match errno {
        Some(n) => n == ENOENT,
        None => false,
    };
    if rc == 0 || absent {
        return Ok(());
    }
    let mut m = String::from_str("shm_unlink('");
    m.append(name);
    m.append("') failed: ");
    m.append(error);
    m.append(" (errno=");
    m.append(errno_string(errno).as_str());
    m.append(
        "). Region state flags NOT updated; caller may retry unlink(), or drop the Region to let Shmem's drop-time unlink attempt cleanup.",
    );
    Err(m)
}

/// Only the creator of a segment has its name removed, and only while it has
/// not given the name back; whoever has given it back has nothing to do. A
/// name is gone after a call that succeeded, or that found no such name.
pub proof fn law_who_removes_a_name(owner: bool, unlinked: bool, rc: i32, errno: Option<i32>)
    ensures
        unlink_asked(owner, unlinked) == Some(UnlinkStep::Call) <==> owner && !unlinked,
        unlink_asked(owner, unlinked) == Some(UnlinkStep::Done) <==> unlinked,
        unlink_asked(owner, unlinked) is None <==> !owner && !unlinked,
        name_goes_with_handle(owner, unlinked) <==> owner && !unlinked,
        name_is_gone(rc, errno) <==> rc == 0 || (errno matches Some(n) && n == 2),
{
}

/// The step, or the refusal, that follows an attempt to create a segment.
pub open spec fn follows(
    outcome: MapOutcome,
    retried: bool,
    force_recreate: bool,
    refusal: String,
    r: Result<CreateStep, String>,
) -> bool {
    match outcome {
        MapOutcome::Mapped => r == Ok::<CreateStep, String>(CreateStep::Stamp),
        MapOutcome::Exists(e) => if retried {
            r is Err
        } else if force_recreate {
            r == Ok::<CreateStep, String>(CreateStep::UnlinkAndRetry)
        } else {
            r == Err::<CreateStep, String>(refusal)
        },
        MapOutcome::Failed(e) => r is Err,
    }
}

/// A segment is stamped exactly if it was mapped anew, and a name that is
/// taken is removed exactly if the caller asserts that nobody holds it, and
/// once at most. Without that a taken name is refused, and its holder is
/// left alone.
pub proof fn law_no_segment_is_clobbered(
    outcome: MapOutcome,
    retried: bool,
    force_recreate: bool,
    refusal: String,
    r: Result<CreateStep, String>,
)
    requires
        follows(outcome, retried, force_recreate, refusal, r),
    ensures
        r == Ok::<CreateStep, String>(CreateStep::Stamp) <==> outcome is Mapped,
        r == Ok::<CreateStep, String>(CreateStep::UnlinkAndRetry) <==> outcome is Exists
            && force_recreate && !retried,
        outcome is Exists && !force_recreate && !retried ==> r == Err::<CreateStep, String>(
            refusal,
        ),
{
}

} // verus!
