//! Decisions of the process lifecycle: publishing a freshly spawned group,
//! probing liveness, how a transient job run ended, which history a detached
//! process's log tail may read, where a detached proxy's journal resumes,
//! and the system lines logged when children have been waited for.

use vstd::prelude::*;

use crate::api::JobRunStateDto;
use crate::store::TransientCleanupStage;
use crate::journal::{legacy_safe_name, legacy_safe_name_spec, legacy_sharers};
use crate::text::push_str;
use crate::signals::{
    handle_matches_spec, matches_handle_with, process_exists_with, exists_spec, ProcessIdentity,
    SignalError, SignalTarget, ZOMBIE_STATUS,
};

verus! {

/// How many times a new child's identity is read before giving up.
pub const SPAWN_IDENTITY_ATTEMPTS: usize = 20;

/// A usable identity of a freshly spawned child: it leads its own group
/// and is not a zombie.
pub open spec fn published_identity(pid: u32, observed: Result<ProcessIdentity, SignalError>) -> bool {
    observed matches Ok(id) && id.pgid == pid && id.status != ZOMBIE_STATUS
}

/// What one read of a new child's identity decides.
#[derive(Debug, Clone, PartialEq, Eq)]
pub enum IdentityAttempt {
    /// Publish the group with this id and creation token.
    Publish(u32, String),
    /// Pause, then make read number `n` (counted from 0).
    Retry(usize),
    /// All `SPAWN_IDENTITY_ATTEMPTS` reads showed no usable identity.
    GiveUp,
}

/// The decision after read number `attempt` (from 0) of a new child's
/// identity: publish a usable identity, else read again until
/// `SPAWN_IDENTITY_ATTEMPTS` reads were made.
pub fn identity_attempt(pid: u32, attempt: usize, observed: Result<ProcessIdentity, SignalError>) -> (r:
    IdentityAttempt)
    requires
        attempt < SPAWN_IDENTITY_ATTEMPTS,
    ensures
        published_identity(pid, observed) ==> (r matches IdentityAttempt::Publish(pgid, g) && pgid == pid
            && g@ == observed->Ok_0.generation@),
        !published_identity(pid, observed) ==> r == (if attempt + 1 < SPAWN_IDENTITY_ATTEMPTS {
            IdentityAttempt::Retry((attempt + 1) as usize)
        } else {
            IdentityAttempt::GiveUp
        }),
{
    if let Ok(identity) = observed {
        if identity.pgid == pid && identity.status != ZOMBIE_STATUS {
            return IdentityAttempt::Publish(identity.pgid, identity.generation);
        }
    }
    if attempt + 1 < SPAWN_IDENTITY_ATTEMPTS {
        IdentityAttempt::Retry(attempt + 1)
    } else {
        IdentityAttempt::GiveUp
    }
}

/// Reads a new child's identity until it shows the child leading its own
/// group (at most `SPAWN_IDENTITY_ATTEMPTS` reads, `pause` between them);
/// only then may a handle to the group be published.  It gives up only
/// after a read that showed no usable identity.
pub fn spawned_identity_with(
    pid: u32,
    snapshot: impl Fn(u32) -> Result<ProcessIdentity, SignalError>,
    pause: impl Fn(),
) -> (r: Option<(u32, String)>)
    requires
        call_requires(snapshot, (pid,)),
        call_requires(pause, ()),
        forall|o: Result<ProcessIdentity, SignalError>| call_ensures(snapshot, (pid,), o) ==> call_requires(
            snapshot,
            (pid,),
        ),
    ensures
        r matches Some((pgid, generation)) ==> pgid == pid && exists|
            observed: Result<ProcessIdentity, SignalError>,
        |
            #[trigger] call_ensures(snapshot, (pid,), observed) && published_identity(pid, observed)
                && observed->Ok_0.generation@ == generation@,
        r is None ==> exists|observed: Result<ProcessIdentity, SignalError>|
            #[trigger] call_ensures(snapshot, (pid,), observed) && !published_identity(pid, observed),
{
    let mut attempt: usize = 0;
    while attempt < SPAWN_IDENTITY_ATTEMPTS
        invariant
            call_requires(snapshot, (pid,)),
            call_requires(pause, ()),
            forall|o: Result<ProcessIdentity, SignalError>| call_ensures(snapshot, (pid,), o)
                ==> call_requires(snapshot, (pid,)),
            attempt > 0 ==> exists|o: Result<ProcessIdentity, SignalError>|
                #[trigger] call_ensures(snapshot, (pid,), o) && !published_identity(pid, o),
        decreases SPAWN_IDENTITY_ATTEMPTS - attempt,
    {
        let observed = snapshot(pid);
        let ghost observed_value = observed;
        proof {
            assert(call_ensures(snapshot, (pid,), observed_value));
        }
        match identity_attempt(pid, attempt, observed) {
            IdentityAttempt::Publish(pgid, generation) => {
                return Some((pgid, generation));
            },
            IdentityAttempt::Retry(next) => {
                pause();
                attempt = next;
            },
            IdentityAttempt::GiveUp => {
                pause();
                return None;
            },
        }
    }
    None
}

/// Whether a recorded process is alive.
#[derive(Debug, Clone, Copy, PartialEq, Eq, Structural)]
pub enum Aliveness {
    Alive,
    Dead,
}

/// Why liveness could not be established.
#[derive(Debug, Clone, PartialEq, Eq)]
pub enum ProbeFailure {
    /// Reading the process failed (for example, permission was denied).
    Signal(SignalError),
    /// A live process holds the PID but is not the recorded one.
    Unverified,
}

/// Probes a recorded process: gone (or a zombie) is dead; alive it must
/// still be the recorded group leader.
pub fn probe_alive_with(
    target: &SignalTarget,
    snapshot: impl Fn(u32) -> Result<ProcessIdentity, SignalError>,
) -> (r: Result<Aliveness, ProbeFailure>)
    requires
        call_requires(snapshot, (target.pid,)),
    ensures
        r == Ok::<Aliveness, ProbeFailure>(Aliveness::Dead) ==> target.pid == 0 || exists|
            observed: Result<ProcessIdentity, SignalError>,
        |
            #![trigger exists_spec(target.pid, observed)]
            call_ensures(snapshot, (target.pid,), observed) && exists_spec(target.pid, observed)
                == Ok::<bool, SignalError>(false),
        r == Ok::<Aliveness, ProbeFailure>(Aliveness::Alive) ==> exists|
            observed: Result<ProcessIdentity, SignalError>,
        |
            #![trigger handle_matches_spec(*target, observed)]
            call_ensures(snapshot, (target.pid,), observed) && handle_matches_spec(*target, observed),
        r matches Err(ProbeFailure::Signal(e)) ==> target.pid != 0 && exists|
            observed: Result<ProcessIdentity, SignalError>,
        |
            #![trigger exists_spec(target.pid, observed)]
            call_ensures(snapshot, (target.pid,), observed) && exists_spec(target.pid, observed)
                == Err::<bool, SignalError>(e),
{
    let exists = match process_exists_with(target.pid, &snapshot) {
        Ok(e) => e,
        Err(e) => {
            return Err(ProbeFailure::Signal(e));
        },
    };
    if !exists {
        return Ok(Aliveness::Dead);
    }
    let observed = snapshot(target.pid);
    if matches_handle_with(target, &observed) {
        Ok(Aliveness::Alive)
    } else {
        Err(ProbeFailure::Unverified)
    }
}

/// The state a transient run ends in: a timeout or cancellation (as the
/// cleanup was started for), else success exactly on exit code 0.
pub open spec fn terminal_state_spec(terminal_kind: Option<bool>, exit_code: Option<i32>) -> JobRunStateDto {
    match terminal_kind {
        Some(true) => JobRunStateDto::TimedOut,
        Some(false) => JobRunStateDto::Cancelled,
        None => if exit_code == Some(0i32) {
            JobRunStateDto::Succeeded
        } else {
            JobRunStateDto::Failed
        },
    }
}

/// The state a transient run ends in (`Some(true)`: timed out,
/// `Some(false)`: cancelled, `None`: exited by itself).
pub fn terminal_state(terminal_kind: Option<bool>, exit_code: Option<i32>) -> (r: JobRunStateDto)
    ensures
        r == terminal_state_spec(terminal_kind, exit_code),
{
    match terminal_kind {
        Some(true) => JobRunStateDto::TimedOut,
        Some(false) => JobRunStateDto::Cancelled,
        None => match exit_code {
            Some(0) => JobRunStateDto::Succeeded,
            _ => JobRunStateDto::Failed,
        },
    }
}

/// How a transient run's completion is reported.
#[derive(Debug, Clone, Copy, PartialEq, Eq, Structural)]
pub enum TransientEnd {
    Exited,
    TimedOut,
    Cancelled,
}

/// The completion reported for a run whose cleanup finished with the
/// intended terminal state `state`.
pub fn terminal_completion(state: JobRunStateDto) -> (r: TransientEnd)
    ensures
        r == (match state {
            JobRunStateDto::TimedOut => TransientEnd::TimedOut,
            JobRunStateDto::Cancelled => TransientEnd::Cancelled,
            _ => TransientEnd::Exited,
        }),
{
    match state {
        JobRunStateDto::TimedOut => TransientEnd::TimedOut,
        JobRunStateDto::Cancelled => TransientEnd::Cancelled,
        _ => TransientEnd::Exited,
    }
}

/// How a transient run's wait ended.
#[derive(Debug, Clone, Copy, PartialEq, Eq, Structural)]
pub enum CompletionCause {
    /// The child exited by itself, with this exit code if it has one.
    Exited { exit_code: Option<i32> },
    TimedOut,
    Cancelled,
}

/// What a transient run's completion reports.
#[derive(Debug, Clone, PartialEq, Eq)]
pub enum TransientDecision {
    /// The run's cleanup is not finished: why, the stage at which it
    /// resumes, the state the run is meant to end in, and its exit code.
    CleanupPending {
        cause: String,
        stage: TransientCleanupStage,
        intended: JobRunStateDto,
        exit_code: Option<i32>,
    },
    /// The run is over: how it ended and its exit code.
    Finished { end: TransientEnd, exit_code: Option<i32> },
}

/// The completion of a transient run: after a timeout or cancellation the
/// group was terminated (`terminated`: the child's exit code, or why the
/// termination failed); `pumps` is the first failure of its output pumps.
/// A failed termination leaves the cleanup pending at the group
/// termination, meant to end timed out or cancelled; a failed pump leaves it
/// pending at sealing the log, meant to end in `terminal_state`; otherwise
/// the run ended timed out, cancelled or by itself.
pub open spec fn transient_decision_spec(
    cause: CompletionCause,
    terminated: Option<Result<Option<i32>, String>>,
    pumps: Result<(), String>,
) -> TransientDecision {
    let kind: Option<bool> = match cause {
        CompletionCause::Exited { .. } => None,
        CompletionCause::TimedOut => Some(true),
        CompletionCause::Cancelled => Some(false),
    };
    match (cause, terminated) {
        (CompletionCause::TimedOut, Some(Err(c))) => TransientDecision::CleanupPending {
            cause: c,
            stage: TransientCleanupStage::TerminateGroup,
            intended: JobRunStateDto::TimedOut,
            exit_code: None,
        },
        (CompletionCause::Cancelled, Some(Err(c))) => TransientDecision::CleanupPending {
            cause: c,
            stage: TransientCleanupStage::TerminateGroup,
            intended: JobRunStateDto::Cancelled,
            exit_code: None,
        },
        _ => {
            let code: Option<i32> = match cause {
                CompletionCause::Exited { exit_code } => exit_code,
                _ => match terminated {
                    Some(Ok(c)) => c,
                    _ => None,
                },
            };
            match pumps {
                Err(m) => TransientDecision::CleanupPending {
                    cause: m,
                    stage: TransientCleanupStage::SealLog,
                    intended: terminal_state_spec(kind, code),
                    exit_code: code,
                },
                Ok(()) => TransientDecision::Finished {
                    end: match cause {
                        CompletionCause::Exited { .. } => TransientEnd::Exited,
                        CompletionCause::TimedOut => TransientEnd::TimedOut,
                        CompletionCause::Cancelled => TransientEnd::Cancelled,
                    },
                    exit_code: code,
                },
            }
        },
    }
}

/// The completion reported when the supervisor no longer owns a transient
/// run's child: its group must still be terminated, and the run is meant
/// to end cancelled, with no exit code.
pub fn unowned_transient() -> (r: TransientDecision)
    ensures
        r matches TransientDecision::CleanupPending { cause, stage, intended, exit_code } && cause@
            == "transient child ownership is unavailable"@ && stage == TransientCleanupStage::TerminateGroup
            && intended == JobRunStateDto::Cancelled && exit_code is None,
{
    TransientDecision::CleanupPending {
        cause: "transient child ownership is unavailable".to_string(),
        stage: TransientCleanupStage::TerminateGroup,
        intended: JobRunStateDto::Cancelled,
        exit_code: None,
    }
}

/// The completion of a transient run (see `transient_decision_spec`).
pub fn transient_decision(
    cause: CompletionCause,
    terminated: Option<Result<Option<i32>, String>>,
    pumps: Result<(), String>,
) -> (r: TransientDecision)
    requires
        !(cause is Exited) ==> terminated is Some,
    ensures
        r == transient_decision_spec(cause, terminated, pumps),
{
    let kind: Option<bool> = match cause {
        CompletionCause::Exited { .. } => None,
        CompletionCause::TimedOut => Some(true),
        CompletionCause::Cancelled => Some(false),
    };
    let code: Option<i32> = match cause {
        CompletionCause::Exited { exit_code } => exit_code,
        _ => match terminated {
            Some(Ok(c)) => c,
            Some(Err(c)) => {
                let intended = match cause {
                    CompletionCause::TimedOut => JobRunStateDto::TimedOut,
                    _ => JobRunStateDto::Cancelled,
                };
                return TransientDecision::CleanupPending {
                    cause: c,
                    stage: TransientCleanupStage::TerminateGroup,
                    intended,
                    exit_code: None,
                };
            },
            None => None,
        },
    };
    match pumps {
        Err(m) => TransientDecision::CleanupPending {
            cause: m,
            stage: TransientCleanupStage::SealLog,
            intended: terminal_state(kind, code),
            exit_code: code,
        },
        Ok(()) => TransientDecision::Finished {
            end: match cause {
                CompletionCause::Exited { .. } => TransientEnd::Exited,
                CompletionCause::TimedOut => TransientEnd::TimedOut,
                CompletionCause::Cancelled => TransientEnd::Cancelled,
            },
            exit_code: code,
        },
    }
}

/// Completion and terminal state agree: a run that ended by itself reports
/// `Exited` whatever its exit code, and a timeout or cancellation reports
/// itself.
pub proof fn lemma_terminal_completion_matches_kind(terminal_kind: Option<bool>, exit_code: Option<i32>)
    ensures
        match terminal_kind {
            Some(true) => terminal_state_spec(terminal_kind, exit_code) == JobRunStateDto::TimedOut,
            Some(false) => terminal_state_spec(terminal_kind, exit_code) == JobRunStateDto::Cancelled,
            None => terminal_state_spec(terminal_kind, exit_code) == JobRunStateDto::Succeeded
                || terminal_state_spec(terminal_kind, exit_code) == JobRunStateDto::Failed,
        },
{
}

/// Whether a detached process without a journal may show its legacy raw
/// log files: only without a time or cursor filter, and only when its
/// legacy file-name spelling belongs to exactly one known process.
pub open spec fn legacy_tail_allowed_spec(
    has_since: bool,
    has_cursor: bool,
    name: Seq<char>,
    known: Seq<Seq<char>>,
) -> bool {
    !has_since && !has_cursor && legacy_sharers(known, legacy_safe_name_spec(name)) == 1
}

/// See `legacy_tail_allowed_spec`.
pub fn legacy_tail_allowed(has_since: bool, has_cursor: bool, name: &str, known: &Vec<String>) -> (r: bool)
    ensures
        r == legacy_tail_allowed_spec(has_since, has_cursor, name@, known@.map_values(|k: String| k@)),
{
    if has_since || has_cursor {
        return false;
    }
    let safe = legacy_safe_name(name);
    let ghost all = known@.map_values(|k: String| k@);
    let mut count: usize = 0;
    let mut i: usize = 0;
    while i < known.len()
        invariant
            i <= known@.len(),
            all == known@.map_values(|k: String| k@),
            safe@ == legacy_safe_name_spec(name@),
            count == legacy_sharers(all.take(i as int), safe@),
            count <= i,
        decreases known@.len() - i,
    {
        let candidate = legacy_safe_name(known[i].as_str());
        proof {
            assert(all.take(i + 1).drop_last() =~= all.take(i as int));
            assert(all.take(i + 1).last() == known@[i as int]@);
        }
        if crate::text::str_eq(candidate.as_str(), safe.as_str()) {
            count += 1;
        }
        i += 1;
    }
    proof {
        assert(all.take(known@.len() as int) =~= all);
    }
    count == 1
}

/// Where a detached proxy resumes numbering: one past the highest sequence
/// among the rows already in its journal (rows without one are ignored),
/// saturating; 1 for an empty journal.
pub open spec fn resume_sequence_spec(sequences: Seq<Option<u64>>) -> u64
    decreases sequences.len(),
{
    if sequences.len() == 0 {
        1
    } else {
        let before = resume_sequence_spec(sequences.drop_last());
        match sequences.last() {
            Some(s) => if s == u64::MAX {
                u64::MAX
            } else if s + 1 > before {
                (s + 1) as u64
            } else {
                before
            },
            None => before,
        }
    }
}

/// See `resume_sequence_spec`; `sequences` holds, per existing journal
/// row, its `sequence` field if the row is JSON with an unsigned one.
pub fn resume_sequence(sequences: &Vec<Option<u64>>) -> (r: u64)
    ensures
        r == resume_sequence_spec(sequences@),
        r >= 1,
        forall|i: int| 0 <= i < sequences@.len() && (#[trigger] sequences@[i]) is Some ==> r
            > sequences@[i]->0 || r == u64::MAX,
{
    let mut next: u64 = 1;
    let mut i: usize = 0;
    while i < sequences.len()
        invariant
            i <= sequences@.len(),
            next == resume_sequence_spec(sequences@.take(i as int)),
            next >= 1,
            forall|j: int| 0 <= j < i && (#[trigger] sequences@[j]) is Some ==> next > sequences@[j]->0
                || next == u64::MAX,
        decreases sequences@.len() - i,
    {
        proof {
            assert(sequences@.take(i + 1).drop_last() =~= sequences@.take(i as int));
            assert(sequences@.take(i + 1).last() == sequences@[i as int]);
        }
        if let Some(s) = sequences[i] {
            let bumped = s.saturating_add(1);
            if s == u64::MAX {
                next = u64::MAX;
            } else if bumped > next {
                next = bumped;
            }
        }
        i += 1;
    }
    proof {
        assert(sequences@.take(sequences@.len() as int) =~= sequences@);
    }
    next
}

/// Spends one unit of a debug append budget: `None` is unlimited; an
/// exhausted budget refuses the append.
pub fn spend_append_budget(budget: &mut Option<u64>) -> (allowed: bool)
    ensures
        match *old(budget) {
            None => allowed && *final(budget) == None::<u64>,
            Some(n) => if n == 0 {
                !allowed && *final(budget) == Some(0u64)
            } else {
                allowed && *final(budget) == Some((n - 1) as u64)
            },
        },
{
    match *budget {
        None => true,
        Some(n) => {
            if n == 0 {
                false
            } else {
                *budget = Some(n - 1);
                true
            }
        },
    }
}


/// The parts joined with `sep` between consecutive ones.
pub open spec fn joined(parts: Seq<Seq<char>>, sep: Seq<char>) -> Seq<char>
    decreases parts.len(),
{
    if parts.len() == 0 {
        Seq::empty()
    } else if parts.len() == 1 {
        parts[0]
    } else {
        joined(parts.drop_last(), sep) + sep + parts.last()
    }
}

/// The parts joined with `sep` between consecutive ones.
pub fn join_with(parts: &Vec<String>, sep: &str) -> (r: String)
    ensures
        r@ == joined(parts@.map_values(|p: String| p@), sep@),
{
    let ghost views = parts@.map_values(|p: String| p@);
    let mut out = String::new();
    let mut i: usize = 0;
    while i < parts.len()
        invariant
            i <= parts@.len(),
            views == parts@.map_values(|p: String| p@),
            out@ == joined(views.take(i as int), sep@),
        decreases parts@.len() - i,
    {
        proof {
            assert(views.take(i + 1).drop_last() =~= views.take(i as int));
            assert(views.take(i + 1).last() == parts@[i as int]@);
        }
        if i > 0 {
            push_str(&mut out, sep);
        } else {
            assert(Seq::<char>::empty() + parts@[0]@ =~= parts@[0]@);
        }
        push_str(&mut out, parts[i].as_str());
        i += 1;
    }
    proof {
        assert(views.take(parts@.len() as int) =~= views);
    }
    out
}

/// The system line logged when a directly started child has been waited
/// for: its exit status, or why waiting failed.
pub fn child_exit_note(status: Result<String, String>) -> (r: String)
    ensures
        r@ == match status {
            Ok(s) => "process exited: "@ + s@,
            Err(e) => "process wait failed: "@ + e@,
        },
{
    let mut note = String::new();
    match status {
        Ok(s) => {
            push_str(&mut note, "process exited: ");
            push_str(&mut note, s.as_str());
            assert(Seq::<char>::empty() + "process exited: "@ =~= "process exited: "@);
        },
        Err(e) => {
            push_str(&mut note, "process wait failed: ");
            push_str(&mut note, e.as_str());
            assert(Seq::<char>::empty() + "process wait failed: "@ =~= "process wait failed: "@);
        },
    }
    note
}

/// The system line logged when a detached proxy and the owners that clean
/// up after it have been waited for: the proxy's exit status and the
/// failures of the owner waits, or why waiting failed.
pub fn detached_exit_note(proxy: Result<String, String>, owners: Result<Vec<String>, String>) -> (r: String)
    ensures
        r@ == match (proxy, owners) {
            (Ok(status), Ok(failures)) => if failures@.len() == 0 {
                "detached proxy and cleanup owners exited: "@ + status@
            } else {
                "detached proxy exited: "@ + status@ + "; cleanup owner waits failed: "@ + joined(
                    failures@.map_values(|f: String| f@),
                    ", "@,
                )
            },
            (Err(e), _) => "detached proxy wait failed: "@ + e@,
            (Ok(_), Err(e)) => "detached cleanup owner waiter failed: "@ + e@,
        },
{
    let mut note = String::new();
    match (proxy, owners) {
        (Ok(status), Ok(failures)) => {
            if failures.len() == 0 {
                push_str(&mut note, "detached proxy and cleanup owners exited: ");
                push_str(&mut note, status.as_str());
                assert(Seq::<char>::empty() + "detached proxy and cleanup owners exited: "@
                    =~= "detached proxy and cleanup owners exited: "@);
            } else {
                push_str(&mut note, "detached proxy exited: ");
                push_str(&mut note, status.as_str());
                push_str(&mut note, "; cleanup owner waits failed: ");
                let list = join_with(&failures, ", ");
                push_str(&mut note, list.as_str());
                assert(Seq::<char>::empty() + "detached proxy exited: "@ =~= "detached proxy exited: "@);
            }
        },
        (Err(e), _) => {
            push_str(&mut note, "detached proxy wait failed: ");
            push_str(&mut note, e.as_str());
            assert(Seq::<char>::empty() + "detached proxy wait failed: "@ =~= "detached proxy wait failed: "@);
        },
        (Ok(_), Err(e)) => {
            push_str(&mut note, "detached cleanup owner waiter failed: ");
            push_str(&mut note, e.as_str());
            assert(Seq::<char>::empty() + "detached cleanup owner waiter failed: "@
                =~= "detached cleanup owner waiter failed: "@);
        },
    }
    note
}

} // verus!
