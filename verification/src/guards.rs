//! Runtime-guard observations: the resident memory of an owned process
//! group (from a `ps -axo pid=,pgid=,rss=` listing, each member verified by
//! its native identity), bounded capture of check output, and how a check
//! run ends.  The native calls are made by the caller.

use vstd::prelude::*;

use crate::signals::{ProcessIdentity, SignalError, ZOMBIE_STATUS};
use crate::text::{
    chars_of, decode_lossy, is_whitespace, is_whitespace_exec, lines_of, parse_unsigned,
    parse_unsigned_chars, push_char, push_str, slice_vec, split_lines, trim, trim_chars, trim_start,
    utf8_lossy,
};

verus! {

/// Check output is kept up to this many bytes per stream.
pub const CHECK_OUTPUT_LIMIT_BYTES: usize = 65536;

// Check output
/// A captured stream with the capture error (if any) appended on a line of
/// its own.
pub open spec fn with_capture_error(output: Seq<char>, error: Option<Seq<char>>) -> Seq<char> {
    match error {
        None => output,
        Some(e) => (if output.len() == 0 {
            output
        } else {
            output.push('\n')
        }) + "[capture error: "@ + e + "]"@,
    }
}

/// Appends `[capture error: ...]` to captured output when the capture
/// failed.
pub fn append_capture_error(output: String, error: Option<String>) -> (r: String)
    ensures
        r@ == with_capture_error(
            output@,
            match error {
                Some(e) => Some(e@),
                None => None,
            },
        ),
{
    let mut output = output;
    if let Some(error) = error {
        if !output.as_str().is_empty() {
            push_char(&mut output, '\n');
        }
        push_str(&mut output, "[capture error: ");
        push_str(&mut output, error.as_str());
        push_char(&mut output, ']');
        proof {
            reveal_strlit("]");
        }
    }
    output
}

/// Keeps as much of `chunk` as fits under `limit`; returns whether some of
/// it was dropped.
pub fn keep_bounded(kept: &mut Vec<u8>, chunk: &[u8], limit: usize) -> (truncated: bool)
    ensures
        ({
            let room = if old(kept)@.len() >= limit {
                0
            } else {
                limit - old(kept)@.len()
            };
            let taken = if chunk@.len() <= room {
                chunk@.len() as int
            } else {
                room
            };
            &&& final(kept)@ == old(kept)@ + chunk@.take(taken)
            &&& truncated == (taken < chunk@.len())
        }),
        old(kept)@.len() <= limit ==> final(kept)@.len() <= limit,
{
    let available: usize = limit.saturating_sub(kept.len());
    let take: usize = if chunk.len() <= available {
        chunk.len()
    } else {
        available
    };
    let ghost before = kept@;
    let mut i: usize = 0;
    while i < take
        invariant
            take <= chunk@.len(),
            i <= take,
            kept@ == before + chunk@.take(i as int),
        decreases take - i,
    {
        kept.push(chunk[i]);
        proof {
            assert(chunk@.take(i + 1) =~= chunk@.take(i as int).push(chunk@[i as int]));
        }
        i += 1;
    }
    take < chunk.len()
}

/// The bytes of a captured stream as text.
pub fn captured_text(bytes: &[u8]) -> (r: String)
    ensures
        r@ == utf8_lossy(bytes@),
{
    decode_lossy(bytes)
}

/// How an exec check's child ended.
#[derive(Debug, Clone, Copy, PartialEq, Eq, Structural)]
pub enum CheckCause {
    /// It exited (successfully or not) with this code, if it has one.
    Exited { success: bool, code: Option<i32> },
    TimedOut,
    Cancelled,
}

/// What a check observed on its child's streams.
#[derive(Debug, Clone, PartialEq, Eq)]
pub struct CheckDiagnostics {
    pub stdout: String,
    pub stderr: String,
    pub stdout_truncated: bool,
    pub stderr_truncated: bool,
}

impl Default for CheckDiagnostics {
    fn default() -> (d: Self)
        ensures
            d.stdout@ == Seq::<char>::empty(),
            d.stderr@ == Seq::<char>::empty(),
            !d.stdout_truncated,
            !d.stderr_truncated,
    {
        CheckDiagnostics { stdout: String::new(), stderr: String::new(), stdout_truncated: false, stderr_truncated: false }
    }
}

/// What a finished check reports beside its verdict.
#[derive(Debug, Clone, Copy, PartialEq, Eq, Structural)]
pub enum CheckStatus {
    /// The exit code of an exec check's command.
    ExitCode(i32),
    /// The status of an HTTP check's response.
    HttpStatus(u16),
}

/// The exit status an exec check reports, when its command has one.
pub open spec fn exit_status(code: Option<i32>) -> Option<CheckStatus> {
    match code {
        Some(c) => Some(CheckStatus::ExitCode(c)),
        None => None,
    }
}

/// The result of one liveness or readiness check run.
#[derive(Debug, Clone, PartialEq, Eq)]
pub enum CheckOutcome {
    Succeeded { status: Option<CheckStatus>, diagnostics: CheckDiagnostics },
    Failed { status: Option<CheckStatus>, diagnostics: CheckDiagnostics },
    TimedOut { diagnostics: CheckDiagnostics },
    Cancelled { diagnostics: CheckDiagnostics },
    CleanupFailed { cause: String, diagnostics: CheckDiagnostics },
}

/// Which outcome a check run has: a failed group cleanup wins over
/// everything; otherwise the cause decides.
pub open spec fn check_outcome_kind(cause: CheckCause, cleanup_failure: Option<Seq<char>>) -> nat {
    match cleanup_failure {
        Some(_) => 4,
        None => match cause {
            CheckCause::TimedOut => 2,
            CheckCause::Cancelled => 3,
            CheckCause::Exited { success, .. } => if success {
                0
            } else {
                1
            },
        },
    }
}

pub open spec fn outcome_kind(o: CheckOutcome) -> nat {
    match o {
        CheckOutcome::Succeeded { .. } => 0,
        CheckOutcome::Failed { .. } => 1,
        CheckOutcome::TimedOut { .. } => 2,
        CheckOutcome::Cancelled { .. } => 3,
        CheckOutcome::CleanupFailed { .. } => 4,
    }
}

/// The outcome of an exec check run: a failed group cleanup wins; else a
/// timeout or cancellation reports itself, and an exit succeeds or fails
/// with its exit code.
pub open spec fn check_outcome_spec(
    cause: CheckCause,
    cleanup_failure: Option<String>,
    diagnostics: CheckDiagnostics,
) -> CheckOutcome {
    match cleanup_failure {
        Some(c) => CheckOutcome::CleanupFailed { cause: c, diagnostics },
        None => match cause {
            CheckCause::TimedOut => CheckOutcome::TimedOut { diagnostics },
            CheckCause::Cancelled => CheckOutcome::Cancelled { diagnostics },
            CheckCause::Exited { success, code } => if success {
                CheckOutcome::Succeeded { status: exit_status(code), diagnostics }
            } else {
                CheckOutcome::Failed { status: exit_status(code), diagnostics }
            },
        },
    }
}

/// The outcome of an exec check run, from how its child ended, whether its
/// group cleanup failed, and its diagnostics.
pub fn check_outcome(cause: CheckCause, cleanup_failure: Option<String>, diagnostics: CheckDiagnostics) -> (r:
    CheckOutcome)
    ensures
        r == check_outcome_spec(cause, cleanup_failure, diagnostics),
        outcome_kind(r) == check_outcome_kind(
            cause,
            match cleanup_failure {
                Some(c) => Some(c@),
                None => None,
            },
        ),
        r matches CheckOutcome::CleanupFailed { cause: c, .. } ==> cleanup_failure matches Some(f)
            && c@ == f@,
        r matches CheckOutcome::Succeeded { status, .. } ==> cause matches CheckCause::Exited {
            code,
            ..
        } && status == exit_status(code),
        r matches CheckOutcome::Failed { status, .. } ==> cause matches CheckCause::Exited {
            code,
            ..
        } && status == exit_status(code),
        match r {
            CheckOutcome::Succeeded { diagnostics: d, .. } => d == diagnostics,
            CheckOutcome::Failed { diagnostics: d, .. } => d == diagnostics,
            CheckOutcome::TimedOut { diagnostics: d } => d == diagnostics,
            CheckOutcome::Cancelled { diagnostics: d } => d == diagnostics,
            CheckOutcome::CleanupFailed { diagnostics: d, .. } => d == diagnostics,
        },
{
    if let Some(c) = cleanup_failure {
        return CheckOutcome::CleanupFailed { cause: c, diagnostics };
    }
    match cause {
        CheckCause::TimedOut => CheckOutcome::TimedOut { diagnostics },
        CheckCause::Cancelled => CheckOutcome::Cancelled { diagnostics },
        CheckCause::Exited { success, code } => {
            let status = match code {
                Some(c) => Some(CheckStatus::ExitCode(c)),
                None => None,
            };
            if success {
                CheckOutcome::Succeeded { status, diagnostics }
            } else {
                CheckOutcome::Failed { status, diagnostics }
            }
        },
    }
}

/// Where an exec check run stands.
#[derive(Debug, Clone, Copy, PartialEq, Eq, Structural)]
pub enum ExecCheckPhase {
    /// Waiting for the child to exit, the cancellation or the timeout.
    Polling,
    /// The child exited; is its group still there?
    ProbingGroup,
    /// Ending the group.
    Terminating,
    /// The group was ended; reaping the child.
    Reaping,
    /// Ending the group failed; giving the child a bounded time to exit.
    Draining,
    /// Joining the output captures.
    Collecting,
    Done,
}

/// An exec check run: its phase, how its child ended (once known) and why
/// its group cleanup failed (if it did).
#[derive(Debug, Clone, PartialEq, Eq)]
pub struct ExecCheckState {
    pub phase: ExecCheckPhase,
    pub cause: CheckCause,
    pub cleanup_failure: Option<String>,
}

/// What the host observed.
#[derive(Debug, PartialEq, Eq)]
pub enum ExecCheckEvent {
    /// One poll: whether the child exited (with success and code) or waiting
    /// failed, whether cancellation was requested, whether the timeout
    /// passed.
    Polled { exited: Option<Result<(bool, Option<i32>), String>>, cancelled: bool, timed_out: bool },
    /// Whether the child's group still exists.
    GroupProbed(Result<bool, String>),
    /// The group termination's result.
    Terminated(Result<(), String>),
    /// Reaping the child after its group ended.
    Reaped(Result<(), String>),
    /// The bounded wait after a failed termination ended (`Ok(true)`: the
    /// child exited, `Ok(false)`: it did not).
    Drained(Result<bool, String>),
    /// What the captures hold.
    Collected(CheckDiagnostics),
}

/// What the host does next.
#[derive(Debug, PartialEq, Eq)]
pub enum ExecCheckAction {
    /// Sleep briefly, then poll again.
    Poll,
    ProbeGroup,
    /// End the child's dedicated group (signal, grace, kill).
    TerminateGroup,
    Reap,
    Drain,
    CollectDiagnostics,
    /// The run is over: its outcome, or the error of a failed wait.
    Finish(Result<CheckOutcome, String>),
}

/// The events each phase waits for.
pub open spec fn exec_check_accepts(phase: ExecCheckPhase, e: ExecCheckEvent) -> bool {
    match phase {
        ExecCheckPhase::Polling => e is Polled,
        ExecCheckPhase::ProbingGroup => e is GroupProbed,
        ExecCheckPhase::Terminating => e is Terminated,
        ExecCheckPhase::Reaping => e is Reaped,
        ExecCheckPhase::Draining => e is Drained,
        ExecCheckPhase::Collecting => e is Collected,
        ExecCheckPhase::Done => false,
    }
}

/// One step of an exec check run.  An exit seen by a poll wins over a
/// cancellation, which wins over the timeout.  After an exit the group is
/// ended only if it still exists; after a timeout or cancellation it is
/// always ended and the child reaped.  A failed probe or termination
/// becomes the cleanup failure (after a bounded drain when the child was
/// not known to have exited), which then decides the outcome.
pub open spec fn exec_check_spec(s: ExecCheckState, e: ExecCheckEvent) -> (ExecCheckState, ExecCheckAction) {
    let at = |phase: ExecCheckPhase| ExecCheckState { phase, ..s };
    match e {
        ExecCheckEvent::Polled { exited, cancelled, timed_out } => match exited {
            Some(Err(x)) => (at(ExecCheckPhase::Done), ExecCheckAction::Finish(Err(x))),
            Some(Ok((success, code))) => (
                ExecCheckState {
                    phase: ExecCheckPhase::ProbingGroup,
                    cause: CheckCause::Exited { success, code },
                    ..s
                },
                ExecCheckAction::ProbeGroup,
            ),
            None => if cancelled {
                (
                    ExecCheckState { phase: ExecCheckPhase::Terminating, cause: CheckCause::Cancelled, ..s },
                    ExecCheckAction::TerminateGroup,
                )
            } else if timed_out {
                (
                    ExecCheckState { phase: ExecCheckPhase::Terminating, cause: CheckCause::TimedOut, ..s },
                    ExecCheckAction::TerminateGroup,
                )
            } else {
                (at(ExecCheckPhase::Polling), ExecCheckAction::Poll)
            },
        },
        ExecCheckEvent::GroupProbed(Ok(true)) => (at(ExecCheckPhase::Terminating), ExecCheckAction::TerminateGroup),
        ExecCheckEvent::GroupProbed(Ok(false)) => (at(ExecCheckPhase::Collecting), ExecCheckAction::CollectDiagnostics),
        ExecCheckEvent::GroupProbed(Err(x)) => (
            ExecCheckState { phase: ExecCheckPhase::Collecting, cleanup_failure: Some(x), ..s },
            ExecCheckAction::CollectDiagnostics,
        ),
        ExecCheckEvent::Terminated(Ok(())) => if s.cause is Exited {
            (at(ExecCheckPhase::Collecting), ExecCheckAction::CollectDiagnostics)
        } else {
            (at(ExecCheckPhase::Reaping), ExecCheckAction::Reap)
        },
        ExecCheckEvent::Terminated(Err(x)) => if s.cause is Exited {
            (
                ExecCheckState { phase: ExecCheckPhase::Collecting, cleanup_failure: Some(x), ..s },
                ExecCheckAction::CollectDiagnostics,
            )
        } else {
            (
                ExecCheckState { phase: ExecCheckPhase::Draining, cleanup_failure: Some(x), ..s },
                ExecCheckAction::Drain,
            )
        },
        ExecCheckEvent::Reaped(Ok(())) => (at(ExecCheckPhase::Collecting), ExecCheckAction::CollectDiagnostics),
        ExecCheckEvent::Reaped(Err(x)) => (at(ExecCheckPhase::Done), ExecCheckAction::Finish(Err(x))),
        ExecCheckEvent::Drained(Ok(_)) => (at(ExecCheckPhase::Collecting), ExecCheckAction::CollectDiagnostics),
        ExecCheckEvent::Drained(Err(x)) => (at(ExecCheckPhase::Done), ExecCheckAction::Finish(Err(x))),
        ExecCheckEvent::Collected(d) => (
            at(ExecCheckPhase::Done),
            ExecCheckAction::Finish(Ok(check_outcome_spec(s.cause, s.cleanup_failure, d))),
        ),
    }
}

/// A fresh exec check run: it polls first.
pub fn exec_check_start() -> (r: (ExecCheckState, ExecCheckAction))
    ensures
        r.0.phase == ExecCheckPhase::Polling,
        r.0.cleanup_failure is None,
        r.1 == ExecCheckAction::Poll,
{
    (
        ExecCheckState { phase: ExecCheckPhase::Polling, cause: CheckCause::TimedOut, cleanup_failure: None },
        ExecCheckAction::Poll,
    )
}

/// One step of an exec check run (see `exec_check_spec`).
pub fn exec_check_step(s: ExecCheckState, e: ExecCheckEvent) -> (r: (ExecCheckState, ExecCheckAction))
    requires
        exec_check_accepts(s.phase, e),
    ensures
        r == exec_check_spec(s, e),
{
    let ExecCheckState { phase, cause, cleanup_failure } = s;
    match e {
        ExecCheckEvent::Polled { exited, cancelled, timed_out } => match exited {
            Some(Err(x)) => (
                ExecCheckState { phase: ExecCheckPhase::Done, cause, cleanup_failure },
                ExecCheckAction::Finish(Err(x)),
            ),
            Some(Ok((success, code))) => (
                ExecCheckState {
                    phase: ExecCheckPhase::ProbingGroup,
                    cause: CheckCause::Exited { success, code },
                    cleanup_failure,
                },
                ExecCheckAction::ProbeGroup,
            ),
            None => if cancelled {
                (
                    ExecCheckState { phase: ExecCheckPhase::Terminating, cause: CheckCause::Cancelled, cleanup_failure },
                    ExecCheckAction::TerminateGroup,
                )
            } else if timed_out {
                (
                    ExecCheckState { phase: ExecCheckPhase::Terminating, cause: CheckCause::TimedOut, cleanup_failure },
                    ExecCheckAction::TerminateGroup,
                )
            } else {
                (ExecCheckState { phase: ExecCheckPhase::Polling, cause, cleanup_failure }, ExecCheckAction::Poll)
            },
        },
        ExecCheckEvent::GroupProbed(Ok(true)) => (
            ExecCheckState { phase: ExecCheckPhase::Terminating, cause, cleanup_failure },
            ExecCheckAction::TerminateGroup,
        ),
        ExecCheckEvent::GroupProbed(Ok(false)) => (
            ExecCheckState { phase: ExecCheckPhase::Collecting, cause, cleanup_failure },
            ExecCheckAction::CollectDiagnostics,
        ),
        ExecCheckEvent::GroupProbed(Err(x)) => (
            ExecCheckState { phase: ExecCheckPhase::Collecting, cause, cleanup_failure: Some(x) },
            ExecCheckAction::CollectDiagnostics,
        ),
        ExecCheckEvent::Terminated(Ok(())) => {
            let exited = match cause {
                CheckCause::Exited { .. } => true,
                _ => false,
            };
            if exited {
                (
                    ExecCheckState { phase: ExecCheckPhase::Collecting, cause, cleanup_failure },
                    ExecCheckAction::CollectDiagnostics,
                )
            } else {
                (ExecCheckState { phase: ExecCheckPhase::Reaping, cause, cleanup_failure }, ExecCheckAction::Reap)
            }
        },
        ExecCheckEvent::Terminated(Err(x)) => {
            let exited = match cause {
                CheckCause::Exited { .. } => true,
                _ => false,
            };
            if exited {
                (
                    ExecCheckState { phase: ExecCheckPhase::Collecting, cause, cleanup_failure: Some(x) },
                    ExecCheckAction::CollectDiagnostics,
                )
            } else {
                (
                    ExecCheckState { phase: ExecCheckPhase::Draining, cause, cleanup_failure: Some(x) },
                    ExecCheckAction::Drain,
                )
            }
        },
        ExecCheckEvent::Reaped(Ok(())) => (
            ExecCheckState { phase: ExecCheckPhase::Collecting, cause, cleanup_failure },
            ExecCheckAction::CollectDiagnostics,
        ),
        ExecCheckEvent::Reaped(Err(x)) => (
            ExecCheckState { phase: ExecCheckPhase::Done, cause, cleanup_failure },
            ExecCheckAction::Finish(Err(x)),
        ),
        ExecCheckEvent::Drained(Ok(_)) => (
            ExecCheckState { phase: ExecCheckPhase::Collecting, cause, cleanup_failure },
            ExecCheckAction::CollectDiagnostics,
        ),
        ExecCheckEvent::Drained(Err(x)) => (
            ExecCheckState { phase: ExecCheckPhase::Done, cause, cleanup_failure },
            ExecCheckAction::Finish(Err(x)),
        ),
        ExecCheckEvent::Collected(d) => {
            let outcome = check_outcome(cause, cleanup_failure.clone(), d);
            (
                ExecCheckState { phase: ExecCheckPhase::Done, cause, cleanup_failure },
                ExecCheckAction::Finish(Ok(outcome)),
            )
        },
    }
}

/// How a network check's attempt ended: it completed (with what it
/// returned, or its error), or cancellation or the timeout came first.
#[derive(Debug)]
pub enum CheckRace<T> {
    Completed(Result<T, String>),
    Cancelled,
    TimedOut,
}

/// The outcome of a TCP check: connecting succeeds or fails (the error as
/// the diagnostics' standard error); nothing is captured otherwise.
pub fn tcp_check_outcome(end: CheckRace<()>) -> (r: CheckOutcome)
    ensures
        match end {
            CheckRace::Completed(Ok(_)) => r matches CheckOutcome::Succeeded { status: None, diagnostics: d }
                && d.stdout@.len() == 0 && d.stderr@.len() == 0 && !d.stdout_truncated && !d.stderr_truncated,
            CheckRace::Completed(Err(e)) => r matches CheckOutcome::Failed { status: None, diagnostics: d }
                && d.stdout@.len() == 0 && d.stderr@ == e@ && !d.stdout_truncated && !d.stderr_truncated,
            CheckRace::Cancelled => r matches CheckOutcome::Cancelled { diagnostics: d } && d.stdout@.len() == 0
                && d.stderr@.len() == 0 && !d.stdout_truncated && !d.stderr_truncated,
            CheckRace::TimedOut => r matches CheckOutcome::TimedOut { diagnostics: d } && d.stdout@.len() == 0
                && d.stderr@.len() == 0 && !d.stdout_truncated && !d.stderr_truncated,
        },
{
    let diagnostics = CheckDiagnostics::default();
    match end {
        CheckRace::Completed(Ok(_)) => CheckOutcome::Succeeded { status: None, diagnostics },
        CheckRace::Completed(Err(error)) => CheckOutcome::Failed {
            status: None,
            diagnostics: CheckDiagnostics { stderr: error, ..diagnostics },
        },
        CheckRace::Cancelled => CheckOutcome::Cancelled { diagnostics },
        CheckRace::TimedOut => CheckOutcome::TimedOut { diagnostics },
    }
}

/// The outcome of an HTTP check: the response status decides against the
/// expected one and is reported; a request error fails (the error as the
/// diagnostics' standard error); nothing is captured otherwise.
pub fn http_check_outcome(end: CheckRace<u16>, expected_status: u16) -> (r: CheckOutcome)
    ensures
        match end {
            CheckRace::Completed(Ok(status)) => (if status == expected_status {
                r matches CheckOutcome::Succeeded { status: Some(CheckStatus::HttpStatus(s)), diagnostics: d }
                    && s == status && d.stdout@.len() == 0 && d.stderr@.len() == 0
            } else {
                r matches CheckOutcome::Failed { status: Some(CheckStatus::HttpStatus(s)), diagnostics: d }
                    && s == status && d.stdout@.len() == 0 && d.stderr@.len() == 0
            }),
            CheckRace::Completed(Err(e)) => r matches CheckOutcome::Failed { status: None, diagnostics: d }
                && d.stdout@.len() == 0 && d.stderr@ == e@,
            CheckRace::Cancelled => r matches CheckOutcome::Cancelled { diagnostics: d } && d.stdout@.len() == 0
                && d.stderr@.len() == 0,
            CheckRace::TimedOut => r matches CheckOutcome::TimedOut { diagnostics: d } && d.stdout@.len() == 0
                && d.stderr@.len() == 0,
        },
        match r {
            CheckOutcome::Succeeded { diagnostics: d, .. } => !d.stdout_truncated && !d.stderr_truncated,
            CheckOutcome::Failed { diagnostics: d, .. } => !d.stdout_truncated && !d.stderr_truncated,
            CheckOutcome::TimedOut { diagnostics: d } => !d.stdout_truncated && !d.stderr_truncated,
            CheckOutcome::Cancelled { diagnostics: d } => !d.stdout_truncated && !d.stderr_truncated,
            CheckOutcome::CleanupFailed { .. } => false,
        },
{
    let diagnostics = CheckDiagnostics::default();
    match end {
        CheckRace::Completed(Ok(status)) => {
            if status == expected_status {
                CheckOutcome::Succeeded { status: Some(CheckStatus::HttpStatus(status)), diagnostics }
            } else {
                CheckOutcome::Failed { status: Some(CheckStatus::HttpStatus(status)), diagnostics }
            }
        },
        CheckRace::Completed(Err(error)) => CheckOutcome::Failed {
            status: None,
            diagnostics: CheckDiagnostics { stderr: error, ..diagnostics },
        },
        CheckRace::Cancelled => CheckOutcome::Cancelled { diagnostics },
        CheckRace::TimedOut => CheckOutcome::TimedOut { diagnostics },
    }
}

// Group memory
/// Index of the first whitespace character of `s`, if any.
pub open spec fn find_whitespace(s: Seq<char>) -> Option<int>
    decreases s.len(),
{
    if s.len() == 0 {
        None
    } else if is_whitespace(s[0]) {
        Some(0)
    } else {
        match find_whitespace(s.drop_first()) {
            Some(i) => Some(i + 1),
            None => None,
        }
    }
}

/// The first whitespace-separated word of `s` and what follows it.
pub open spec fn first_word(s: Seq<char>) -> Option<(Seq<char>, Seq<char>)> {
    let t = trim_start(s);
    if t.len() == 0 {
        None
    } else {
        match find_whitespace(t) {
            Some(i) => Some((t.take(i), t.skip(i))),
            None => Some((t, Seq::empty())),
        }
    }
}

/// Why a group's memory could not be sampled.
#[derive(Debug, Clone, PartialEq, Eq)]
pub enum UsageGap {
    /// `ps` could not enumerate the process groups.
    Enumeration(String),
    UnparseableRow,
    MissingGroup,
    MissingMemory,
    /// A member moved, exited or was recycled while sampling.
    Changed(u32),
    /// A member's identity could not be read.
    Unverifiable(u32, SignalError),
    NoLiveMember,
}

/// One row of the listing: PID, process group and resident memory in KiB.
pub type PsRow = (u32, u32, u64);

/// Reads one non-blank row: three whitespace-separated numbers.
pub open spec fn ps_row(line: Seq<char>) -> Result<(nat, nat, nat), UsageGap> {
    match first_word(line) {
        None => Err(UsageGap::UnparseableRow),
        Some((w1, r1)) => match parse_unsigned(w1, u32::MAX as nat) {
            None => Err(UsageGap::UnparseableRow),
            Some(pid) => match first_word(r1) {
                None => Err(UsageGap::MissingGroup),
                Some((w2, r2)) => match parse_unsigned(w2, u32::MAX as nat) {
                    None => Err(UsageGap::MissingGroup),
                    Some(pgid) => match first_word(r2) {
                        None => Err(UsageGap::MissingMemory),
                        Some((w3, _)) => match parse_unsigned(w3, u64::MAX as nat) {
                            None => Err(UsageGap::MissingMemory),
                            Some(rss) => Ok((pid, pgid, rss)),
                        },
                    },
                },
            },
        },
    }
}

/// Reads the non-blank rows of a listing, in order, stopping at the first
/// malformed one.
pub open spec fn ps_rows(lines: Seq<Seq<char>>) -> Result<Seq<(nat, nat, nat)>, UsageGap>
    decreases lines.len(),
{
    if lines.len() == 0 {
        Ok(Seq::empty())
    } else if trim(lines[0]).len() == 0 {
        ps_rows(lines.drop_first())
    } else {
        match ps_row(lines[0]) {
            Err(e) => Err(e),
            Ok(row) => match ps_rows(lines.drop_first()) {
                Err(e) => Err(e),
                Ok(rest) => Ok(seq![row] + rest),
            },
        }
    }
}

pub open spec fn row_view(r: PsRow) -> (nat, nat, nat) {
    (r.0 as nat, r.1 as nat, r.2 as nat)
}

/// Scans `s` from `from` for the next word: its start and end.
fn next_word(s: &Vec<char>, from: usize) -> (r: Option<(usize, usize)>)
    requires
        from <= s@.len(),
    ensures
        match r {
            None => first_word(s@.skip(from as int)) is None,
            Some((start, end)) => from <= start < end <= s@.len() && first_word(s@.skip(from as int))
                == Some((s@.subrange(start as int, end as int), s@.skip(end as int))),
        },
{
    let mut j: usize = from;
    while j < s.len() && is_whitespace_exec(s[j])
        invariant
            from <= j <= s@.len(),
            trim_start(s@.skip(from as int)) == trim_start(s@.skip(j as int)),
        decreases s@.len() - j,
    {
        proof {
            assert(s@.skip(j as int).drop_first() =~= s@.skip(j + 1));
        }
        j += 1;
    }
    let ghost t = s@.skip(j as int);
    proof {
        assert(trim_start(t) == t);
    }
    if j == s.len() {
        proof {
            assert(t.len() == 0);
        }
        return None;
    }
    let mut k: usize = j;
    while k < s.len() && !is_whitespace_exec(s[k])
        invariant
            j <= k <= s@.len(),
            t == s@.skip(j as int),
            find_whitespace(t) == match find_whitespace(s@.skip(k as int)) {
                Some(i) => Some(i + (k - j)),
                None => None,
            },
            forall|m: int| j <= m < k ==> !is_whitespace(#[trigger] s@[m]),
        decreases s@.len() - k,
    {
        proof {
            assert(s@.skip(k as int).drop_first() =~= s@.skip(k + 1));
        }
        k += 1;
    }
    proof {
        if k < s.len() {
            assert(s@.skip(k as int)[0] == s@[k as int]);
            assert(find_whitespace(s@.skip(k as int)) == Some(0int));
            assert(t.take(k - j) =~= s@.subrange(j as int, k as int));
            assert(t.skip(k - j) =~= s@.skip(k as int));
        } else {
            assert(s@.skip(k as int).len() == 0);
            assert(t =~= s@.subrange(j as int, k as int));
            assert(s@.skip(k as int) =~= Seq::<char>::empty());
        }
    }
    Some((j, k))
}

fn parse_row(line: &Vec<char>) -> (r: Result<PsRow, UsageGap>)
    ensures
        match r {
            Ok(row) => ps_row(line@) == Ok::<(nat, nat, nat), UsageGap>(row_view(row)),
            Err(e) => ps_row(line@) == Err::<(nat, nat, nat), UsageGap>(e),
        },
{
    proof {
        assert(line@.skip(0) =~= line@);
    }
    let (s1, e1) = match next_word(line, 0) {
        None => {
            return Err(UsageGap::UnparseableRow);
        },
        Some(w) => w,
    };
    let w1 = slice_vec(line, s1, e1);
    let pid: u64 = match parse_unsigned_chars(w1.as_slice(), 4294967295) {
        None => {
            return Err(UsageGap::UnparseableRow);
        },
        Some(v) => v,
    };
    let (s2, e2) = match next_word(line, e1) {
        None => {
            return Err(UsageGap::MissingGroup);
        },
        Some(w) => w,
    };
    proof {
        assert(line@.skip(e1 as int).subrange(s2 - e1, e2 - e1) =~= line@.subrange(s2 as int, e2 as int));
    }
    let w2 = slice_vec(line, s2, e2);
    let pgid: u64 = match parse_unsigned_chars(w2.as_slice(), 4294967295) {
        None => {
            return Err(UsageGap::MissingGroup);
        },
        Some(v) => v,
    };
    let (s3, e3) = match next_word(line, e2) {
        None => {
            return Err(UsageGap::MissingMemory);
        },
        Some(w) => w,
    };
    let w3 = slice_vec(line, s3, e3);
    let rss: u64 = match parse_unsigned_chars(w3.as_slice(), u64::MAX) {
        None => {
            return Err(UsageGap::MissingMemory);
        },
        Some(v) => v,
    };
    let p: u32 = pid as u32;
    let g: u32 = pgid as u32;
    Ok((p, g, rss))
}

/// Reads a `ps -axo pid=,pgid=,rss=` listing (its raw standard output).
pub fn parse_ps_listing(stdout: &[u8]) -> (r: Result<Vec<PsRow>, UsageGap>)
    ensures
        match r {
            Ok(rows) => ps_rows(lines_of(utf8_lossy(stdout@))) == Ok::<Seq<(nat, nat, nat)>, UsageGap>(
                rows@.map_values(|x: PsRow| row_view(x)),
            ),
            Err(e) => ps_rows(lines_of(utf8_lossy(stdout@))) == Err::<Seq<(nat, nat, nat)>, UsageGap>(e),
        },
{
    let text = decode_lossy(stdout);
    let chars = chars_of(text.as_str());
    let lines = split_lines(&chars);
    let ghost all = lines@.map_values(|l: Vec<char>| l@);
    let mut rows: Vec<PsRow> = Vec::new();
    let mut i: usize = 0;
    proof {
        assert(all.skip(0) =~= all);
        assert(rows@.map_values(|x: PsRow| row_view(x)) =~= Seq::<(nat, nat, nat)>::empty());
    }
    while i < lines.len()
        invariant
            i <= lines@.len(),
            all == lines@.map_values(|l: Vec<char>| l@),
            all == lines_of(utf8_lossy(stdout@)),
            ps_rows(all) == match ps_rows(all.skip(i as int)) {
                Ok(rest) => Ok(rows@.map_values(|x: PsRow| row_view(x)) + rest),
                Err(e) => Err(e),
            },
        decreases lines@.len() - i,
    {
        proof {
            assert(all.skip(i as int)[0] == lines@[i as int]@);
            assert(all.skip(i as int).drop_first() =~= all.skip(i + 1));
        }
        let trimmed = trim_chars(&lines[i]);
        if trimmed.len() != 0 {
            match parse_row(&lines[i]) {
                Err(e) => {
                    return Err(e);
                },
                Ok(row) => {
                    let ghost before = rows@.map_values(|x: PsRow| row_view(x));
                    rows.push(row);
                    proof {
                        assert(rows@.map_values(|x: PsRow| row_view(x)) =~= before.push(row_view(row)));
                        match ps_rows(all.skip(i + 1)) {
                            Ok(rest) => {
                                assert(before + (seq![row_view(row)] + rest) =~= before.push(row_view(row))
                                    + rest);
                            },
                            Err(_) => {},
                        }
                    }
                },
            }
        }
        i += 1;
    }
    proof {
        assert(all.skip(i as int) =~= Seq::<Seq<char>>::empty());
        assert(rows@.map_values(|x: PsRow| row_view(x)) + Seq::<(nat, nat, nat)>::empty() =~= rows@.map_values(
            |x: PsRow| row_view(x),
        ));
    }
    Ok(rows)
}

pub open spec fn sat_add_u64(a: nat, b: nat) -> nat {
    if a + b > u64::MAX {
        u64::MAX as nat
    } else {
        a + b
    }
}

pub open spec fn sat_mul_1024(a: nat) -> nat {
    if a * 1024 > u64::MAX {
        u64::MAX as nat
    } else {
        a * 1024
    }
}

/// Resident bytes of the rows in group `pgid` (KiB times 1024, each step
/// saturating at `u64::MAX`).
pub open spec fn member_memory(rows: Seq<(nat, nat, nat)>, pgid: nat) -> nat
    decreases rows.len(),
{
    if rows.len() == 0 {
        0
    } else {
        let before = member_memory(rows.drop_last(), pgid);
        let r = rows.last();
        if r.1 == pgid {
            sat_add_u64(before, sat_mul_1024(r.2))
        } else {
            before
        }
    }
}

pub open spec fn has_member(rows: Seq<(nat, nat, nat)>, pgid: nat) -> bool {
    exists|i: int| 0 <= i < rows.len() && (#[trigger] rows[i]).1 == pgid
}

/// A member whose native identity still shows it live in the group.
pub open spec fn verified_member(observed: Result<ProcessIdentity, SignalError>, pgid: u32) -> bool {
    observed matches Ok(id) && id.pgid == pgid && id.status != ZOMBIE_STATUS
}

/// What a group's memory sample amounts to.
#[derive(Debug, Clone, PartialEq, Eq)]
pub enum GroupUsage {
    Sample { memory_bytes: u64 },
    Unknown(UsageGap),
}

/// Every member of group `pgid` listed before row `i` was seen as a live
/// member of the group.
pub open spec fn members_verified_before<F: Fn(u32) -> Result<ProcessIdentity, SignalError>>(
    rows: Seq<PsRow>,
    pgid: u32,
    snapshot: F,
    i: int,
) -> bool {
    forall|j: int|
        0 <= j < i && rows[j].1 == pgid ==> exists|observed: Result<ProcessIdentity, SignalError>|
            #[trigger] call_ensures(snapshot, (rows[j].0,), observed) && verified_member(observed, pgid)
}

/// Sums the resident memory of the live members of group `pgid` in a
/// listing, verifying each member's native identity through `snapshot`
/// (in listing order, stopping at the first that fails).
pub fn sample_group_memory(
    rows: &Vec<PsRow>,
    pgid: u32,
    snapshot: impl Fn(u32) -> Result<ProcessIdentity, SignalError>,
) -> (r: GroupUsage)
    requires
        forall|pid: u32| call_requires(snapshot, (pid,)),
    ensures
        ({
            let rs = rows@.map_values(|x: PsRow| row_view(x));
            &&& r matches GroupUsage::Sample { memory_bytes } ==> {
                &&& has_member(rs, pgid as nat)
                &&& memory_bytes == member_memory(rs, pgid as nat)
                &&& forall|i: int|
                    0 <= i < rows@.len() && rows@[i].1 == pgid ==> exists|
                        observed: Result<ProcessIdentity, SignalError>,
                    |
                        #[trigger] call_ensures(snapshot, (rows@[i].0,), observed) && verified_member(
                            observed,
                            pgid,
                        )
            }
            &&& r == GroupUsage::Unknown(UsageGap::NoLiveMember) ==> !has_member(rs, pgid as nat)
            &&& !has_member(rs, pgid as nat) ==> r == GroupUsage::Unknown(UsageGap::NoLiveMember)
            &&& r matches GroupUsage::Unknown(UsageGap::Changed(pid)) ==> exists|i: int|
                0 <= i < rows@.len() && rows@[i].1 == pgid && #[trigger] rows@[i].0 == pid && (exists|
                    observed: Result<ProcessIdentity, SignalError>,
                |
                    #[trigger] call_ensures(snapshot, (pid,), observed) && observed is Ok
                        && !verified_member(observed, pgid)) && members_verified_before(rows@, pgid, snapshot, i)
            &&& r matches GroupUsage::Unknown(UsageGap::Unverifiable(pid, e)) ==> exists|i: int|
                0 <= i < rows@.len() && rows@[i].1 == pgid && #[trigger] rows@[i].0 == pid
                    && call_ensures(snapshot, (pid,), Err::<ProcessIdentity, SignalError>(e))
                    && members_verified_before(rows@, pgid, snapshot, i)
            &&& r matches GroupUsage::Unknown(gap) ==> (gap is NoLiveMember || gap is Changed
                || gap is Unverifiable)
        }),
{
    let ghost rs = rows@.map_values(|x: PsRow| row_view(x));
    let mut memory: u64 = 0;
    let mut found = false;
    let mut i: usize = 0;
    while i < rows.len()
        invariant
            i <= rows@.len(),
            rs == rows@.map_values(|x: PsRow| row_view(x)),
            forall|pid: u32| call_requires(snapshot, (pid,)),
            memory == member_memory(rs.take(i as int), pgid as nat),
            found == has_member(rs.take(i as int), pgid as nat),
            forall|j: int|
                0 <= j < i && rows@[j].1 == pgid ==> exists|observed: Result<ProcessIdentity, SignalError>|
                    #[trigger] call_ensures(snapshot, (rows@[j].0,), observed) && verified_member(
                        observed,
                        pgid,
                    ),
        decreases rows@.len() - i,
    {
        let (pid, member_pgid, rss) = rows[i];
        proof {
            assert(rs.take(i + 1).drop_last() =~= rs.take(i as int));
            assert(rs.take(i + 1).last() == rs[i as int]);
        }
        if member_pgid != pgid {
            proof {
                assert(has_member(rs.take(i + 1), pgid as nat) == has_member(rs.take(i as int), pgid as nat)) by {
                    if has_member(rs.take(i + 1), pgid as nat) {
                        let k = choose|k: int| 0 <= k < rs.take(i + 1).len() && (#[trigger] rs.take(i + 1)[k]).1 == pgid;
                        assert(k != i);
                        assert(rs.take(i as int)[k] == rs.take(i + 1)[k]);
                    }
                    if has_member(rs.take(i as int), pgid as nat) {
                        let k = choose|k: int| 0 <= k < rs.take(i as int).len() && (#[trigger] rs.take(i as int)[k]).1 == pgid;
                        assert(rs.take(i as int)[k] == rs.take(i + 1)[k]);
                    }
                }
            }
            i += 1;
            continue;
        }
        let observed = snapshot(pid);
        let ghost observed_value = observed;
        match observed {
            Ok(identity) => {
                if identity.pgid == pgid && identity.status != ZOMBIE_STATUS {
                    let bytes: u64 = if rss > 18014398509481983 {
                        u64::MAX
                    } else {
                        rss * 1024
                    };
                    memory = memory.saturating_add(bytes);
                    found = true;
                    proof {
                        assert(verified_member(observed_value, pgid));
                        assert(rs.take(i + 1)[i as int].1 == pgid);
                        assert(has_member(rs.take(i + 1), pgid as nat));
                        assert forall|j: int|
                            0 <= j < i + 1 && rows@[j].1 == pgid implies exists|
                                o: Result<ProcessIdentity, SignalError>,
                            | #[trigger] call_ensures(snapshot, (rows@[j].0,), o) && verified_member(o, pgid) by {
                            if j == i {
                                assert(call_ensures(snapshot, (rows@[j].0,), observed_value));
                            }
                        }
                    }
                } else {
                    proof {
                        assert(rs[i as int].1 == pgid);
                        assert(call_ensures(snapshot, (pid,), observed_value));
                        assert(observed_value is Ok);
                        assert(!verified_member(observed_value, pgid));
                        assert(rows@[i as int].0 == pid);
                        assert(rows@[i as int].1 == pgid);
                        assert(has_member(rs, pgid as nat));
                        assert(members_verified_before(rows@, pgid, snapshot, i as int));
                        assert(exists|o: Result<ProcessIdentity, SignalError>| #[trigger] call_ensures(snapshot, (pid,), o)
                            && o is Ok && !verified_member(o, pgid));
                    }
                    return GroupUsage::Unknown(UsageGap::Changed(pid));
                }
            },
            Err(e) => {
                proof {
                    assert(rs[i as int].1 == pgid);
                    assert(call_ensures(snapshot, (pid,), observed_value));
                    assert(rows@[i as int].0 == pid);
                    assert(has_member(rs, pgid as nat));
                }
                return GroupUsage::Unknown(UsageGap::Unverifiable(pid, e));
            },
        }
        i += 1;
    }
    proof {
        assert(rs.take(i as int) =~= rs);
    }
    if !found {
        return GroupUsage::Unknown(UsageGap::NoLiveMember);
    }
    GroupUsage::Sample { memory_bytes: memory }
}

} // verus!
