//! Process-group signalling decisions.  A dedicated process group may be
//! signalled only while its leader, group id and creation token still match
//! the recorded handle.  The library decides from the snapshots which group
//! may be signalled and what the attempt returns; the caller reads the
//! snapshots and makes the `kill` call only on a group it was given.

use vstd::prelude::*;

use crate::text::{decimal, decimal_string, push_str, str_eq};

verus! {

/// `SZOMB`, the kernel status of a zombie process.
pub const ZOMBIE_STATUS: u32 = 5;

/// One native snapshot of a process: PID, process group, kernel status and
/// creation token (`macos-libproc:<sec>:<usec>`).
#[derive(Debug, Clone, PartialEq, Eq)]
pub struct ProcessIdentity {
    pub pid: u32,
    pub pgid: u32,
    pub status: u32,
    pub generation: String,
}

impl ProcessIdentity {
    /// Whether the process has exited but was not reaped yet.
    pub fn is_zombie(&self) -> (r: bool)
        ensures
            r == (self.status == ZOMBIE_STATUS),
    {
        self.status == ZOMBIE_STATUS
    }
}

/// Why a signal was not delivered (or an identity could not be read).
#[derive(Debug, Clone, PartialEq, Eq)]
pub enum SignalError {
    AlreadyExited,
    PermissionDenied,
    IdentityMismatch,
    IoFailure(String),
    /// The dedicated group was still present after the forced kill.
    GroupExitTimeout(u32),
}

/// What a supervisor recorded about a child it started in its own group.
#[derive(Debug, Clone)]
pub struct SignalTarget {
    pub pid: u32,
    pub pgid: Option<u32>,
    pub generation: Option<String>,
}

/// `macos-libproc:<start seconds>:<start microseconds>`.
pub open spec fn generation_token_spec(seconds: u64, micros: u64) -> Seq<char> {
    "macos-libproc:"@ + decimal(seconds as nat) + ":"@ + decimal(micros as nat)
}

/// The creation token of a process started at `seconds`.`micros`.
pub fn generation_token(seconds: u64, micros: u64) -> (r: String)
    ensures
        r@ == generation_token_spec(seconds, micros),
{
    let mut r = "macos-libproc:".to_string();
    let s = decimal_string(seconds);
    push_str(&mut r, s.as_str());
    push_str(&mut r, ":");
    let u = decimal_string(micros);
    push_str(&mut r, u.as_str());
    r
}

/// `ESRCH`: no such process.
pub const ESRCH: i32 = 3;

/// `EPERM`: operation not permitted.
pub const EPERM: i32 = 1;

/// The signalling error of a failed system call: a missing process has
/// already exited, a refused one is a permission denial, anything else is an
/// I/O failure carrying the system's message.
pub fn os_error(errno: Option<i32>, message: String) -> (r: SignalError)
    ensures
        r == (match errno {
            Some(ESRCH) => SignalError::AlreadyExited,
            Some(EPERM) => SignalError::PermissionDenied,
            _ => SignalError::IoFailure(message),
        }),
{
    match errno {
        Some(ESRCH) => SignalError::AlreadyExited,
        Some(EPERM) => SignalError::PermissionDenied,
        _ => SignalError::IoFailure(message),
    }
}

/// What the kernel reports of a process (`proc_bsdinfo`): PID, group,
/// status and start time.
#[derive(Debug, Clone, Copy, PartialEq, Eq, Structural)]
pub struct BsdInfo {
    pub pid: u32,
    pub pgid: u32,
    pub status: u32,
    pub start_seconds: u64,
    pub start_micros: u64,
}

/// The identity of process `pid` from the kernel's report `raw`: PID 0 is
/// never a process, a failed read stays an error, and a report about
/// another PID is refused.
pub fn identity_from_info(pid: u32, raw: Result<BsdInfo, SignalError>) -> (r: Result<ProcessIdentity, SignalError>)
    ensures
        pid == 0 ==> r == Err::<ProcessIdentity, SignalError>(SignalError::AlreadyExited),
        pid != 0 ==> match raw {
            Err(e) => r == Err::<ProcessIdentity, SignalError>(e),
            Ok(info) => if info.pid != pid {
                r == Err::<ProcessIdentity, SignalError>(SignalError::IdentityMismatch)
            } else {
                r matches Ok(id) && id.pid == pid && id.pgid == info.pgid && id.status == info.status
                    && id.generation@ == generation_token_spec(info.start_seconds, info.start_micros)
            },
        },
{
    if pid == 0 {
        return Err(SignalError::AlreadyExited);
    }
    match raw {
        Err(e) => Err(e),
        Ok(info) => {
            if info.pid != pid {
                Err(SignalError::IdentityMismatch)
            } else {
                Ok(ProcessIdentity {
                    pid: info.pid,
                    pgid: info.pgid,
                    status: info.status,
                    generation: generation_token(info.start_seconds, info.start_micros),
                })
            }
        },
    }
}

/// The text of a signalling error.
pub open spec fn signal_error_spec(e: SignalError) -> Seq<char> {
    match e {
        SignalError::AlreadyExited => "process already exited"@,
        SignalError::PermissionDenied => "permission denied"@,
        SignalError::IdentityMismatch => "process identity mismatch"@,
        SignalError::IoFailure(m) => m@,
        SignalError::GroupExitTimeout(pgid) => "process group "@ + decimal(pgid as nat) + " did not exit"@,
    }
}

/// The text of a signalling error.
pub fn signal_error_text(e: &SignalError) -> (r: String)
    ensures
        r@ == signal_error_spec(*e),
{
    match e {
        SignalError::AlreadyExited => "process already exited".to_string(),
        SignalError::PermissionDenied => "permission denied".to_string(),
        SignalError::IdentityMismatch => "process identity mismatch".to_string(),
        SignalError::IoFailure(m) => m.clone(),
        SignalError::GroupExitTimeout(pgid) => {
            let mut r = "process group ".to_string();
            let n = decimal_string(*pgid as u64);
            push_str(&mut r, n.as_str());
            push_str(&mut r, " did not exit");
            r
        },
    }
}

/// The handle names a dedicated group led by its own process, and the
/// snapshot shows that leader with that group and creation token.
pub open spec fn identity_matches(target: SignalTarget, actual: ProcessIdentity) -> bool {
    match (target.pgid, target.generation) {
        (Some(pgid), Some(generation)) => {
            &&& pgid != 0
            &&& pgid == target.pid
            &&& actual.pid == target.pid
            &&& actual.pgid == pgid
            &&& actual.generation@ == generation@
        },
        _ => false,
    }
}

/// Whether `actual` is the leader recorded in `target`.
pub fn matches_identity(target: &SignalTarget, actual: &ProcessIdentity) -> (r: bool)
    ensures
        r == identity_matches(*target, *actual),
{
    match (&target.pgid, &target.generation) {
        (Some(pgid), Some(generation)) => *pgid != 0 && *pgid == target.pid && actual.pid
            == target.pid && actual.pgid == *pgid && str_eq(
            actual.generation.as_str(),
            generation.as_str(),
        ),
        _ => false,
    }
}

/// Whether a live (non-zombie) leader matching the handle was observed.
pub open spec fn handle_matches_spec(target: SignalTarget, observed: Result<ProcessIdentity, SignalError>) -> bool {
    match observed {
        Ok(actual) => identity_matches(target, actual) && actual.status != ZOMBIE_STATUS,
        Err(_) => false,
    }
}

/// Whether the handle's leader is alive and still the recorded one, given
/// its snapshot.
pub fn matches_handle_with(target: &SignalTarget, observed: &Result<ProcessIdentity, SignalError>) -> (r:
    bool)
    ensures
        r == handle_matches_spec(*target, *observed),
{
    match observed {
        Ok(actual) => matches_identity(target, actual) && !actual.is_zombie(),
        Err(_) => false,
    }
}

pub open spec fn dedicated_group_spec(target: SignalTarget) -> Result<u32, SignalError> {
    match target.pgid {
        Some(pgid) => if pgid == 0 || pgid != target.pid || match target.generation {
            Some(g) => g@.len() == 0,
            None => true,
        } {
            Err(SignalError::IdentityMismatch)
        } else {
            Ok(pgid)
        },
        None => Err(SignalError::IdentityMismatch),
    }
}

/// The dedicated group of a handle: its own leader's group, with a
/// recorded creation token.
pub fn dedicated_group_id(target: &SignalTarget) -> (r: Result<u32, SignalError>)
    ensures
        r == dedicated_group_spec(*target),
{
    let pgid = match target.pgid {
        Some(p) => p,
        None => {
            return Err(SignalError::IdentityMismatch);
        },
    };
    let no_generation = match &target.generation {
        Some(g) => g.as_str().is_empty(),
        None => true,
    };
    if pgid == 0 || pgid != target.pid || no_generation {
        return Err(SignalError::IdentityMismatch);
    }
    Ok(pgid)
}

/// The group a signal to a known dedicated group goes to: group 0 (the
/// caller's own group) is never signalled.
pub fn group_to_signal(pgid: u32) -> (r: Option<u32>)
    ensures
        r == (if pgid == 0 {
            None::<u32>
        } else {
            Some(pgid)
        }),
{
    if pgid == 0 {
        None
    } else {
        Some(pgid)
    }
}

/// The check before a checked signal: the leader must be alive and still
/// match the handle; the group to signal is the observed one.
pub open spec fn pre_signal(target: SignalTarget, before: Result<ProcessIdentity, SignalError>) -> Result<
    u32,
    SignalError,
> {
    match before {
        Err(e) => Err(e),
        Ok(actual) => if actual.status == ZOMBIE_STATUS {
            Err(SignalError::AlreadyExited)
        } else if !identity_matches(target, actual) {
            Err(SignalError::IdentityMismatch)
        } else {
            Ok(actual.pgid)
        },
    }
}

/// The check after a delivered signal: a zombie or the same leader is fine
/// (its owner reaps it); a different live process is a recycled PID; a probe
/// that finds the leader gone or unreadable does not undo the delivery.
pub open spec fn post_signal(target: SignalTarget, after: Result<ProcessIdentity, SignalError>) -> Result<
    (),
    SignalError,
> {
    match after {
        Ok(actual) => if actual.status == ZOMBIE_STATUS || identity_matches(target, actual) {
            Ok(())
        } else {
            Err(SignalError::IdentityMismatch)
        },
        Err(SignalError::AlreadyExited) => Ok(()),
        Err(SignalError::PermissionDenied) => Ok(()),
        Err(e) => Err(e),
    }
}

/// Whether a delivery attempt counts as sent: delivered, or the group was
/// already gone.
pub open spec fn delivered(sent: Result<(), SignalError>) -> bool {
    sent matches Ok(()) || sent matches Err(SignalError::AlreadyExited)
}

/// What a checked signal returns, given the snapshot before, what the
/// delivery returned and the snapshot after.
pub open spec fn checked_signal_result(
    target: SignalTarget,
    before: Result<ProcessIdentity, SignalError>,
    sent: Result<(), SignalError>,
    after: Result<ProcessIdentity, SignalError>,
) -> Result<(), SignalError> {
    match pre_signal(target, before) {
        Err(e) => Err(e),
        Ok(_) => if delivered(sent) {
            post_signal(target, after)
        } else {
            match sent {
                Err(e) => Err(e),
                Ok(()) => Ok(()),
            }
        },
    }
}

/// The group a checked signal may be sent to, from the snapshot taken just
/// before: the leader must be alive and still match the handle.  On `Err`
/// nothing may be sent, and the error is the checked signal's result.
pub fn signal_target_of(target: &SignalTarget, before: Result<ProcessIdentity, SignalError>) -> (r: Result<
    u32,
    SignalError,
>)
    ensures
        r == pre_signal(*target, before),
{
    match before {
        Err(e) => Err(e),
        Ok(actual) => {
            if actual.is_zombie() {
                Err(SignalError::AlreadyExited)
            } else if !matches_identity(target, &actual) {
                Err(SignalError::IdentityMismatch)
            } else {
                Ok(actual.pgid)
            }
        },
    }
}

/// Whether the snapshot after a delivery attempt is needed: only when the
/// signal counts as sent.
pub fn needs_post_check(sent: &Result<(), SignalError>) -> (r: bool)
    ensures
        r == delivered(*sent),
{
    match sent {
        Ok(()) => true,
        Err(SignalError::AlreadyExited) => true,
        Err(_) => false,
    }
}

/// What a checked signal returns, given the snapshot before, what the
/// delivery to `signal_target_of`'s group returned and the snapshot after
/// (read only when `needs_post_check` says so; otherwise ignored).  A group
/// that is already gone counts as signalled.
pub fn signal_outcome(
    target: &SignalTarget,
    before: Result<ProcessIdentity, SignalError>,
    sent: Result<(), SignalError>,
    after: Result<ProcessIdentity, SignalError>,
) -> (r: Result<(), SignalError>)
    ensures
        r == checked_signal_result(*target, before, sent, after),
{
    if let Err(e) = signal_target_of(target, before) {
        return Err(e);
    }
    match sent {
        Ok(()) => {},
        Err(SignalError::AlreadyExited) => {},
        Err(error) => {
            return Err(error);
        },
    }
    match after {
        Ok(a) => {
            if a.is_zombie() || matches_identity(target, &a) {
                Ok(())
            } else {
                Err(SignalError::IdentityMismatch)
            }
        },
        Err(SignalError::AlreadyExited) => Ok(()),
        Err(SignalError::PermissionDenied) => Ok(()),
        Err(error) => Err(error),
    }
}

pub open spec fn exists_spec(pid: u32, observed: Result<ProcessIdentity, SignalError>) -> Result<
    bool,
    SignalError,
> {
    match observed {
        Ok(actual) => Ok(actual.status != ZOMBIE_STATUS),
        Err(SignalError::AlreadyExited) => Ok(false),
        Err(e) => Err(e),
    }
}

/// Whether process `pid` exists, without reading a permission denial as
/// "exited"; PID 0 never exists.
pub fn process_exists_with(pid: u32, snapshot: impl FnOnce(u32) -> Result<ProcessIdentity, SignalError>) -> (r:
    Result<bool, SignalError>)
    requires
        call_requires(snapshot, (pid,)),
    ensures
        pid == 0 ==> r == Ok::<bool, SignalError>(false),
        pid != 0 ==> exists|observed: Result<ProcessIdentity, SignalError>|
            #![trigger exists_spec(pid, observed)]
            call_ensures(snapshot, (pid,), observed) && r == exists_spec(pid, observed),
{
    if pid == 0 {
        return Ok(false);
    }
    let observed = snapshot(pid);
    let ghost observed_value = observed;
    let r = match observed {
        Ok(identity) => Ok(!identity.is_zombie()),
        Err(SignalError::AlreadyExited) => Ok(false),
        Err(error) => Err(error),
    };
    proof {
        assert(call_ensures(snapshot, (pid,), observed_value) && r == exists_spec(pid, observed_value));
    }
    r
}

pub open spec fn leader_verified_spec(
    pid: u32,
    pgid: u32,
    expected_generation: Seq<char>,
    observed: Result<ProcessIdentity, SignalError>,
) -> Result<(), SignalError> {
    match observed {
        Err(e) => Err(e),
        Ok(identity) => if identity.status == ZOMBIE_STATUS || identity.pid != pid || identity.pgid
            != pgid || identity.generation@ != expected_generation {
            Err(SignalError::IdentityMismatch)
        } else {
            Ok(())
        },
    }
}

/// Verifies a dedicated group leader immediately before a cleanup helper
/// signals its group: alive, same PID, group and creation token.
pub fn verify_group_leader_with(
    pid: u32,
    pgid: u32,
    expected_generation: &str,
    snapshot: impl FnOnce(u32) -> Result<ProcessIdentity, SignalError>,
) -> (r: Result<(), SignalError>)
    requires
        call_requires(snapshot, (pid,)),
    ensures
        exists|observed: Result<ProcessIdentity, SignalError>|
            #![trigger leader_verified_spec(pid, pgid, expected_generation@, observed)]
            call_ensures(snapshot, (pid,), observed) && r == leader_verified_spec(
                pid,
                pgid,
                expected_generation@,
                observed,
            ),
{
    let observed = snapshot(pid);
    let ghost observed_value = observed;
    let r = match observed {
        Err(e) => Err(e),
        Ok(identity) => {
            if identity.is_zombie() || identity.pid != pid || identity.pgid != pgid || !str_eq(
                identity.generation.as_str(),
                expected_generation,
            ) {
                Err(SignalError::IdentityMismatch)
            } else {
                Ok(())
            }
        },
    };
    proof {
        assert(call_ensures(snapshot, (pid,), observed_value) && r == leader_verified_spec(
            pid,
            pgid,
            expected_generation@,
            observed_value,
        ));
    }
    r
}

/// A checked signal never reaches `send_signal` for a group other than the
/// handle's own: whenever the pre-signal check passes, the group to signal
/// is the recorded dedicated group led by the recorded PID.
pub proof fn lemma_checked_signal_targets_own_group(
    target: SignalTarget,
    before: Result<ProcessIdentity, SignalError>,
)
    ensures
        pre_signal(target, before) matches Ok(pgid) ==> {
            &&& target.pgid == Some(pgid)
            &&& pgid == target.pid
            &&& pgid != 0
            &&& dedicated_group_spec(target) == Ok::<u32, SignalError>(pgid) || (
            target.generation matches Some(g) && g@.len() == 0)
        },
{
}

} // verus!
