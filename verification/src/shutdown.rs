//! Graceful shutdown of a dedicated process group: signal, wait out the
//! grace period, kill, wait again.  The waiting and the native calls are
//! done by the caller; this machine decides, from each result, what to do
//! next.  Only a group probe that finds the group gone (`ESRCH`) ends the
//! shutdown successfully; a permission denial is never read as success.

use vstd::prelude::*;

use crate::api::ShutdownSignalDto;
use crate::signals::{dedicated_group_id, dedicated_group_spec, SignalError, SignalTarget};

verus! {

/// `SIGTERM`.
pub const SIGTERM: i32 = 15;

/// `SIGINT`.
pub const SIGINT: i32 = 2;

/// `SIGKILL`.
pub const SIGKILL: i32 = 9;

/// Delay between two probes of a group that is still present, in
/// milliseconds.
pub const POLL_INTERVAL_MS: u64 = 100;

/// How long a group is given to disappear after the forced kill, in
/// milliseconds.
pub const FORCE_KILL_WAIT_MS: u64 = 2000;

pub open spec fn signal_of(signal: ShutdownSignalDto) -> i32 {
    match signal {
        ShutdownSignalDto::Term => SIGTERM,
        ShutdownSignalDto::Int => SIGINT,
        ShutdownSignalDto::Kill => SIGKILL,
    }
}

/// The signal number of a configured shutdown signal.
pub fn signal_number(signal: ShutdownSignalDto) -> (r: i32)
    ensures
        r == signal_of(signal),
{
    match signal {
        ShutdownSignalDto::Term => SIGTERM,
        ShutdownSignalDto::Int => SIGINT,
        ShutdownSignalDto::Kill => SIGKILL,
    }
}

/// Shuts down directly started children by signalling their group.
#[derive(Debug, Clone, Copy)]
pub struct UnixShutdown;

impl Default for UnixShutdown {
    fn default() -> (r: Self) {
        UnixShutdown
    }
}

impl UnixShutdown {
    pub fn new() -> (r: Self) {
        UnixShutdown
    }

    /// A graceful shutdown with the configured signal and grace period.
    pub fn request_graceful(&self, target: &SignalTarget, signal: ShutdownSignalDto, grace_ms: u64) -> (r: (
        ShutdownMachine,
        ShutdownAction,
    ))
        ensures
            r == ShutdownMachine::start_spec(*target, signal_of(signal), grace_ms, false),
    {
        ShutdownMachine::start(target, signal_number(signal), grace_ms, false)
    }

    /// An immediate kill of the group.
    pub fn force_kill(&self, target: &SignalTarget) -> (r: (ShutdownMachine, ShutdownAction))
        ensures
            r == ShutdownMachine::start_spec(*target, SIGKILL, 0, false),
    {
        ShutdownMachine::start(target, SIGKILL, 0, false)
    }
}

/// What the caller must do next.
#[derive(Debug, PartialEq, Eq)]
pub enum ShutdownAction {
    /// Signal the target's group after checking its leader (see
    /// `signal_target_of`).
    SignalChecked { signal: i32 },
    /// Signal the known dedicated group without re-checking its leader.
    SignalGroup { pgid: u32, signal: i32 },
    /// Probe whether the group still exists (`kill(-pgid, 0)`).
    ProbeGroup { pgid: u32 },
    /// Reap the owned leader if it has exited (`try_wait`).
    ReapLeader,
    /// Sleep for `POLL_INTERVAL_MS`.
    Sleep,
    /// Stop with this result.
    Done(Result<(), SignalError>),
}

/// What a performed action returned; `now` is the monotonic time, in
/// milliseconds, at which it returned.
#[derive(Debug, PartialEq, Eq)]
pub enum ShutdownEvent {
    Signalled { result: Result<(), SignalError>, now: u64 },
    Probed { result: Result<bool, SignalError>, now: u64 },
    Reaped { result: Result<(), String>, now: u64 },
    Slept { now: u64 },
}

/// Where the shutdown stands.
#[derive(Debug, Clone, Copy, PartialEq, Eq, Structural)]
pub enum ShutdownPhase {
    /// The checked signal was requested.
    Signalling,
    /// The checked signal found the leader gone; the group is being probed.
    ProbingAfterExit,
    /// The known group is being signalled after the leader was found gone.
    SignallingKnownGroup,
    /// Waiting for the group to go after the first signal.
    Grace { deadline: u64 },
    /// The forced kill was requested.
    Killing,
    /// Waiting for the group to go after the forced kill.
    Forced { deadline: u64 },
    /// Finished.
    Finished,
}

/// A shutdown in progress.
#[derive(Debug, Clone, Copy, PartialEq, Eq, Structural)]
pub struct ShutdownMachine {
    /// The recorded leader PID, group and token (copied in by `start`).
    pub pid: u32,
    pub group: Option<u32>,
    pub has_generation: bool,
    pub initial_signal: i32,
    pub grace_ms: u64,
    /// Whether the caller owns the leader's `Child` and can reap it.
    pub owned_leader: bool,
    pub phase: ShutdownPhase,
}

/// The dedicated group of a recorded machine, as `dedicated_group_spec`
/// computes it.
pub open spec fn machine_group(m: ShutdownMachine) -> Result<u32, SignalError> {
    match m.group {
        Some(pgid) => if pgid == 0 || pgid != m.pid || !m.has_generation {
            Err(SignalError::IdentityMismatch)
        } else {
            Ok(pgid)
        },
        None => Err(SignalError::IdentityMismatch),
    }
}

pub open spec fn target_has_generation(target: SignalTarget) -> bool {
    match target.generation {
        Some(g) => g@.len() > 0,
        None => false,
    }
}

pub open spec fn sat_add(a: u64, b: u64) -> u64 {
    if a + b > u64::MAX {
        u64::MAX
    } else {
        (a + b) as u64
    }
}

impl ShutdownMachine {
    pub open spec fn start_spec(target: SignalTarget, signal: i32, grace_ms: u64, owned_leader: bool) -> (
        ShutdownMachine,
        ShutdownAction,
    ) {
        (
            ShutdownMachine {
                pid: target.pid,
                group: target.pgid,
                has_generation: target_has_generation(target),
                initial_signal: signal,
                grace_ms,
                owned_leader,
                phase: ShutdownPhase::Signalling,
            },
            ShutdownAction::SignalChecked { signal },
        )
    }

    /// Begins ending `target`'s group with `signal`, giving it `grace_ms`
    /// before the forced kill.
    pub fn start(target: &SignalTarget, signal: i32, grace_ms: u64, owned_leader: bool) -> (r: (
        ShutdownMachine,
        ShutdownAction,
    ))
        ensures
            r == Self::start_spec(*target, signal, grace_ms, owned_leader),
            machine_group(r.0) == dedicated_group_spec(*target),
    {
        let has_generation = match &target.generation {
            Some(g) => !g.as_str().is_empty(),
            None => false,
        };
        let m = ShutdownMachine {
            pid: target.pid,
            group: target.pgid,
            has_generation,
            initial_signal: signal,
            grace_ms,
            owned_leader,
            phase: ShutdownPhase::Signalling,
        };
        (m, ShutdownAction::SignalChecked { signal })
    }

    fn group_id(&self) -> (r: Result<u32, SignalError>)
        ensures
            r == machine_group(*self),
    {
        match self.group {
            Some(pgid) => if pgid == 0 || pgid != self.pid || !self.has_generation {
                Err(SignalError::IdentityMismatch)
            } else {
                Ok(pgid)
            },
            None => Err(SignalError::IdentityMismatch),
        }
    }

    fn finish(&self, result: Result<(), SignalError>) -> (r: (ShutdownMachine, ShutdownAction))
        ensures
            r.0 == (ShutdownMachine { phase: ShutdownPhase::Finished, ..*self }),
            r.1 == ShutdownAction::Done(result),
    {
        (ShutdownMachine { phase: ShutdownPhase::Finished, ..*self }, ShutdownAction::Done(result))
    }

    /// Enters a wait: the first probe, with the deadline `now + timeout`.
    fn wait(&self, forced: bool, timeout: u64, now: u64) -> (r: (ShutdownMachine, ShutdownAction))
        ensures
            match machine_group(*self) {
                Err(e) => r == (ShutdownMachine { phase: ShutdownPhase::Finished, ..*self }, ShutdownAction::Done(Err(e))),
                Ok(pgid) => r == (
                    ShutdownMachine {
                        phase: if forced {
                            ShutdownPhase::Forced { deadline: sat_add(now, timeout) }
                        } else {
                            ShutdownPhase::Grace { deadline: sat_add(now, timeout) }
                        },
                        ..*self
                    },
                    ShutdownAction::ProbeGroup { pgid },
                ),
            },
    {
        match self.group_id() {
            Err(e) => self.finish(Err(e)),
            Ok(pgid) => {
                let deadline = now.saturating_add(timeout);
                let phase = if forced {
                    ShutdownPhase::Forced { deadline }
                } else {
                    ShutdownPhase::Grace { deadline }
                };
                (ShutdownMachine { phase, ..*self }, ShutdownAction::ProbeGroup { pgid })
            },
        }
    }

    /// A wait whose deadline passed: after the grace period the group is
    /// killed; after the forced kill the shutdown has failed.
    fn expire(&self, forced: bool) -> (r: (ShutdownMachine, ShutdownAction))
        ensures
            !forced ==> (match machine_group(*self) {
                Ok(pgid) => r == (
                    ShutdownMachine { phase: ShutdownPhase::Killing, ..*self },
                    ShutdownAction::SignalGroup { pgid, signal: SIGKILL },
                ),
                Err(e) => r == (ShutdownMachine { phase: ShutdownPhase::Finished, ..*self }, ShutdownAction::Done(Err(e))),
            }),
            forced ==> (match machine_group(*self) {
                Ok(pgid) => r == (
                    ShutdownMachine { phase: ShutdownPhase::Finished, ..*self },
                    ShutdownAction::Done(Err(SignalError::GroupExitTimeout(pgid))),
                ),
                Err(e) => r == (ShutdownMachine { phase: ShutdownPhase::Finished, ..*self }, ShutdownAction::Done(Err(e))),
            }),
    {
        match self.group_id() {
            Err(e) => self.finish(Err(e)),
            Ok(pgid) => if forced {
                self.finish(Err(SignalError::GroupExitTimeout(pgid)))
            } else {
                (
                    ShutdownMachine { phase: ShutdownPhase::Killing, ..*self },
                    ShutdownAction::SignalGroup { pgid, signal: SIGKILL },
                )
            },
        }
    }

    /// After a probe or reap that left the group in place: sleep, or expire
    /// at the deadline.
    fn continue_wait(&self, forced: bool, deadline: u64, now: u64) -> (r: (ShutdownMachine, ShutdownAction))
        ensures
            now < deadline ==> r == (*self, ShutdownAction::Sleep),
            now >= deadline ==> r == self.expire_spec(forced),
    {
        if now >= deadline {
            self.expire(forced)
        } else {
            (*self, ShutdownAction::Sleep)
        }
    }

    pub open spec fn expire_spec(self, forced: bool) -> (ShutdownMachine, ShutdownAction) {
        match machine_group(self) {
            Ok(pgid) => if forced {
                (
                    ShutdownMachine { phase: ShutdownPhase::Finished, ..self },
                    ShutdownAction::Done(Err(SignalError::GroupExitTimeout(pgid))),
                )
            } else {
                (
                    ShutdownMachine { phase: ShutdownPhase::Killing, ..self },
                    ShutdownAction::SignalGroup { pgid, signal: SIGKILL },
                )
            },
            Err(e) => (ShutdownMachine { phase: ShutdownPhase::Finished, ..self }, ShutdownAction::Done(Err(e))),
        }
    }

    /// Whether `event` answers the action this machine last asked for.
    pub open spec fn accepts(self, event: ShutdownEvent) -> bool {
        match (self.phase, event) {
            (ShutdownPhase::Signalling, ShutdownEvent::Signalled { .. }) => true,
            (ShutdownPhase::ProbingAfterExit, ShutdownEvent::Probed { .. }) => true,
            (ShutdownPhase::SignallingKnownGroup, ShutdownEvent::Signalled { .. }) => true,
            (ShutdownPhase::Killing, ShutdownEvent::Signalled { .. }) => true,
            (ShutdownPhase::Grace { .. }, ShutdownEvent::Probed { .. }) => true,
            (ShutdownPhase::Grace { .. }, ShutdownEvent::Reaped { .. }) => true,
            (ShutdownPhase::Grace { .. }, ShutdownEvent::Slept { .. }) => true,
            (ShutdownPhase::Forced { .. }, ShutdownEvent::Probed { .. }) => true,
            (ShutdownPhase::Forced { .. }, ShutdownEvent::Reaped { .. }) => true,
            (ShutdownPhase::Forced { .. }, ShutdownEvent::Slept { .. }) => true,
            _ => false,
        }
    }

    pub open spec fn finish_spec(self, result: Result<(), SignalError>) -> (ShutdownMachine, ShutdownAction) {
        (ShutdownMachine { phase: ShutdownPhase::Finished, ..self }, ShutdownAction::Done(result))
    }

    pub open spec fn wait_spec(self, forced: bool, timeout: u64, now: u64) -> (ShutdownMachine, ShutdownAction) {
        match machine_group(self) {
            Err(e) => self.finish_spec(Err(e)),
            Ok(pgid) => (
                ShutdownMachine {
                    phase: if forced {
                        ShutdownPhase::Forced { deadline: sat_add(now, timeout) }
                    } else {
                        ShutdownPhase::Grace { deadline: sat_add(now, timeout) }
                    },
                    ..self
                },
                ShutdownAction::ProbeGroup { pgid },
            ),
        }
    }

    pub open spec fn continue_spec(self, forced: bool, deadline: u64, now: u64) -> (ShutdownMachine, ShutdownAction) {
        if now >= deadline {
            self.expire_spec(forced)
        } else {
            (self, ShutdownAction::Sleep)
        }
    }

    /// The probe result while waiting (`forced` after the kill).
    pub open spec fn probed_spec(self, forced: bool, deadline: u64, result: Result<bool, SignalError>, now: u64) -> (
        ShutdownMachine,
        ShutdownAction,
    ) {
        match result {
            Ok(false) => self.finish_spec(Ok(())),
            Ok(true) => self.continue_spec(forced, deadline, now),
            Err(SignalError::PermissionDenied) => if self.owned_leader {
                (self, ShutdownAction::ReapLeader)
            } else {
                self.continue_spec(forced, deadline, now)
            },
            Err(e) => self.finish_spec(Err(e)),
        }
    }

    pub open spec fn reaped_spec(self, forced: bool, deadline: u64, result: Result<(), String>, now: u64) -> (
        ShutdownMachine,
        ShutdownAction,
    ) {
        match result {
            Ok(()) => self.continue_spec(forced, deadline, now),
            Err(message) => self.finish_spec(Err(SignalError::IoFailure(message))),
        }
    }

    pub open spec fn slept_spec(self) -> (ShutdownMachine, ShutdownAction) {
        match machine_group(self) {
            Err(e) => self.finish_spec(Err(e)),
            Ok(pgid) => (self, ShutdownAction::ProbeGroup { pgid }),
        }
    }

    /// The transition of the shutdown protocol.
    pub open spec fn step_spec(self, event: ShutdownEvent) -> (ShutdownMachine, ShutdownAction) {
        match (self.phase, event) {
            (ShutdownPhase::Signalling, ShutdownEvent::Signalled { result, now }) => match result {
                Ok(()) => self.wait_spec(false, self.grace_ms, now),
                Err(SignalError::AlreadyExited) => match machine_group(self) {
                    Err(e) => self.finish_spec(Err(e)),
                    Ok(pgid) => (
                        ShutdownMachine { phase: ShutdownPhase::ProbingAfterExit, ..self },
                        ShutdownAction::ProbeGroup { pgid },
                    ),
                },
                Err(e) => self.finish_spec(Err(e)),
            },
            (ShutdownPhase::ProbingAfterExit, ShutdownEvent::Probed { result, now }) => match result {
                Ok(false) => self.finish_spec(Ok(())),
                Ok(true) => match machine_group(self) {
                    Err(e) => self.finish_spec(Err(e)),
                    Ok(pgid) => (
                        ShutdownMachine { phase: ShutdownPhase::SignallingKnownGroup, ..self },
                        ShutdownAction::SignalGroup { pgid, signal: self.initial_signal },
                    ),
                },
                Err(e) => self.finish_spec(Err(e)),
            },
            (ShutdownPhase::SignallingKnownGroup, ShutdownEvent::Signalled { result, now }) => match result {
                Ok(()) => self.wait_spec(false, self.grace_ms, now),
                Err(e) => self.finish_spec(Err(e)),
            },
            (ShutdownPhase::Killing, ShutdownEvent::Signalled { result, now }) => match result {
                Ok(()) => self.wait_spec(true, FORCE_KILL_WAIT_MS, now),
                Err(SignalError::AlreadyExited) => self.wait_spec(true, FORCE_KILL_WAIT_MS, now),
                Err(e) => self.finish_spec(Err(e)),
            },
            (ShutdownPhase::Grace { deadline }, ShutdownEvent::Probed { result, now }) => self.probed_spec(
                false,
                deadline,
                result,
                now,
            ),
            (ShutdownPhase::Forced { deadline }, ShutdownEvent::Probed { result, now }) => self.probed_spec(
                true,
                deadline,
                result,
                now,
            ),
            (ShutdownPhase::Grace { deadline }, ShutdownEvent::Reaped { result, now }) => self.reaped_spec(
                false,
                deadline,
                result,
                now,
            ),
            (ShutdownPhase::Forced { deadline }, ShutdownEvent::Reaped { result, now }) => self.reaped_spec(
                true,
                deadline,
                result,
                now,
            ),
            (ShutdownPhase::Grace { .. }, ShutdownEvent::Slept { .. }) => self.slept_spec(),
            (ShutdownPhase::Forced { .. }, ShutdownEvent::Slept { .. }) => self.slept_spec(),
            _ => (self, ShutdownAction::Sleep),
        }
    }

    /// The next state and action after `event`, which must answer the
    /// action last asked for.
    pub fn step(&self, event: ShutdownEvent) -> (r: (ShutdownMachine, ShutdownAction))
        requires
            self.accepts(event),
        ensures
            r == self.step_spec(event),
    {
        match (self.phase, event) {
            (ShutdownPhase::Signalling, ShutdownEvent::Signalled { result, now }) => match result {
                Ok(()) => self.wait(false, self.grace_ms, now),
                Err(SignalError::AlreadyExited) => match self.group_id() {
                    Err(e) => self.finish(Err(e)),
                    Ok(pgid) => (
                        ShutdownMachine { phase: ShutdownPhase::ProbingAfterExit, ..*self },
                        ShutdownAction::ProbeGroup { pgid },
                    ),
                },
                Err(e) => self.finish(Err(e)),
            },
            (ShutdownPhase::ProbingAfterExit, ShutdownEvent::Probed { result, now }) => match result {
                Ok(false) => self.finish(Ok(())),
                Ok(true) => match self.group_id() {
                    Err(e) => self.finish(Err(e)),
                    Ok(pgid) => (
                        ShutdownMachine { phase: ShutdownPhase::SignallingKnownGroup, ..*self },
                        ShutdownAction::SignalGroup { pgid, signal: self.initial_signal },
                    ),
                },
                Err(e) => self.finish(Err(e)),
            },
            (ShutdownPhase::SignallingKnownGroup, ShutdownEvent::Signalled { result, now }) => match result {
                Ok(()) => self.wait(false, self.grace_ms, now),
                Err(e) => self.finish(Err(e)),
            },
            (ShutdownPhase::Killing, ShutdownEvent::Signalled { result, now }) => match result {
                Ok(()) => self.wait(true, FORCE_KILL_WAIT_MS, now),
                Err(SignalError::AlreadyExited) => self.wait(true, FORCE_KILL_WAIT_MS, now),
                Err(e) => self.finish(Err(e)),
            },
            (ShutdownPhase::Grace { deadline }, ShutdownEvent::Probed { result, now }) => self.probed(
                false,
                deadline,
                result,
                now,
            ),
            (ShutdownPhase::Forced { deadline }, ShutdownEvent::Probed { result, now }) => self.probed(
                true,
                deadline,
                result,
                now,
            ),
            (ShutdownPhase::Grace { deadline }, ShutdownEvent::Reaped { result, now }) => match result {
                Ok(()) => self.continue_wait(false, deadline, now),
                Err(message) => self.finish(Err(SignalError::IoFailure(message))),
            },
            (ShutdownPhase::Forced { deadline }, ShutdownEvent::Reaped { result, now }) => match result {
                Ok(()) => self.continue_wait(true, deadline, now),
                Err(message) => self.finish(Err(SignalError::IoFailure(message))),
            },
            (_, _) => match self.group_id() {
                Err(e) => self.finish(Err(e)),
                Ok(pgid) => (*self, ShutdownAction::ProbeGroup { pgid }),
            },
        }
    }

    fn probed(&self, forced: bool, deadline: u64, result: Result<bool, SignalError>, now: u64) -> (r: (
        ShutdownMachine,
        ShutdownAction,
    ))
        ensures
            r == self.probed_spec(forced, deadline, result, now),
    {
        match result {
            Ok(false) => self.finish(Ok(())),
            Ok(true) => self.continue_wait(forced, deadline, now),
            Err(SignalError::PermissionDenied) => if self.owned_leader {
                (*self, ShutdownAction::ReapLeader)
            } else {
                self.continue_wait(forced, deadline, now)
            },
            Err(e) => self.finish(Err(e)),
        }
    }
}

/// The shutdown protocol's safety: every group signal and probe goes to the
/// recorded dedicated group (its own leader's group, with a creation
/// token); success comes only from a probe that found the group gone (a
/// permission denial never counts as gone); and the forced kill follows only
/// an expired grace period.
pub proof fn lemma_shutdown_step_safe(m: ShutdownMachine, event: ShutdownEvent)
    requires
        m.accepts(event),
    ensures
        ({
            let (next, action) = m.step_spec(event);
            &&& (action matches ShutdownAction::SignalGroup { pgid, .. } ==> machine_group(m) == Ok::<
                u32,
                SignalError,
            >(pgid))
            &&& (action matches ShutdownAction::ProbeGroup { pgid } ==> machine_group(m) == Ok::<
                u32,
                SignalError,
            >(pgid))
            &&& (action == ShutdownAction::Done(Ok(())) ==> (event matches ShutdownEvent::Probed {
                result: Ok(false),
                ..
            }))
            &&& (next.phase == ShutdownPhase::Killing ==> (m.phase is Grace && action
                == ShutdownAction::SignalGroup { pgid: m.group->0, signal: SIGKILL }))
            &&& next.pid == m.pid && next.group == m.group && next.has_generation == m.has_generation
        }),
{
}

/// A machine started for a target signals and probes only that target's
/// dedicated group.
pub proof fn lemma_started_group_is_dedicated(target: SignalTarget, signal: i32, grace_ms: u64, owned: bool)
    ensures
        machine_group(ShutdownMachine::start_spec(target, signal, grace_ms, owned).0) == dedicated_group_spec(
            target,
        ),
{
}

} // verus!
