//! The detached-group reaper's side of the control protocol.  A reaper
//! lives in its own session; over a private channel the log proxy
//! announces itself (`READY`), arms it with the group anchor and the journal
//! (`ANCHOR`), lets the target start (`START`), and finally either
//! completes (`COMPLETE`) or hands cleanup over (`TAKEOVER`, or by
//! disappearing).  On cleanup the reaper removes the failed journal and
//! ends the anchored group: re-verify the anchor, `SIGTERM`, a grace
//! period, `SIGKILL` if needed, then wait for the group to go.  The reads,
//! writes, verifications, signals and sleeps are done by the caller; this
//! machine decides what comes next.

use vstd::prelude::*;

use crate::control::{decoded_path_piece, identity_view, parse_identity, parse_identity_spec, IdentityView};
use crate::hex::pair_slicing_panics;
use crate::signals::{signal_error_spec, signal_error_text, SignalError};
use crate::text::{decimal, decimal_string, push_str, str_eq};
use vstd::utf8::encode_utf8;

verus! {

/// `SIGTERM`.
pub const REAPER_SIGTERM: i32 = 15;

/// `SIGKILL`.
pub const REAPER_SIGKILL: i32 = 9;

/// Time the group is given between `SIGTERM` and `SIGKILL`, in
/// milliseconds.
pub const GRACE_PERIOD_MS: u64 = 2000;

/// Time the group is given to disappear after the last signal, in
/// milliseconds.
pub const GROUP_EXIT_TIMEOUT_MS: u64 = 5000;

/// Delay between two probes of a group that is still present, in
/// milliseconds.
pub const EXIT_POLL_MS: u64 = 25;

/// The verified anchor of a detached group and the journal it writes.
#[derive(Debug)]
pub struct Anchor {
    pub pid: u32,
    pub pgid: u32,
    pub generation: String,
    pub journal: Vec<u8>,
}

/// A reply the reaper writes on its channel.
#[derive(Debug, Clone, Copy, PartialEq, Eq, Structural)]
pub enum ReaperReply {
    Ready,
    Armed,
    Started,
    TakenOver,
}

impl ReaperReply {
    /// The line written for this reply.
    pub fn text(&self) -> (r: &'static str)
        ensures
            r@ == reply_text(*self),
    {
        match self {
            ReaperReply::Ready => "READY",
            ReaperReply::Armed => "ARMED",
            ReaperReply::Started => "STARTED",
            ReaperReply::TakenOver => "TAKEN_OVER",
        }
    }
}

pub open spec fn reply_text(r: ReaperReply) -> Seq<char> {
    match r {
        ReaperReply::Ready => "READY"@,
        ReaperReply::Armed => "ARMED"@,
        ReaperReply::Started => "STARTED"@,
        ReaperReply::TakenOver => "TAKEN_OVER"@,
    }
}

/// The step of the protocol a failure happened in (`lost`: the proxy
/// disappeared instead of asking for a takeover).
#[derive(Debug, Clone, Copy, PartialEq, Eq, Structural)]
pub enum ReaperContext {
    ReadingSetup,
    VerifyingTarget,
    AcknowledgingSetup,
    ReadingAnchor,
    VerifyingAnchor,
    AcknowledgingAnchor,
    ReadingStart,
    InvalidStart,
    AcknowledgingStart,
    ReadingControl,
    InvalidControl,
    AcknowledgingTakeover,
    RemovingJournal { lost: bool },
    Cleanup { lost: bool },
}

/// What went wrong.
#[derive(Debug, PartialEq, Eq)]
pub enum FailureDetail {
    /// A message, an I/O error, or the offending control line.
    Text(String),
    /// A native process call failed.
    Signal(SignalError),
    /// The anchored group was still present when the wait ended.
    GroupRemained(u32),
    /// The anchor's group is not the group the proxy announced.
    GroupDiffers,
}

/// What the caller must do next.
#[derive(Debug, PartialEq, Eq)]
pub enum ReaperAction {
    ReadLine,
    /// Check that `pid` is alive, leads `pgid` and carries `generation`
    /// (`verify_group_leader_with`).
    Verify { pid: u32, pgid: u32, generation: String },
    Write(ReaperReply),
    /// Remove the failed journal at this path (absent counts as removed).
    RemoveJournal { path: Vec<u8> },
    /// `kill(-pgid, signal)`: `Ok(true)` delivered, `Ok(false)` no such
    /// group.
    Signal { pgid: u32, signal: i32 },
    Sleep { ms: u64 },
    /// Exit with `code`, reporting `failure` if there is one.
    Exit { code: i32, failure: Option<(ReaperContext, FailureDetail)> },
}

/// What a performed action returned; `now` is the monotonic time in
/// milliseconds when it returned.
#[derive(Debug, PartialEq, Eq)]
pub enum ReaperEvent {
    /// A control line, `None` at end of stream.
    Line(Result<Option<String>, String>),
    Verified(Result<(), SignalError>),
    Wrote(Result<(), String>),
    Removed(Result<(), SignalError>),
    Signalled { result: Result<bool, SignalError>, now: u64 },
    Slept { now: u64 },
}

/// Where the protocol stands.
#[derive(Debug)]
pub enum ReaperPhase {
    AwaitReady,
    VerifyProxy { pgid: u32 },
    AckReady { pgid: u32 },
    AwaitAnchor { pgid: u32 },
    VerifyAnchor { anchor: Anchor },
    AckArmed { anchor: Anchor },
    AwaitStart { anchor: Anchor },
    AckStarted { anchor: Anchor },
    AwaitOutcome { anchor: Anchor },
    AckTakeover { anchor: Anchor },
    RemoveJournal { anchor: Anchor, lost: bool },
    VerifyBeforeReap { anchor: Anchor, lost: bool },
    Terminate { pgid: u32, lost: bool },
    Grace { pgid: u32, lost: bool },
    ProbeAfterGrace { pgid: u32, lost: bool },
    Kill { pgid: u32, lost: bool },
    WaitExit { pgid: u32, lost: bool, deadline: u64 },
    WaitSleep { pgid: u32, lost: bool, deadline: u64 },
    Finished,
}

/// A reaper with its debug fault flags.
#[derive(Debug)]
pub struct ReaperMachine {
    pub withhold_takeover_ack: bool,
    pub crash_after_start: bool,
    pub phase: ReaperPhase,
}

// Abstract values
pub type AnchorView = (nat, nat, Seq<char>, Seq<u8>);

pub open spec fn anchor_of(a: Anchor) -> AnchorView {
    (a.pid as nat, a.pgid as nat, a.generation@, a.journal@)
}

pub enum PhaseView {
    AwaitReady,
    VerifyProxy(nat),
    AckReady(nat),
    AwaitAnchor(nat),
    VerifyAnchor(AnchorView),
    AckArmed(AnchorView),
    AwaitStart(AnchorView),
    AckStarted(AnchorView),
    AwaitOutcome(AnchorView),
    AckTakeover(AnchorView),
    RemoveJournal(AnchorView, bool),
    VerifyBeforeReap(AnchorView, bool),
    Terminate(nat, bool),
    Grace(nat, bool),
    ProbeAfterGrace(nat, bool),
    Kill(nat, bool),
    WaitExit(nat, bool, u64),
    WaitSleep(nat, bool, u64),
    Finished,
}

pub open spec fn phase_view(p: ReaperPhase) -> PhaseView {
    match p {
        ReaperPhase::AwaitReady => PhaseView::AwaitReady,
        ReaperPhase::VerifyProxy { pgid } => PhaseView::VerifyProxy(pgid as nat),
        ReaperPhase::AckReady { pgid } => PhaseView::AckReady(pgid as nat),
        ReaperPhase::AwaitAnchor { pgid } => PhaseView::AwaitAnchor(pgid as nat),
        ReaperPhase::VerifyAnchor { anchor } => PhaseView::VerifyAnchor(anchor_of(anchor)),
        ReaperPhase::AckArmed { anchor } => PhaseView::AckArmed(anchor_of(anchor)),
        ReaperPhase::AwaitStart { anchor } => PhaseView::AwaitStart(anchor_of(anchor)),
        ReaperPhase::AckStarted { anchor } => PhaseView::AckStarted(anchor_of(anchor)),
        ReaperPhase::AwaitOutcome { anchor } => PhaseView::AwaitOutcome(anchor_of(anchor)),
        ReaperPhase::AckTakeover { anchor } => PhaseView::AckTakeover(anchor_of(anchor)),
        ReaperPhase::RemoveJournal { anchor, lost } => PhaseView::RemoveJournal(anchor_of(anchor), lost),
        ReaperPhase::VerifyBeforeReap { anchor, lost } => PhaseView::VerifyBeforeReap(
            anchor_of(anchor),
            lost,
        ),
        ReaperPhase::Terminate { pgid, lost } => PhaseView::Terminate(pgid as nat, lost),
        ReaperPhase::Grace { pgid, lost } => PhaseView::Grace(pgid as nat, lost),
        ReaperPhase::ProbeAfterGrace { pgid, lost } => PhaseView::ProbeAfterGrace(pgid as nat, lost),
        ReaperPhase::Kill { pgid, lost } => PhaseView::Kill(pgid as nat, lost),
        ReaperPhase::WaitExit { pgid, lost, deadline } => PhaseView::WaitExit(pgid as nat, lost, deadline),
        ReaperPhase::WaitSleep { pgid, lost, deadline } => PhaseView::WaitSleep(pgid as nat, lost, deadline),
        ReaperPhase::Finished => PhaseView::Finished,
    }
}

pub enum DetailView {
    Text(Seq<char>),
    Signal(SignalError),
    GroupRemained(nat),
    GroupDiffers,
}

pub enum ActionView {
    ReadLine,
    Verify(nat, nat, Seq<char>),
    Write(ReaperReply),
    RemoveJournal(Seq<u8>),
    Signal(nat, i32),
    Sleep(u64),
    Exit(i32, Option<(ReaperContext, DetailView)>),
}

pub open spec fn detail_view(d: FailureDetail) -> DetailView {
    match d {
        FailureDetail::Text(t) => DetailView::Text(t@),
        FailureDetail::Signal(e) => DetailView::Signal(e),
        FailureDetail::GroupRemained(p) => DetailView::GroupRemained(p as nat),
        FailureDetail::GroupDiffers => DetailView::GroupDiffers,
    }
}

pub open spec fn action_view(a: ReaperAction) -> ActionView {
    match a {
        ReaperAction::ReadLine => ActionView::ReadLine,
        ReaperAction::Verify { pid, pgid, generation } => ActionView::Verify(pid as nat, pgid as nat, generation@),
        ReaperAction::Write(r) => ActionView::Write(r),
        ReaperAction::RemoveJournal { path } => ActionView::RemoveJournal(path@),
        ReaperAction::Signal { pgid, signal } => ActionView::Signal(pgid as nat, signal),
        ReaperAction::Sleep { ms } => ActionView::Sleep(ms),
        ReaperAction::Exit { code, failure } => ActionView::Exit(
            code,
            match failure {
                Some((c, d)) => Some((c, detail_view(d))),
                None => None,
            },
        ),
    }
}

pub enum EventView {
    Line(Result<Option<Seq<char>>, Seq<char>>),
    Verified(Result<(), SignalError>),
    Wrote(Result<(), Seq<char>>),
    Removed(Result<(), SignalError>),
    Signalled(Result<bool, SignalError>, u64),
    Slept(u64),
}

pub open spec fn event_view(e: ReaperEvent) -> EventView {
    match e {
        ReaperEvent::Line(r) => EventView::Line(
            match r {
                Ok(Some(m)) => Ok(Some(m@)),
                Ok(None) => Ok(None),
                Err(x) => Err(x@),
            },
        ),
        ReaperEvent::Verified(r) => EventView::Verified(r),
        ReaperEvent::Wrote(r) => EventView::Wrote(
            match r {
                Ok(()) => Ok(()),
                Err(x) => Err(x@),
            },
        ),
        ReaperEvent::Removed(r) => EventView::Removed(r),
        ReaperEvent::Signalled { result, now } => EventView::Signalled(result, now),
        ReaperEvent::Slept { now } => EventView::Slept(now),
    }
}

pub open spec fn fail(c: ReaperContext, d: DetailView) -> (PhaseView, ActionView) {
    (PhaseView::Finished, ActionView::Exit(1, Some((c, d))))
}

pub open spec fn quit(code: i32) -> (PhaseView, ActionView) {
    (PhaseView::Finished, ActionView::Exit(code, None))
}

pub open spec fn deadline_after(now: u64, ms: u64) -> u64 {
    if now + ms > u64::MAX {
        u64::MAX
    } else {
        (now + ms) as u64
    }
}

/// The anchor announced by a parsed `ANCHOR` identity.
pub open spec fn announced(id: IdentityView) -> AnchorView {
    (
        id.pid,
        id.pgid,
        id.generation,
        match id.journal {
            Some(j) => j,
            None => Seq::empty(),
        },
    )
}

/// The protocol's transition over abstract values.
pub open spec fn step_view(withhold_ack: bool, crash_after_start: bool, p: PhaseView, e: EventView) -> (
    PhaseView,
    ActionView,
) {
    match (p, e) {
        (PhaseView::AwaitReady, EventView::Line(line)) => match line {
            Err(x) => fail(ReaperContext::ReadingSetup, DetailView::Text(x)),
            Ok(None) => quit(1),
            Ok(Some(m)) => match parse_identity_spec(m, "READY"@) {
                Err(x) => fail(ReaperContext::VerifyingTarget, DetailView::Text(x)),
                Ok(id) => (PhaseView::VerifyProxy(id.pgid), ActionView::Verify(id.pid, id.pgid, id.generation)),
            },
        },
        (PhaseView::VerifyProxy(pgid), EventView::Verified(r)) => match r {
            Ok(()) => (PhaseView::AckReady(pgid), ActionView::Write(ReaperReply::Ready)),
            Err(x) => fail(ReaperContext::VerifyingTarget, DetailView::Signal(x)),
        },
        (PhaseView::AckReady(pgid), EventView::Wrote(r)) => match r {
            Ok(()) => (PhaseView::AwaitAnchor(pgid), ActionView::ReadLine),
            Err(x) => fail(ReaperContext::AcknowledgingSetup, DetailView::Text(x)),
        },
        (PhaseView::AwaitAnchor(pgid), EventView::Line(line)) => match line {
            Err(x) => fail(ReaperContext::ReadingAnchor, DetailView::Text(x)),
            Ok(None) => quit(1),
            Ok(Some(m)) => match parse_identity_spec(m, "ANCHOR"@) {
                Err(x) => fail(ReaperContext::VerifyingAnchor, DetailView::Text(x)),
                Ok(id) => if id.pgid != pgid {
                    fail(ReaperContext::VerifyingAnchor, DetailView::GroupDiffers)
                } else {
                    (PhaseView::VerifyAnchor(announced(id)), ActionView::Verify(id.pid, id.pgid, id.generation))
                },
            },
        },
        (PhaseView::VerifyAnchor(a), EventView::Verified(r)) => match r {
            Ok(()) => (PhaseView::AckArmed(a), ActionView::Write(ReaperReply::Armed)),
            Err(x) => fail(ReaperContext::VerifyingAnchor, DetailView::Signal(x)),
        },
        (PhaseView::AckArmed(a), EventView::Wrote(r)) => match r {
            Ok(()) => (PhaseView::AwaitStart(a), ActionView::ReadLine),
            Err(x) => fail(ReaperContext::AcknowledgingAnchor, DetailView::Text(x)),
        },
        (PhaseView::AwaitStart(a), EventView::Line(line)) => match line {
            Err(x) => fail(ReaperContext::ReadingStart, DetailView::Text(x)),
            Ok(None) => quit(1),
            Ok(Some(m)) => if m == "START"@ {
                (PhaseView::AckStarted(a), ActionView::Write(ReaperReply::Started))
            } else {
                fail(ReaperContext::InvalidStart, DetailView::Text(m))
            },
        },
        (PhaseView::AckStarted(a), EventView::Wrote(r)) => match r {
            Ok(()) => if crash_after_start {
                quit(1)
            } else {
                (PhaseView::AwaitOutcome(a), ActionView::ReadLine)
            },
            Err(x) => fail(ReaperContext::AcknowledgingStart, DetailView::Text(x)),
        },
        (PhaseView::AwaitOutcome(a), EventView::Line(line)) => match line {
            Err(x) => fail(ReaperContext::ReadingControl, DetailView::Text(x)),
            Ok(None) => (PhaseView::RemoveJournal(a, true), ActionView::RemoveJournal(a.3)),
            Ok(Some(m)) => if m == "COMPLETE"@ {
                quit(0)
            } else if m == "TAKEOVER"@ {
                if withhold_ack {
                    (PhaseView::RemoveJournal(a, false), ActionView::RemoveJournal(a.3))
                } else {
                    (PhaseView::AckTakeover(a), ActionView::Write(ReaperReply::TakenOver))
                }
            } else {
                fail(ReaperContext::InvalidControl, DetailView::Text(m))
            },
        },
        (PhaseView::AckTakeover(a), EventView::Wrote(r)) => match r {
            Ok(()) => (PhaseView::RemoveJournal(a, false), ActionView::RemoveJournal(a.3)),
            Err(x) => fail(ReaperContext::AcknowledgingTakeover, DetailView::Text(x)),
        },
        (PhaseView::RemoveJournal(a, lost), EventView::Removed(r)) => match r {
            Ok(()) => (PhaseView::VerifyBeforeReap(a, lost), ActionView::Verify(a.0, a.1, a.2)),
            Err(x) => fail(ReaperContext::RemovingJournal { lost }, DetailView::Signal(x)),
        },
        (PhaseView::VerifyBeforeReap(a, lost), EventView::Verified(r)) => match r {
            Ok(()) => (PhaseView::Terminate(a.1, lost), ActionView::Signal(a.1, REAPER_SIGTERM)),
            Err(x) => fail(ReaperContext::Cleanup { lost }, DetailView::Signal(x)),
        },
        (PhaseView::Terminate(pgid, lost), EventView::Signalled(r, now)) => match r {
            Ok(false) => quit(0),
            Ok(true) => (PhaseView::Grace(pgid, lost), ActionView::Sleep(GRACE_PERIOD_MS)),
            Err(x) => fail(ReaperContext::Cleanup { lost }, DetailView::Signal(x)),
        },
        (PhaseView::Grace(pgid, lost), EventView::Slept(now)) => (
            PhaseView::ProbeAfterGrace(pgid, lost),
            ActionView::Signal(pgid, 0),
        ),
        (PhaseView::ProbeAfterGrace(pgid, lost), EventView::Signalled(r, now)) => match r {
            Ok(true) => (PhaseView::Kill(pgid, lost), ActionView::Signal(pgid, REAPER_SIGKILL)),
            Ok(false) => (
                PhaseView::WaitExit(pgid, lost, deadline_after(now, GROUP_EXIT_TIMEOUT_MS)),
                ActionView::Signal(pgid, 0),
            ),
            Err(x) => fail(ReaperContext::Cleanup { lost }, DetailView::Signal(x)),
        },
        (PhaseView::Kill(pgid, lost), EventView::Signalled(r, now)) => match r {
            Ok(_) => (
                PhaseView::WaitExit(pgid, lost, deadline_after(now, GROUP_EXIT_TIMEOUT_MS)),
                ActionView::Signal(pgid, 0),
            ),
            Err(x) => fail(ReaperContext::Cleanup { lost }, DetailView::Signal(x)),
        },
        (PhaseView::WaitExit(pgid, lost, deadline), EventView::Signalled(r, now)) => match r {
            Ok(false) => quit(0),
            Ok(true) => if now >= deadline {
                fail(ReaperContext::Cleanup { lost }, DetailView::GroupRemained(pgid))
            } else {
                (PhaseView::WaitSleep(pgid, lost, deadline), ActionView::Sleep(EXIT_POLL_MS))
            },
            Err(x) => fail(ReaperContext::Cleanup { lost }, DetailView::Signal(x)),
        },
        (PhaseView::WaitSleep(pgid, lost, deadline), EventView::Slept(now)) => (
            PhaseView::WaitExit(pgid, lost, deadline),
            ActionView::Signal(pgid, 0),
        ),
        _ => (p, ActionView::ReadLine),
    }
}

/// Whether `e` answers the action last asked for in phase `p`.
pub open spec fn accepts(p: PhaseView, e: EventView) -> bool {
    match (p, e) {
        (PhaseView::AwaitReady, EventView::Line(_)) => true,
        (PhaseView::VerifyProxy(_), EventView::Verified(_)) => true,
        (PhaseView::AckReady(_), EventView::Wrote(_)) => true,
        (PhaseView::AwaitAnchor(_), EventView::Line(_)) => true,
        (PhaseView::VerifyAnchor(_), EventView::Verified(_)) => true,
        (PhaseView::AckArmed(_), EventView::Wrote(_)) => true,
        (PhaseView::AwaitStart(_), EventView::Line(_)) => true,
        (PhaseView::AckStarted(_), EventView::Wrote(_)) => true,
        (PhaseView::AwaitOutcome(_), EventView::Line(_)) => true,
        (PhaseView::AckTakeover(_), EventView::Wrote(_)) => true,
        (PhaseView::RemoveJournal(_, _), EventView::Removed(_)) => true,
        (PhaseView::VerifyBeforeReap(_, _), EventView::Verified(_)) => true,
        (PhaseView::Terminate(_, _), EventView::Signalled(_, _)) => true,
        (PhaseView::Grace(_, _), EventView::Slept(_)) => true,
        (PhaseView::ProbeAfterGrace(_, _), EventView::Signalled(_, _)) => true,
        (PhaseView::Kill(_, _), EventView::Signalled(_, _)) => true,
        (PhaseView::WaitExit(_, _, _), EventView::Signalled(_, _)) => true,
        (PhaseView::WaitSleep(_, _, _), EventView::Slept(_)) => true,
        _ => false,
    }
}

/// Whether parsing the line of `e` in phase `p` would slice a journal path
/// inside a character (the helper would panic there).
pub open spec fn line_would_panic(p: PhaseView, e: EventView) -> bool {
    match (p, e) {
        (PhaseView::AwaitAnchor(_), EventView::Line(Ok(Some(m)))) => decoded_path_piece(m, "ANCHOR"@) matches Some(
            piece,
        ) && pair_slicing_panics(encode_utf8(piece)),
        _ => false,
    }
}

fn finish(code: i32, failure: Option<(ReaperContext, FailureDetail)>) -> (r: (ReaperPhase, ReaperAction))
    ensures
        phase_view(r.0) == PhaseView::Finished,
        action_view(r.1) == action_view(ReaperAction::Exit { code, failure }),
{
    (ReaperPhase::Finished, ReaperAction::Exit { code, failure })
}

impl ReaperMachine {
    /// A reaper waiting for the proxy's announcement.
    pub fn new(withhold_takeover_ack: bool, crash_after_start: bool) -> (r: (ReaperMachine, ReaperAction))
        ensures
            r.0.withhold_takeover_ack == withhold_takeover_ack,
            r.0.crash_after_start == crash_after_start,
            phase_view(r.0.phase) == PhaseView::AwaitReady,
            r.1 == ReaperAction::ReadLine,
    {
        (ReaperMachine { withhold_takeover_ack, crash_after_start, phase: ReaperPhase::AwaitReady }, ReaperAction::ReadLine)
    }

    /// The next state and action after `event`, which must answer the
    /// action last asked for.
    pub fn step(self, event: ReaperEvent) -> (r: (ReaperMachine, ReaperAction))
        requires
            accepts(phase_view(self.phase), event_view(event)),
            !line_would_panic(phase_view(self.phase), event_view(event)),
        ensures
            r.0.withhold_takeover_ack == self.withhold_takeover_ack,
            r.0.crash_after_start == self.crash_after_start,
            (phase_view(r.0.phase), action_view(r.1)) == step_view(
                self.withhold_takeover_ack,
                self.crash_after_start,
                phase_view(self.phase),
                event_view(event),
            ),
    {
        let withhold = self.withhold_takeover_ack;
        let crash = self.crash_after_start;
        let (phase, action) = step_phase(withhold, crash, self.phase, event);
        (ReaperMachine { withhold_takeover_ack: withhold, crash_after_start: crash, phase }, action)
    }
}

fn step_phase(withhold: bool, crash: bool, phase: ReaperPhase, event: ReaperEvent) -> (r: (ReaperPhase, ReaperAction))
    requires
        accepts(phase_view(phase), event_view(event)),
        !line_would_panic(phase_view(phase), event_view(event)),
    ensures
        (phase_view(r.0), action_view(r.1)) == step_view(withhold, crash, phase_view(phase), event_view(event)),
{
    match (phase, event) {
        (ReaperPhase::AwaitReady, ReaperEvent::Line(line)) => match line {
            Err(x) => finish(1, Some((ReaperContext::ReadingSetup, FailureDetail::Text(x)))),
            Ok(None) => finish(1, None),
            Ok(Some(m)) => {
                proof {
                    reveal_strlit("READY");
                    reveal_strlit("ANCHOR");
                    assert("READY"@ != "ANCHOR"@) by {
                        assert("READY"@.len() != "ANCHOR"@.len());
                    }
                }
                match parse_identity(m.as_str(), "READY") {
                    Err(x) => finish(1, Some((ReaperContext::VerifyingTarget, FailureDetail::Text(x)))),
                    Ok(id) => {
                        let pgid = id.pgid;
                        (ReaperPhase::VerifyProxy { pgid }, ReaperAction::Verify { pid: id.pid, pgid: id.pgid, generation: id.generation })
                    },
                }
            },
        },
        (ReaperPhase::VerifyProxy { pgid }, ReaperEvent::Verified(r)) => match r {
            Ok(()) => (ReaperPhase::AckReady { pgid }, ReaperAction::Write(ReaperReply::Ready)),
            Err(x) => finish(1, Some((ReaperContext::VerifyingTarget, FailureDetail::Signal(x)))),
        },
        (ReaperPhase::AckReady { pgid }, ReaperEvent::Wrote(r)) => match r {
            Ok(()) => (ReaperPhase::AwaitAnchor { pgid }, ReaperAction::ReadLine),
            Err(x) => finish(1, Some((ReaperContext::AcknowledgingSetup, FailureDetail::Text(x)))),
        },
        (ReaperPhase::AwaitAnchor { pgid }, ReaperEvent::Line(line)) => match line {
            Err(x) => finish(1, Some((ReaperContext::ReadingAnchor, FailureDetail::Text(x)))),
            Ok(None) => finish(1, None),
            Ok(Some(m)) => match parse_identity(m.as_str(), "ANCHOR") {
                Err(x) => finish(1, Some((ReaperContext::VerifyingAnchor, FailureDetail::Text(x)))),
                Ok(id) => {
                    if id.pgid != pgid {
                        finish(1, Some((ReaperContext::VerifyingAnchor, FailureDetail::GroupDiffers)))
                    } else {
                        let ghost v = identity_view(id);
                        let journal = match id.journal {
                            Some(j) => j,
                            None => Vec::new(),
                        };
                        let generation = id.generation.clone();
                        let anchor = Anchor { pid: id.pid, pgid: id.pgid, generation: id.generation, journal };
                        proof {
                            assert(anchor_of(anchor) == announced(v));
                        }
                        (ReaperPhase::VerifyAnchor { anchor }, ReaperAction::Verify { pid: id.pid, pgid: id.pgid, generation })
                    }
                },
            },
        },
        (ReaperPhase::VerifyAnchor { anchor }, ReaperEvent::Verified(r)) => match r {
            Ok(()) => (ReaperPhase::AckArmed { anchor }, ReaperAction::Write(ReaperReply::Armed)),
            Err(x) => finish(1, Some((ReaperContext::VerifyingAnchor, FailureDetail::Signal(x)))),
        },
        (ReaperPhase::AckArmed { anchor }, ReaperEvent::Wrote(r)) => match r {
            Ok(()) => (ReaperPhase::AwaitStart { anchor }, ReaperAction::ReadLine),
            Err(x) => finish(1, Some((ReaperContext::AcknowledgingAnchor, FailureDetail::Text(x)))),
        },
        (ReaperPhase::AwaitStart { anchor }, ReaperEvent::Line(line)) => match line {
            Err(x) => finish(1, Some((ReaperContext::ReadingStart, FailureDetail::Text(x)))),
            Ok(None) => finish(1, None),
            Ok(Some(m)) => if str_eq(m.as_str(), "START") {
                (ReaperPhase::AckStarted { anchor }, ReaperAction::Write(ReaperReply::Started))
            } else {
                finish(1, Some((ReaperContext::InvalidStart, FailureDetail::Text(m))))
            },
        },
        (ReaperPhase::AckStarted { anchor }, ReaperEvent::Wrote(r)) => match r {
            Ok(()) => if crash {
                finish(1, None)
            } else {
                (ReaperPhase::AwaitOutcome { anchor }, ReaperAction::ReadLine)
            },
            Err(x) => finish(1, Some((ReaperContext::AcknowledgingStart, FailureDetail::Text(x)))),
        },
        (ReaperPhase::AwaitOutcome { anchor }, ReaperEvent::Line(line)) => match line {
            Err(x) => finish(1, Some((ReaperContext::ReadingControl, FailureDetail::Text(x)))),
            Ok(None) => {
                let path = anchor.journal.clone();
                (ReaperPhase::RemoveJournal { anchor, lost: true }, ReaperAction::RemoveJournal { path })
            },
            Ok(Some(m)) => if str_eq(m.as_str(), "COMPLETE") {
                finish(0, None)
            } else if str_eq(m.as_str(), "TAKEOVER") {
                if withhold {
                    let path = anchor.journal.clone();
                    (ReaperPhase::RemoveJournal { anchor, lost: false }, ReaperAction::RemoveJournal { path })
                } else {
                    (ReaperPhase::AckTakeover { anchor }, ReaperAction::Write(ReaperReply::TakenOver))
                }
            } else {
                finish(1, Some((ReaperContext::InvalidControl, FailureDetail::Text(m))))
            },
        },
        (ReaperPhase::AckTakeover { anchor }, ReaperEvent::Wrote(r)) => match r {
            Ok(()) => {
                let path = anchor.journal.clone();
                (ReaperPhase::RemoveJournal { anchor, lost: false }, ReaperAction::RemoveJournal { path })
            },
            Err(x) => finish(1, Some((ReaperContext::AcknowledgingTakeover, FailureDetail::Text(x)))),
        },
        (ReaperPhase::RemoveJournal { anchor, lost }, ReaperEvent::Removed(r)) => match r {
            Ok(()) => {
                let pid = anchor.pid;
                let pgid = anchor.pgid;
                let generation = anchor.generation.clone();
                (ReaperPhase::VerifyBeforeReap { anchor, lost }, ReaperAction::Verify { pid, pgid, generation })
            },
            Err(x) => finish(1, Some((ReaperContext::RemovingJournal { lost }, FailureDetail::Signal(x)))),
        },
        (ReaperPhase::VerifyBeforeReap { anchor, lost }, ReaperEvent::Verified(r)) => match r {
            Ok(()) => {
                let pgid = anchor.pgid;
                (ReaperPhase::Terminate { pgid, lost }, ReaperAction::Signal { pgid, signal: REAPER_SIGTERM })
            },
            Err(x) => finish(1, Some((ReaperContext::Cleanup { lost }, FailureDetail::Signal(x)))),
        },
        (ReaperPhase::Terminate { pgid, lost }, ReaperEvent::Signalled { result, now }) => match result {
            Ok(false) => finish(0, None),
            Ok(true) => (ReaperPhase::Grace { pgid, lost }, ReaperAction::Sleep { ms: GRACE_PERIOD_MS }),
            Err(x) => finish(1, Some((ReaperContext::Cleanup { lost }, FailureDetail::Signal(x)))),
        },
        (ReaperPhase::Grace { pgid, lost }, ReaperEvent::Slept { now }) => (
            ReaperPhase::ProbeAfterGrace { pgid, lost },
            ReaperAction::Signal { pgid, signal: 0 },
        ),
        (ReaperPhase::ProbeAfterGrace { pgid, lost }, ReaperEvent::Signalled { result, now }) => match result {
            Ok(true) => (ReaperPhase::Kill { pgid, lost }, ReaperAction::Signal { pgid, signal: REAPER_SIGKILL }),
            Ok(false) => {
                let deadline = now.saturating_add(GROUP_EXIT_TIMEOUT_MS);
                (ReaperPhase::WaitExit { pgid, lost, deadline }, ReaperAction::Signal { pgid, signal: 0 })
            },
            Err(x) => finish(1, Some((ReaperContext::Cleanup { lost }, FailureDetail::Signal(x)))),
        },
        (ReaperPhase::Kill { pgid, lost }, ReaperEvent::Signalled { result, now }) => match result {
            Ok(_) => {
                let deadline = now.saturating_add(GROUP_EXIT_TIMEOUT_MS);
                (ReaperPhase::WaitExit { pgid, lost, deadline }, ReaperAction::Signal { pgid, signal: 0 })
            },
            Err(x) => finish(1, Some((ReaperContext::Cleanup { lost }, FailureDetail::Signal(x)))),
        },
        (ReaperPhase::WaitExit { pgid, lost, deadline }, ReaperEvent::Signalled { result, now }) => match result {
            Ok(false) => finish(0, None),
            Ok(true) => if now >= deadline {
                finish(1, Some((ReaperContext::Cleanup { lost }, FailureDetail::GroupRemained(pgid))))
            } else {
                (ReaperPhase::WaitSleep { pgid, lost, deadline }, ReaperAction::Sleep { ms: EXIT_POLL_MS })
            },
            Err(x) => finish(1, Some((ReaperContext::Cleanup { lost }, FailureDetail::Signal(x)))),
        },
        (ReaperPhase::WaitSleep { pgid, lost, deadline }, ReaperEvent::Slept { now }) => (
            ReaperPhase::WaitExit { pgid, lost, deadline },
            ReaperAction::Signal { pgid, signal: 0 },
        ),
        (phase, _) => (phase, ReaperAction::ReadLine),
    }
}

/// The reaper's safety: it sends a terminating signal only to the group of
/// the anchor it was armed with, whose group is the one the proxy announced
/// and whose leader it re-verified just before; after `COMPLETE` it exits
/// cleanly without signalling; and when the proxy disappears or asks for a
/// takeover after the target started, cleanup begins.
pub proof fn lemma_reaper_step_safe(withhold: bool, crash: bool, p: PhaseView, e: EventView)
    requires
        accepts(p, e),
    ensures
        ({
            let (next, action) = step_view(withhold, crash, p, e);
            &&& action matches ActionView::Signal(pgid, s) ==> ((s == REAPER_SIGTERM ==> (p matches PhaseView::VerifyBeforeReap(a, _)
                && a.1 == pgid && (e matches EventView::Verified(Ok(_))))) && (s == REAPER_SIGKILL ==> (
            p matches PhaseView::ProbeAfterGrace(g, _) && g == pgid && (e matches EventView::Signalled(
                Ok(true),
                _,
            )))))
            &&& next matches PhaseView::VerifyAnchor(a) ==> (p matches PhaseView::AwaitAnchor(proxy) && a.1
                == proxy)
            &&& p matches PhaseView::AwaitOutcome(a) ==> ((e == EventView::Line(Ok(Some("COMPLETE"@)))
                ==> action == ActionView::Exit(0, None)) && (e == EventView::Line(Ok(None)) ==> next
                == PhaseView::RemoveJournal(a, true)))
        }),
{
    reveal_strlit("COMPLETE");
    reveal_strlit("TAKEOVER");
    reveal_strlit("START");
    assert("COMPLETE"@ != "TAKEOVER"@) by {
        assert("COMPLETE"@[0] != "TAKEOVER"@[0]);
    }
}

/// Whatever the reaper does to a group after it was armed is aimed at the
/// anchored group: every phase of cleanup carries the anchor's group.
pub proof fn lemma_cleanup_keeps_anchor_group(withhold: bool, crash: bool, a: AnchorView, lost: bool, e: EventView)
    requires
        accepts(PhaseView::VerifyBeforeReap(a, lost), e),
    ensures
        ({
            let (next, action) = step_view(withhold, crash, PhaseView::VerifyBeforeReap(a, lost), e);
            &&& (next matches PhaseView::Terminate(g, _) ==> g == a.1)
            &&& (action matches ActionView::Signal(g, _) ==> g == a.1)
        }),
{
}


/// The context line of a reaper's failure report.
pub open spec fn context_spec(c: ReaperContext) -> Seq<char> {
    match c {
        ReaperContext::ReadingSetup => "reading detached reaper setup failed"@,
        ReaperContext::VerifyingTarget => "verifying detached target group failed"@,
        ReaperContext::AcknowledgingSetup => "acknowledging detached reaper setup failed"@,
        ReaperContext::ReadingAnchor => "reading detached anchor setup failed"@,
        ReaperContext::VerifyingAnchor => "verifying detached group anchor failed"@,
        ReaperContext::AcknowledgingAnchor => "acknowledging detached anchor failed"@,
        ReaperContext::ReadingStart => "reading detached reaper start failed"@,
        ReaperContext::InvalidStart => "invalid detached reaper start message"@,
        ReaperContext::AcknowledgingStart => "acknowledging detached target start failed"@,
        ReaperContext::ReadingControl => "reading detached reaper control failed"@,
        ReaperContext::InvalidControl => "invalid detached reaper control message"@,
        ReaperContext::AcknowledgingTakeover => "acknowledging detached cleanup takeover failed"@,
        ReaperContext::RemovingJournal { lost } => if lost {
            "removing failed detached journal after proxy loss failed"@
        } else {
            "removing failed detached journal failed"@
        },
        ReaperContext::Cleanup { lost } => if lost {
            "detached target group cleanup after proxy loss failed"@
        } else {
            "detached target group cleanup failed"@
        },
    }
}

/// The context line of a reaper's failure report.
pub fn context_text(c: ReaperContext) -> (r: &'static str)
    ensures
        r@ == context_spec(c),
{
    match c {
        ReaperContext::ReadingSetup => "reading detached reaper setup failed",
        ReaperContext::VerifyingTarget => "verifying detached target group failed",
        ReaperContext::AcknowledgingSetup => "acknowledging detached reaper setup failed",
        ReaperContext::ReadingAnchor => "reading detached anchor setup failed",
        ReaperContext::VerifyingAnchor => "verifying detached group anchor failed",
        ReaperContext::AcknowledgingAnchor => "acknowledging detached anchor failed",
        ReaperContext::ReadingStart => "reading detached reaper start failed",
        ReaperContext::InvalidStart => "invalid detached reaper start message",
        ReaperContext::AcknowledgingStart => "acknowledging detached target start failed",
        ReaperContext::ReadingControl => "reading detached reaper control failed",
        ReaperContext::InvalidControl => "invalid detached reaper control message",
        ReaperContext::AcknowledgingTakeover => "acknowledging detached cleanup takeover failed",
        ReaperContext::RemovingJournal { lost } => if lost {
            "removing failed detached journal after proxy loss failed"
        } else {
            "removing failed detached journal failed"
        },
        ReaperContext::Cleanup { lost } => if lost {
            "detached target group cleanup after proxy loss failed"
        } else {
            "detached target group cleanup failed"
        },
    }
}

/// The detail of a reaper's failure report.
pub open spec fn detail_spec(d: FailureDetail) -> Seq<char> {
    match d {
        FailureDetail::Text(t) => t@,
        FailureDetail::Signal(e) => signal_error_spec(e),
        FailureDetail::GroupRemained(pgid) => "process group "@ + decimal(pgid as nat)
            + " remained after detached cleanup"@,
        FailureDetail::GroupDiffers => "anchor process group differs from proxy group"@,
    }
}

/// A reaper's failure report: `<context>: <detail>`.
pub fn failure_report(c: ReaperContext, d: &FailureDetail) -> (r: String)
    ensures
        r@ == context_spec(c) + ": "@ + detail_spec(*d),
{
    let mut r = context_text(c).to_string();
    push_str(&mut r, ": ");
    match d {
        FailureDetail::Text(t) => push_str(&mut r, t.as_str()),
        FailureDetail::Signal(e) => {
            let t = signal_error_text(e);
            push_str(&mut r, t.as_str());
        },
        FailureDetail::GroupRemained(pgid) => {
            push_str(&mut r, "process group ");
            let n = decimal_string(*pgid as u64);
            push_str(&mut r, n.as_str());
            push_str(&mut r, " remained after detached cleanup");
        },
        FailureDetail::GroupDiffers => push_str(&mut r, "anchor process group differs from proxy group"),
    }
    r
}

} // verus!
