//! The decisions of a detached process's log proxy once its journal is
//! open: it starts and checks the group anchor, arms the cleanup owners,
//! starts the target, journals every output line under the next sequence,
//! and decides how it exits.  The host performs the actions of each step in
//! order; only the last action's outcome is reported back as the next event
//! (the outcomes of the earlier ones are ignored).

use vstd::prelude::*;

use crate::control::{anchor_message, anchor_message_text, identity_message, identity_message_text};
use crate::journal::{sat_inc, LogStream};
use crate::signals::{signal_error_spec, signal_error_text, ProcessIdentity, SignalError, ZOMBIE_STATUS};
use crate::text::{push_str, str_eq};

verus! {

/// Where the proxy stands: which outcome it waits for.
#[derive(Debug, Clone, Copy, PartialEq, Eq, Structural)]
pub enum ProxyPhase {
    AwaitAnchor,
    AwaitAnchorIdentity,
    AwaitArmed,
    AwaitStart,
    AwaitSpawn,
    AwaitLine,
    AwaitAppend,
    AwaitTakeover,
    /// The target ended with this exit code; its terminal line is being
    /// journalled.
    AwaitTerminal { exit_code: i32 },
    /// The cleanup owners are being told the run completed.
    AwaitComplete { exit_code: i32 },
    Done,
}

/// What a performed action returned.
#[derive(Debug)]
pub enum ProxyEvent {
    AnchorSpawned(Result<(), String>),
    /// The anchor's identity as read, and the proxy's own PID.
    AnchorObserved { proxy_pid: u32, observed: Result<ProcessIdentity, SignalError> },
    Armed(Result<(), String>),
    StartConfirmed(Result<(), String>),
    TargetSpawned(Result<(), String>),
    Appended(Result<(), String>),
    /// The next output line of the target, `None` once both streams closed.
    Line(Option<(LogStream, String)>),
    /// The target's exit code (if it has one) and its status text, or why
    /// waiting failed.
    TargetEnded(Result<(Option<i32>, String), String>),
    TakenOver(Result<(), String>),
    Completed(Result<(), String>),
}

/// What the host does.
#[derive(Debug)]
pub enum ProxyAction {
    /// Start the group anchor (this program with `--group-anchor`).
    SpawnAnchor,
    /// Read the anchor's identity.
    ObserveAnchor,
    /// Send this `ANCHOR` line to every cleanup owner and expect `ARMED`.
    Arm(String),
    /// Send `START` to every cleanup owner and expect `STARTED`.
    ConfirmStart,
    /// Start the target with piped output.
    SpawnTarget,
    /// Journal one line under a sequence number.
    Append(u64, LogStream, String),
    /// Wait for the target's next output line.
    NextLine,
    /// Wait for the target to exit.
    WaitTarget,
    /// Send `TAKEOVER` to every cleanup owner and expect `TAKEN_OVER`.
    Takeover,
    /// Send `COMPLETE` to every cleanup owner.
    Complete,
    /// Kill and reap the group anchor.
    StopAnchor,
    /// Close and delete the journal.
    RemoveJournal,
    /// Print this line to standard error.
    Report(String),
    /// Exit with this code.
    Exit(i32),
}

/// A proxy: its phase, the sequence the next line gets, and the journal's
/// path (announced to the cleanup owners).
#[derive(Debug)]
pub struct ProxyMachine {
    pub phase: ProxyPhase,
    pub sequence: u64,
    pub journal: Vec<u8>,
}

pub enum ProxyActionView {
    SpawnAnchor,
    ObserveAnchor,
    Arm(Seq<char>),
    ConfirmStart,
    SpawnTarget,
    Append(u64, LogStream, Seq<char>),
    NextLine,
    WaitTarget,
    Takeover,
    Complete,
    StopAnchor,
    RemoveJournal,
    Report(Seq<char>),
    Exit(i32),
}

pub open spec fn proxy_action_view(a: ProxyAction) -> ProxyActionView {
    match a {
        ProxyAction::SpawnAnchor => ProxyActionView::SpawnAnchor,
        ProxyAction::ObserveAnchor => ProxyActionView::ObserveAnchor,
        ProxyAction::Arm(t) => ProxyActionView::Arm(t@),
        ProxyAction::ConfirmStart => ProxyActionView::ConfirmStart,
        ProxyAction::SpawnTarget => ProxyActionView::SpawnTarget,
        ProxyAction::Append(s, st, l) => ProxyActionView::Append(s, st, l@),
        ProxyAction::NextLine => ProxyActionView::NextLine,
        ProxyAction::WaitTarget => ProxyActionView::WaitTarget,
        ProxyAction::Takeover => ProxyActionView::Takeover,
        ProxyAction::Complete => ProxyActionView::Complete,
        ProxyAction::StopAnchor => ProxyActionView::StopAnchor,
        ProxyAction::RemoveJournal => ProxyActionView::RemoveJournal,
        ProxyAction::Report(t) => ProxyActionView::Report(t@),
        ProxyAction::Exit(c) => ProxyActionView::Exit(c),
    }
}

pub open spec fn actions_view(actions: Seq<ProxyAction>) -> Seq<ProxyActionView> {
    actions.map_values(|a: ProxyAction| proxy_action_view(a))
}

impl View for ProxyMachine {
    type V = (ProxyPhase, u64, Seq<u8>);

    open spec fn view(&self) -> (ProxyPhase, u64, Seq<u8>) {
        (self.phase, self.sequence, self.journal@)
    }
}

/// The events each phase waits for.
pub open spec fn proxy_accepts(phase: ProxyPhase, event: ProxyEvent) -> bool {
    match phase {
        ProxyPhase::AwaitAnchor => event is AnchorSpawned,
        ProxyPhase::AwaitAnchorIdentity => event is AnchorObserved,
        ProxyPhase::AwaitArmed => event is Armed,
        ProxyPhase::AwaitStart => event is StartConfirmed,
        ProxyPhase::AwaitSpawn => event is TargetSpawned,
        ProxyPhase::AwaitLine => event is Line || event is TargetEnded,
        ProxyPhase::AwaitAppend => event is Appended,
        ProxyPhase::AwaitTakeover => event is TakenOver,
        ProxyPhase::AwaitTerminal { .. } => event is Appended,
        ProxyPhase::AwaitComplete { .. } => event is Completed,
        ProxyPhase::Done => false,
    }
}

/// Whether the anchor may stand for the group: it is alive and in the
/// proxy's own group.
pub open spec fn anchor_usable(proxy_pid: u32, observed: Result<ProcessIdentity, SignalError>) -> bool {
    observed matches Ok(id) && id.pgid == proxy_pid && id.status != ZOMBIE_STATUS
}

/// One step of the proxy.
pub open spec fn proxy_step_spec(m: (ProxyPhase, u64, Seq<u8>), e: ProxyEvent) -> (
    (ProxyPhase, u64, Seq<u8>),
    Seq<ProxyActionView>,
) {
    let (phase, seq, journal) = m;
    let done = (ProxyPhase::Done, seq, journal);
    match e {
        ProxyEvent::AnchorSpawned(Err(x)) => (
            done,
            seq![
                ProxyActionView::Report("starting detached group anchor failed: "@ + x@),
                ProxyActionView::Complete,
                ProxyActionView::Exit(1),
            ],
        ),
        ProxyEvent::AnchorSpawned(Ok(())) => (
            (ProxyPhase::AwaitAnchorIdentity, seq, journal),
            seq![ProxyActionView::ObserveAnchor],
        ),
        ProxyEvent::AnchorObserved { proxy_pid, observed } => if anchor_usable(proxy_pid, observed) {
            let id = observed->Ok_0;
            (
                (ProxyPhase::AwaitArmed, seq, journal),
                seq![ProxyActionView::Arm(anchor_message(id.pid as nat, id.pgid as nat, id.generation@, journal))],
            )
        } else {
            (
                done,
                seq![
                    ProxyActionView::Report("detached group anchor did not expose a matching live identity"@),
                    ProxyActionView::StopAnchor,
                    ProxyActionView::Complete,
                    ProxyActionView::Exit(1),
                ],
            )
        },
        ProxyEvent::Armed(Err(x)) => (
            done,
            seq![
                ProxyActionView::Report("arming detached group cleanup owners failed: "@ + x@),
                ProxyActionView::StopAnchor,
                ProxyActionView::Exit(1),
            ],
        ),
        ProxyEvent::Armed(Ok(())) => ((ProxyPhase::AwaitStart, seq, journal), seq![ProxyActionView::ConfirmStart]),
        ProxyEvent::StartConfirmed(Err(x)) => (
            done,
            seq![
                ProxyActionView::Report(
                    "confirming detached cleanup owners before target start failed: "@ + x@,
                ),
                ProxyActionView::StopAnchor,
                ProxyActionView::Exit(1),
            ],
        ),
        ProxyEvent::StartConfirmed(Ok(())) => (
            (ProxyPhase::AwaitSpawn, seq, journal),
            seq![ProxyActionView::SpawnTarget],
        ),
        ProxyEvent::TargetSpawned(Err(x)) => (
            done,
            seq![
                ProxyActionView::Append(seq, LogStream::System, "target spawn failed: "@ + x@),
                ProxyActionView::Complete,
                ProxyActionView::StopAnchor,
                ProxyActionView::Exit(127),
            ],
        ),
        ProxyEvent::TargetSpawned(Ok(())) => ((ProxyPhase::AwaitLine, seq, journal), seq![ProxyActionView::NextLine]),
        ProxyEvent::Line(Some((stream, line))) => (
            (ProxyPhase::AwaitAppend, seq, journal),
            seq![ProxyActionView::Append(seq, stream, line@)],
        ),
        ProxyEvent::Line(None) => ((ProxyPhase::AwaitLine, seq, journal), seq![ProxyActionView::WaitTarget]),
        ProxyEvent::TargetEnded(Ok((code, status))) => (
            (
                ProxyPhase::AwaitTerminal {
                    exit_code: match code {
                        Some(c) => c,
                        None => 1,
                    },
                },
                seq,
                journal,
            ),
            seq![ProxyActionView::Append(seq, LogStream::System, "target exited: "@ + status@)],
        ),
        ProxyEvent::TargetEnded(Err(x)) => (
            (ProxyPhase::AwaitTerminal { exit_code: 1 }, seq, journal),
            seq![ProxyActionView::Append(seq, LogStream::System, "target wait failed: "@ + x@)],
        ),
        ProxyEvent::Appended(Ok(())) => match phase {
            ProxyPhase::AwaitTerminal { exit_code } => (
                (ProxyPhase::AwaitComplete { exit_code }, seq, journal),
                seq![ProxyActionView::Complete],
            ),
            _ => ((ProxyPhase::AwaitLine, sat_inc(seq), journal), seq![ProxyActionView::NextLine]),
        },
        ProxyEvent::Appended(Err(x)) => (
            (ProxyPhase::AwaitTakeover, seq, journal),
            seq![
                ProxyActionView::Report(
                    (if phase is AwaitTerminal {
                        "writing detached terminal journal failed: "@
                    } else {
                        "writing detached journal failed: "@
                    }) + x@,
                ),
                ProxyActionView::RemoveJournal,
                ProxyActionView::Takeover,
            ],
        ),
        ProxyEvent::TakenOver(Err(x)) => (
            done,
            seq![ProxyActionView::Report("detached group reaper takeover failed: "@ + x@), ProxyActionView::Exit(1)],
        ),
        ProxyEvent::TakenOver(Ok(())) => (done, seq![ProxyActionView::Exit(1)]),
        ProxyEvent::Completed(Err(x)) => (
            done,
            seq![
                ProxyActionView::Report("completing detached group reaper failed: "@ + x@),
                ProxyActionView::StopAnchor,
                ProxyActionView::Exit(1),
            ],
        ),
        ProxyEvent::Completed(Ok(())) => (
            done,
            seq![
                ProxyActionView::StopAnchor,
                ProxyActionView::Exit(
                    match phase {
                        ProxyPhase::AwaitComplete { exit_code } => exit_code,
                        _ => 1,
                    },
                ),
            ],
        ),
    }
}

/// `prefix` followed by `text`.
fn prefixed(prefix: &str, text: &str) -> (r: String)
    ensures
        r@ == prefix@ + text@,
{
    let mut r = prefix.to_string();
    push_str(&mut r, text);
    r
}

impl ProxyMachine {
    /// A proxy whose journal at `journal` is open and whose next line gets
    /// `sequence`; it starts the group anchor first.
    pub fn new(sequence: u64, journal: Vec<u8>) -> (r: (ProxyMachine, Vec<ProxyAction>))
        ensures
            r.0@ == (ProxyPhase::AwaitAnchor, sequence, journal@),
            actions_view(r.1@) == seq![ProxyActionView::SpawnAnchor],
    {
        let mut actions: Vec<ProxyAction> = Vec::new();
        actions.push(ProxyAction::SpawnAnchor);
        proof {
            assert(actions_view(actions@) =~= seq![ProxyActionView::SpawnAnchor]);
        }
        (ProxyMachine { phase: ProxyPhase::AwaitAnchor, sequence, journal }, actions)
    }

    pub open spec fn accepts(&self, event: ProxyEvent) -> bool {
        proxy_accepts(self.phase, event)
    }

    /// One step: what the proxy does after `event`.  An append failure
    /// removes the journal and hands the group to the cleanup owners
    /// (`TAKEOVER`), then exits 1; a failed target start journals a system
    /// line, completes, stops the anchor and exits 127; a run that ended
    /// journals the target's status, completes, stops the anchor and exits
    /// with the target's code.
    pub fn proxy_step(self, event: ProxyEvent) -> (r: (ProxyMachine, Vec<ProxyAction>))
        requires
            self.accepts(event),
        ensures
            (r.0@, actions_view(r.1@)) == proxy_step_spec(self@, event),
    {
        let ghost before = self@;
        let ghost ev = event;
        let ProxyMachine { phase, sequence, journal } = self;
        let mut a: Vec<ProxyAction> = Vec::new();
        let next: ProxyPhase;
        let mut seq_next = sequence;
        match event {
            ProxyEvent::AnchorSpawned(Err(x)) => {
                a.push(ProxyAction::Report(prefixed("starting detached group anchor failed: ", x.as_str())));
                a.push(ProxyAction::Complete);
                a.push(ProxyAction::Exit(1));
                next = ProxyPhase::Done;
            },
            ProxyEvent::AnchorSpawned(Ok(())) => {
                a.push(ProxyAction::ObserveAnchor);
                next = ProxyPhase::AwaitAnchorIdentity;
            },
            ProxyEvent::AnchorObserved { proxy_pid, observed } => {
                let usable = match &observed {
                    Ok(id) => id.pgid == proxy_pid && !id.is_zombie(),
                    Err(_) => false,
                };
                if usable {
                    let id = observed.unwrap();
                    a.push(
                        ProxyAction::Arm(
                            anchor_message_text(id.pid, id.pgid, id.generation.as_str(), journal.as_slice()),
                        ),
                    );
                    next = ProxyPhase::AwaitArmed;
                } else {
                    a.push(ProxyAction::Report("detached group anchor did not expose a matching live identity".to_string()));
                    a.push(ProxyAction::StopAnchor);
                    a.push(ProxyAction::Complete);
                    a.push(ProxyAction::Exit(1));
                    next = ProxyPhase::Done;
                }
            },
            ProxyEvent::Armed(Err(x)) => {
                a.push(ProxyAction::Report(prefixed("arming detached group cleanup owners failed: ", x.as_str())));
                a.push(ProxyAction::StopAnchor);
                a.push(ProxyAction::Exit(1));
                next = ProxyPhase::Done;
            },
            ProxyEvent::Armed(Ok(())) => {
                a.push(ProxyAction::ConfirmStart);
                next = ProxyPhase::AwaitStart;
            },
            ProxyEvent::StartConfirmed(Err(x)) => {
                a.push(
                    ProxyAction::Report(
                        prefixed("confirming detached cleanup owners before target start failed: ", x.as_str()),
                    ),
                );
                a.push(ProxyAction::StopAnchor);
                a.push(ProxyAction::Exit(1));
                next = ProxyPhase::Done;
            },
            ProxyEvent::StartConfirmed(Ok(())) => {
                a.push(ProxyAction::SpawnTarget);
                next = ProxyPhase::AwaitSpawn;
            },
            ProxyEvent::TargetSpawned(Err(x)) => {
                a.push(ProxyAction::Append(sequence, LogStream::System, prefixed("target spawn failed: ", x.as_str())));
                a.push(ProxyAction::Complete);
                a.push(ProxyAction::StopAnchor);
                a.push(ProxyAction::Exit(127));
                next = ProxyPhase::Done;
            },
            ProxyEvent::TargetSpawned(Ok(())) => {
                a.push(ProxyAction::NextLine);
                next = ProxyPhase::AwaitLine;
            },
            ProxyEvent::Line(Some((stream, line))) => {
                a.push(ProxyAction::Append(sequence, stream, line));
                next = ProxyPhase::AwaitAppend;
            },
            ProxyEvent::Line(None) => {
                a.push(ProxyAction::WaitTarget);
                next = ProxyPhase::AwaitLine;
            },
            ProxyEvent::TargetEnded(Ok((code, status))) => {
                a.push(ProxyAction::Append(sequence, LogStream::System, prefixed("target exited: ", status.as_str())));
                next = ProxyPhase::AwaitTerminal {
                    exit_code: match code {
                        Some(c) => c,
                        None => 1,
                    },
                };
            },
            ProxyEvent::TargetEnded(Err(x)) => {
                a.push(ProxyAction::Append(sequence, LogStream::System, prefixed("target wait failed: ", x.as_str())));
                next = ProxyPhase::AwaitTerminal { exit_code: 1 };
            },
            ProxyEvent::Appended(Ok(())) => {
                match phase {
                    ProxyPhase::AwaitTerminal { exit_code } => {
                        a.push(ProxyAction::Complete);
                        next = ProxyPhase::AwaitComplete { exit_code };
                    },
                    _ => {
                        seq_next = if sequence == u64::MAX {
                            sequence
                        } else {
                            sequence + 1
                        };
                        a.push(ProxyAction::NextLine);
                        next = ProxyPhase::AwaitLine;
                    },
                }
            },
            ProxyEvent::Appended(Err(x)) => {
                let prefix = match phase {
                    ProxyPhase::AwaitTerminal { .. } => "writing detached terminal journal failed: ",
                    _ => "writing detached journal failed: ",
                };
                a.push(ProxyAction::Report(prefixed(prefix, x.as_str())));
                a.push(ProxyAction::RemoveJournal);
                a.push(ProxyAction::Takeover);
                next = ProxyPhase::AwaitTakeover;
            },
            ProxyEvent::TakenOver(Err(x)) => {
                a.push(ProxyAction::Report(prefixed("detached group reaper takeover failed: ", x.as_str())));
                a.push(ProxyAction::Exit(1));
                next = ProxyPhase::Done;
            },
            ProxyEvent::TakenOver(Ok(())) => {
                a.push(ProxyAction::Exit(1));
                next = ProxyPhase::Done;
            },
            ProxyEvent::Completed(Err(x)) => {
                a.push(ProxyAction::Report(prefixed("completing detached group reaper failed: ", x.as_str())));
                a.push(ProxyAction::StopAnchor);
                a.push(ProxyAction::Exit(1));
                next = ProxyPhase::Done;
            },
            ProxyEvent::Completed(Ok(())) => {
                let code = match phase {
                    ProxyPhase::AwaitComplete { exit_code } => exit_code,
                    _ => 1,
                };
                a.push(ProxyAction::StopAnchor);
                a.push(ProxyAction::Exit(code));
                next = ProxyPhase::Done;
            },
        }
        let r = ProxyMachine { phase: next, sequence: seq_next, journal };
        proof {
            reveal_strlit("detached group anchor did not expose a matching live identity");
            let spec_r = proxy_step_spec(before, ev);
            assert(r@ == spec_r.0);
            assert(actions_view(a@) =~= spec_r.1);
        }
        (r, a)
    }
}


/// Whether a proxy has the two cleanup owners a detached target needs.
pub fn owners_sufficient(count: usize) -> (r: Result<(), String>)
    ensures
        count < 2 ==> (r matches Err(m) && m@ == "detached target requires two cleanup owners"@),
        count >= 2 ==> r is Ok,
{
    if count < 2 {
        Err("detached target requires two cleanup owners".to_string())
    } else {
        Ok(())
    }
}

/// The `READY` line a proxy announces to its cleanup owners, from its own
/// identity: it must lead a live dedicated group.
pub fn proxy_ready_line(observed: Result<ProcessIdentity, SignalError>) -> (r: Result<String, String>)
    ensures
        match observed {
            Err(e) => r matches Err(m) && m@ == signal_error_spec(e),
            Ok(id) => if id.pgid != id.pid || id.status == ZOMBIE_STATUS {
                r matches Err(m) && m@ == "proxy does not own a live dedicated process group"@
            } else {
                r matches Ok(line) && line@ == identity_message(
                    "READY"@,
                    id.pid as nat,
                    id.pgid as nat,
                    id.generation@,
                )
            },
        },
{
    match observed {
        Err(e) => Err(signal_error_text(&e)),
        Ok(id) => {
            if id.pgid != id.pid || id.is_zombie() {
                Err("proxy does not own a live dedicated process group".to_string())
            } else {
                Ok(identity_message_text("READY", id.pid, id.pgid, id.generation.as_str()))
            }
        },
    }
}

/// What one cleanup owner's reply means for the operation that expected
/// `expected`: agreement, a wrong reply, or a closed channel.
pub fn owner_reply(expected: &str, operation: &str, reply: Option<String>) -> (r: Result<(), String>)
    ensures
        match reply {
            None => r matches Err(m) && m@ == "detached reaper closed before "@ + operation@ + " confirmation"@,
            Some(x) => if x@ == expected@ {
                r is Ok
            } else {
                r matches Err(m) && m@ == "unexpected detached reaper "@ + operation@ + " response: "@ + x@
            },
        },
{
    match reply {
        None => {
            let mut m = "detached reaper closed before ".to_string();
            push_str(&mut m, operation);
            push_str(&mut m, " confirmation");
            Err(m)
        },
        Some(x) => {
            if str_eq(x.as_str(), expected) {
                Ok(())
            } else {
                let mut m = "unexpected detached reaper ".to_string();
                push_str(&mut m, operation);
                push_str(&mut m, " response: ");
                push_str(&mut m, x.as_str());
                Err(m)
            }
        },
    }
}

} // verus!
