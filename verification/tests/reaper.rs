use msv_supervisor::control::anchor_message_text;
use msv_supervisor::reaper::{
    failure_report, FailureDetail, ReaperAction, ReaperContext, ReaperEvent, ReaperMachine, ReaperReply,
};
use msv_supervisor::signals::SignalError;

fn line(text: &str) -> ReaperEvent {
    ReaperEvent::Line(Ok(Some(text.to_string())))
}

fn armed(withhold: bool) -> ReaperMachine {
    let (m, a) = ReaperMachine::new(withhold, false);
    assert_eq!(a, ReaperAction::ReadLine);
    let (m, a) = m.step(line("READY 40 40 macos-libproc:1:2"));
    assert_eq!(a, ReaperAction::Verify { pid: 40, pgid: 40, generation: "macos-libproc:1:2".into() });
    let (m, a) = m.step(ReaperEvent::Verified(Ok(())));
    assert_eq!(a, ReaperAction::Write(ReaperReply::Ready));
    let (m, a) = m.step(ReaperEvent::Wrote(Ok(())));
    assert_eq!(a, ReaperAction::ReadLine);
    let anchor = anchor_message_text(41, 40, "macos-libproc:3:4", b"/logs/p.jsonl");
    let (m, a) = m.step(line(&anchor));
    assert_eq!(a, ReaperAction::Verify { pid: 41, pgid: 40, generation: "macos-libproc:3:4".into() });
    let (m, a) = m.step(ReaperEvent::Verified(Ok(())));
    assert_eq!(a, ReaperAction::Write(ReaperReply::Armed));
    let (m, _) = m.step(ReaperEvent::Wrote(Ok(())));
    let (m, a) = m.step(line("START"));
    assert_eq!(a, ReaperAction::Write(ReaperReply::Started));
    let (m, a) = m.step(ReaperEvent::Wrote(Ok(())));
    assert_eq!(a, ReaperAction::ReadLine);
    m
}

#[test]
fn completion_exits_cleanly_without_signalling() {
    let (_, a) = armed(false).step(line("COMPLETE"));
    assert_eq!(a, ReaperAction::Exit { code: 0, failure: None });
}

#[test]
fn takeover_removes_the_journal_and_reaps_the_anchored_group() {
    let (m, a) = armed(false).step(line("TAKEOVER"));
    assert_eq!(a, ReaperAction::Write(ReaperReply::TakenOver));
    let (m, a) = m.step(ReaperEvent::Wrote(Ok(())));
    assert_eq!(a, ReaperAction::RemoveJournal { path: b"/logs/p.jsonl".to_vec() });
    let (m, a) = m.step(ReaperEvent::Removed(Ok(())));
    assert_eq!(a, ReaperAction::Verify { pid: 41, pgid: 40, generation: "macos-libproc:3:4".into() });
    let (m, a) = m.step(ReaperEvent::Verified(Ok(())));
    assert_eq!(a, ReaperAction::Signal { pgid: 40, signal: 15 });
    let (m, a) = m.step(ReaperEvent::Signalled { result: Ok(true), now: 0 });
    assert_eq!(a, ReaperAction::Sleep { ms: 2000 });
    let (m, a) = m.step(ReaperEvent::Slept { now: 2000 });
    assert_eq!(a, ReaperAction::Signal { pgid: 40, signal: 0 });
    let (m, a) = m.step(ReaperEvent::Signalled { result: Ok(true), now: 2001 });
    assert_eq!(a, ReaperAction::Signal { pgid: 40, signal: 9 });
    let (m, a) = m.step(ReaperEvent::Signalled { result: Ok(true), now: 2002 });
    assert_eq!(a, ReaperAction::Signal { pgid: 40, signal: 0 });
    let (m, a) = m.step(ReaperEvent::Signalled { result: Ok(true), now: 2003 });
    assert_eq!(a, ReaperAction::Sleep { ms: 25 });
    let (m, _) = m.step(ReaperEvent::Slept { now: 2030 });
    let (_, a) = m.step(ReaperEvent::Signalled { result: Ok(false), now: 2031 });
    assert_eq!(a, ReaperAction::Exit { code: 0, failure: None });
}

#[test]
fn proxy_loss_starts_cleanup_and_a_stuck_group_fails() {
    let (m, a) = armed(true).step(ReaperEvent::Line(Ok(None)));
    assert_eq!(a, ReaperAction::RemoveJournal { path: b"/logs/p.jsonl".to_vec() });
    let (m, _) = m.step(ReaperEvent::Removed(Ok(())));
    let (m, _) = m.step(ReaperEvent::Verified(Ok(())));
    let (m, _) = m.step(ReaperEvent::Signalled { result: Ok(true), now: 0 });
    let (m, _) = m.step(ReaperEvent::Slept { now: 2000 });
    let (m, a) = m.step(ReaperEvent::Signalled { result: Ok(false), now: 2000 });
    assert_eq!(a, ReaperAction::Signal { pgid: 40, signal: 0 });
    let (_, a) = m.step(ReaperEvent::Signalled { result: Ok(true), now: 7000 });
    assert_eq!(
        a,
        ReaperAction::Exit {
            code: 1,
            failure: Some((ReaperContext::Cleanup { lost: true }, FailureDetail::GroupRemained(40)))
        }
    );
}

#[test]
fn withheld_acknowledgement_still_cleans_up() {
    let (_, a) = armed(true).step(line("TAKEOVER"));
    assert_eq!(a, ReaperAction::RemoveJournal { path: b"/logs/p.jsonl".to_vec() });
}

#[test]
fn an_anchor_in_another_group_is_refused() {
    let (m, _) = ReaperMachine::new(false, false);
    let (m, _) = m.step(line("READY 40 40 g"));
    let (m, _) = m.step(ReaperEvent::Verified(Ok(())));
    let (m, _) = m.step(ReaperEvent::Wrote(Ok(())));
    let (_, a) = m.step(line(&anchor_message_text(41, 39, "g", b"/j")));
    assert_eq!(
        a,
        ReaperAction::Exit { code: 1, failure: Some((ReaperContext::VerifyingAnchor, FailureDetail::GroupDiffers)) }
    );
}

#[test]
fn setup_failures_exit_with_their_reason() {
    let (m, _) = ReaperMachine::new(false, false);
    let (_, a) = m.step(line("HELLO"));
    assert_eq!(
        a,
        ReaperAction::Exit {
            code: 1,
            failure: Some((ReaperContext::VerifyingTarget, FailureDetail::Text("expected READY control message".into())))
        }
    );
    let (m, _) = ReaperMachine::new(false, false);
    let (m, _) = m.step(line("READY 40 40 g"));
    let (_, a) = m.step(ReaperEvent::Verified(Err(SignalError::IdentityMismatch)));
    assert_eq!(
        a,
        ReaperAction::Exit {
            code: 1,
            failure: Some((ReaperContext::VerifyingTarget, FailureDetail::Signal(SignalError::IdentityMismatch)))
        }
    );
    let (m, _) = ReaperMachine::new(false, false);
    let (_, a) = m.step(ReaperEvent::Line(Ok(None)));
    assert_eq!(a, ReaperAction::Exit { code: 1, failure: None });
}

#[test]
fn crash_flag_exits_after_start() {
    let (m, _) = ReaperMachine::new(false, true);
    let (m, _) = m.step(line("READY 40 40 g"));
    let (m, _) = m.step(ReaperEvent::Verified(Ok(())));
    let (m, _) = m.step(ReaperEvent::Wrote(Ok(())));
    let (m, _) = m.step(line(&anchor_message_text(41, 40, "g", b"/j")));
    let (m, _) = m.step(ReaperEvent::Verified(Ok(())));
    let (m, _) = m.step(ReaperEvent::Wrote(Ok(())));
    let (m, _) = m.step(line("START"));
    let (_, a) = m.step(ReaperEvent::Wrote(Ok(())));
    assert_eq!(a, ReaperAction::Exit { code: 1, failure: None });
}

#[test]
fn failure_reports_name_context_and_detail() {
    assert_eq!(
        failure_report(ReaperContext::Cleanup { lost: true }, &FailureDetail::GroupRemained(42)),
        "detached target group cleanup after proxy loss failed: process group 42 remained after detached cleanup"
    );
    assert_eq!(
        failure_report(ReaperContext::VerifyingAnchor, &FailureDetail::Signal(SignalError::GroupExitTimeout(9))),
        "verifying detached group anchor failed: process group 9 did not exit"
    );
    assert_eq!(
        failure_report(ReaperContext::InvalidControl, &FailureDetail::Text("BOGUS".into())),
        "invalid detached reaper control message: BOGUS"
    );
    assert_eq!(
        failure_report(ReaperContext::RemovingJournal { lost: false }, &FailureDetail::GroupDiffers),
        "removing failed detached journal failed: anchor process group differs from proxy group"
    );
}
