use msv_supervisor::journal::LogStream;
use msv_supervisor::proxy::{owner_reply, owners_sufficient, proxy_ready_line, ProxyAction, ProxyEvent, ProxyMachine, ProxyPhase};
use msv_supervisor::signals::SignalError;
use msv_supervisor::signals::ProcessIdentity;

fn started(sequence: u64) -> ProxyMachine {
    let (m, actions) = ProxyMachine::new(sequence, b"/j".to_vec());
    assert!(matches!(actions.as_slice(), [ProxyAction::SpawnAnchor]));
    let (m, _) = m.proxy_step(ProxyEvent::AnchorSpawned(Ok(())));
    let anchor = ProcessIdentity { pid: 8, pgid: 7, status: 2, generation: "macos-libproc:1:2".into() };
    let (m, actions) = m.proxy_step(ProxyEvent::AnchorObserved { proxy_pid: 7, observed: Ok(anchor) });
    assert!(matches!(actions.as_slice(), [ProxyAction::Arm(line)] if line == "ANCHOR 8 7 macos-libproc:1:2 2f6a"));
    let (m, _) = m.proxy_step(ProxyEvent::Armed(Ok(())));
    let (m, actions) = m.proxy_step(ProxyEvent::StartConfirmed(Ok(())));
    assert!(matches!(actions.as_slice(), [ProxyAction::SpawnTarget]));
    m
}

#[test]
fn completed_run_journals_lines_then_exits_with_target_code() {
    let m = started(5);
    let (m, _) = m.proxy_step(ProxyEvent::TargetSpawned(Ok(())));
    let (m, actions) = m.proxy_step(ProxyEvent::Line(Some((LogStream::Stdout, "hi".into()))));
    assert!(matches!(actions.as_slice(), [ProxyAction::Append(5, LogStream::Stdout, l)] if l == "hi"));
    let (m, actions) = m.proxy_step(ProxyEvent::Appended(Ok(())));
    assert!(matches!(actions.as_slice(), [ProxyAction::NextLine]));
    assert_eq!(m.sequence, 6);
    let (m, actions) = m.proxy_step(ProxyEvent::Line(None));
    assert!(matches!(actions.as_slice(), [ProxyAction::WaitTarget]));
    let (m, actions) = m.proxy_step(ProxyEvent::TargetEnded(Ok((Some(3), "exit status: 3".into()))));
    assert!(matches!(actions.as_slice(),
        [ProxyAction::Append(6, LogStream::System, l)] if l == "target exited: exit status: 3"));
    let (m, actions) = m.proxy_step(ProxyEvent::Appended(Ok(())));
    assert!(matches!(actions.as_slice(), [ProxyAction::Complete]));
    let (m, actions) = m.proxy_step(ProxyEvent::Completed(Ok(())));
    assert!(matches!(actions.as_slice(), [ProxyAction::StopAnchor, ProxyAction::Exit(3)]));
    assert_eq!(m.phase, ProxyPhase::Done);
}

#[test]
fn append_failure_removes_journal_and_hands_over_the_group() {
    let m = started(1);
    let (m, _) = m.proxy_step(ProxyEvent::TargetSpawned(Ok(())));
    let (m, _) = m.proxy_step(ProxyEvent::Line(Some((LogStream::Stderr, "x".into()))));
    let (m, actions) = m.proxy_step(ProxyEvent::Appended(Err("injected journal append failure".into())));
    assert!(matches!(actions.as_slice(),
        [ProxyAction::Report(r), ProxyAction::RemoveJournal, ProxyAction::Takeover]
            if r == "writing detached journal failed: injected journal append failure"));
    let (_, actions) = m.proxy_step(ProxyEvent::TakenOver(Ok(())));
    assert!(matches!(actions.as_slice(), [ProxyAction::Exit(1)]));
}

#[test]
fn target_spawn_failure_exits_127() {
    let m = started(4);
    let (_, actions) = m.proxy_step(ProxyEvent::TargetSpawned(Err("No such file".into())));
    assert!(matches!(actions.as_slice(),
        [ProxyAction::Append(4, LogStream::System, l), ProxyAction::Complete, ProxyAction::StopAnchor, ProxyAction::Exit(127)]
            if l == "target spawn failed: No such file"));
}

#[test]
fn unusable_anchor_stops_and_completes() {
    let (m, _) = ProxyMachine::new(1, b"/j".to_vec());
    let (m, _) = m.proxy_step(ProxyEvent::AnchorSpawned(Ok(())));
    let zombie = ProcessIdentity { pid: 8, pgid: 7, status: 5, generation: "g".into() };
    let (_, actions) = m.proxy_step(ProxyEvent::AnchorObserved { proxy_pid: 7, observed: Ok(zombie) });
    assert!(matches!(actions.as_slice(),
        [ProxyAction::Report(_), ProxyAction::StopAnchor, ProxyAction::Complete, ProxyAction::Exit(1)]));
}

#[test]
fn connection_checks_of_the_proxy() {
    assert_eq!(owners_sufficient(1), Err("detached target requires two cleanup owners".to_string()));
    assert_eq!(owners_sufficient(2), Ok(()));
    let me = ProcessIdentity { pid: 7, pgid: 7, status: 2, generation: "macos-libproc:3:4".into() };
    assert_eq!(proxy_ready_line(Ok(me)), Ok("READY 7 7 macos-libproc:3:4".to_string()));
    let member = ProcessIdentity { pid: 7, pgid: 6, status: 2, generation: "g".into() };
    assert_eq!(proxy_ready_line(Ok(member)), Err("proxy does not own a live dedicated process group".to_string()));
    assert_eq!(proxy_ready_line(Err(SignalError::PermissionDenied)), Err("permission denied".to_string()));
    assert_eq!(owner_reply("ARMED", "anchor", Some("ARMED".into())), Ok(()));
    assert_eq!(
        owner_reply("ARMED", "anchor", Some("NO".into())),
        Err("unexpected detached reaper anchor response: NO".to_string())
    );
    assert_eq!(
        owner_reply("STARTED", "target start", None),
        Err("detached reaper closed before target start confirmation".to_string())
    );
}
