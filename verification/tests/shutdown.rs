use msv_supervisor::api::ShutdownSignalDto;
use msv_supervisor::shutdown::{
    signal_number, ShutdownAction, ShutdownEvent, ShutdownMachine, UnixShutdown, SIGKILL, SIGTERM,
};
use msv_supervisor::signals::{SignalError, SignalTarget};

fn target() -> SignalTarget {
    SignalTarget { pid: 42, pgid: Some(42), generation: Some("macos-libproc:1:2".into()) }
}

#[test]
fn graceful_shutdown_waits_then_succeeds_when_the_group_is_gone() {
    let (m, a) = UnixShutdown::new().request_graceful(&target(), ShutdownSignalDto::Term, 500);
    assert_eq!(a, ShutdownAction::SignalChecked { signal: SIGTERM });
    let (m, a) = m.step(ShutdownEvent::Signalled { result: Ok(()), now: 1_000 });
    assert_eq!(a, ShutdownAction::ProbeGroup { pgid: 42 });
    let (m, a) = m.step(ShutdownEvent::Probed { result: Ok(true), now: 1_100 });
    assert_eq!(a, ShutdownAction::Sleep);
    let (m, a) = m.step(ShutdownEvent::Slept { now: 1_200 });
    assert_eq!(a, ShutdownAction::ProbeGroup { pgid: 42 });
    let (_, a) = m.step(ShutdownEvent::Probed { result: Ok(false), now: 1_300 });
    assert_eq!(a, ShutdownAction::Done(Ok(())));
}

#[test]
fn expired_grace_leads_to_kill_then_timeout() {
    let (m, _) = ShutdownMachine::start(&target(), SIGTERM, 500, false);
    let (m, _) = m.step(ShutdownEvent::Signalled { result: Ok(()), now: 0 });
    let (m, a) = m.step(ShutdownEvent::Probed { result: Ok(true), now: 500 });
    assert_eq!(a, ShutdownAction::SignalGroup { pgid: 42, signal: SIGKILL });
    let (m, a) = m.step(ShutdownEvent::Signalled { result: Err(SignalError::AlreadyExited), now: 600 });
    assert_eq!(a, ShutdownAction::ProbeGroup { pgid: 42 });
    let (_, a) = m.step(ShutdownEvent::Probed { result: Ok(true), now: 2_600 });
    assert_eq!(a, ShutdownAction::Done(Err(SignalError::GroupExitTimeout(42))));
}

#[test]
fn permission_denial_is_never_success() {
    let (m, _) = ShutdownMachine::start(&target(), SIGTERM, 500, true);
    let (m, _) = m.step(ShutdownEvent::Signalled { result: Ok(()), now: 0 });
    let (m, a) = m.step(ShutdownEvent::Probed { result: Err(SignalError::PermissionDenied), now: 10 });
    assert_eq!(a, ShutdownAction::ReapLeader);
    let (m, a) = m.step(ShutdownEvent::Reaped { result: Ok(()), now: 20 });
    assert_eq!(a, ShutdownAction::Sleep);
    let (_, a) = m.step(ShutdownEvent::Reaped { result: Err("wait failed".into()), now: 30 });
    assert_eq!(a, ShutdownAction::Done(Err(SignalError::IoFailure("wait failed".into()))));
    let (m2, _) = ShutdownMachine::start(&target(), SIGTERM, 500, false);
    let (m2, _) = m2.step(ShutdownEvent::Signalled { result: Ok(()), now: 0 });
    let (_, a2) = m2.step(ShutdownEvent::Probed { result: Err(SignalError::IoFailure("x".into())), now: 10 });
    assert_eq!(a2, ShutdownAction::Done(Err(SignalError::IoFailure("x".into()))));
}

#[test]
fn a_leader_already_gone_is_checked_at_group_level() {
    let (m, _) = ShutdownMachine::start(&target(), SIGTERM, 500, false);
    let (m, a) = m.step(ShutdownEvent::Signalled { result: Err(SignalError::AlreadyExited), now: 0 });
    assert_eq!(a, ShutdownAction::ProbeGroup { pgid: 42 });
    let (m, a) = m.step(ShutdownEvent::Probed { result: Ok(true), now: 1 });
    assert_eq!(a, ShutdownAction::SignalGroup { pgid: 42, signal: SIGTERM });
    let (_, a) = m.step(ShutdownEvent::Signalled { result: Err(SignalError::PermissionDenied), now: 2 });
    assert_eq!(a, ShutdownAction::Done(Err(SignalError::PermissionDenied)));

    let (m, _) = ShutdownMachine::start(&target(), SIGTERM, 500, false);
    let (m, _) = m.step(ShutdownEvent::Signalled { result: Err(SignalError::AlreadyExited), now: 0 });
    let (_, a) = m.step(ShutdownEvent::Probed { result: Ok(false), now: 1 });
    assert_eq!(a, ShutdownAction::Done(Ok(())));
}

#[test]
fn a_handle_without_a_dedicated_group_is_refused() {
    let stale = SignalTarget { pid: 42, pgid: Some(41), generation: Some("g".into()) };
    let (m, _) = UnixShutdown::new().force_kill(&stale);
    let (_, a) = m.step(ShutdownEvent::Signalled { result: Ok(()), now: 0 });
    assert_eq!(a, ShutdownAction::Done(Err(SignalError::IdentityMismatch)));
}

#[test]
fn configured_signals_map_to_numbers() {
    assert_eq!(signal_number(ShutdownSignalDto::Term), 15);
    assert_eq!(signal_number(ShutdownSignalDto::Int), 2);
    assert_eq!(signal_number(ShutdownSignalDto::Kill), 9);
}
