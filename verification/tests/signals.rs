use std::cell::RefCell;
use std::collections::VecDeque;

use msv_supervisor::signals::{
    dedicated_group_id, generation_token, group_to_signal, identity_from_info, os_error, BsdInfo, needs_post_check, process_exists_with,
    signal_outcome, signal_target_of, verify_group_leader_with, ProcessIdentity, SignalError,
    SignalTarget,
};

fn handle() -> SignalTarget {
    SignalTarget {
        pid: 42,
        pgid: Some(42),
        generation: Some("macos-libproc:10:20".into()),
    }
}

fn identity(status: u32, generation: &str) -> ProcessIdentity {
    ProcessIdentity {
        pid: 42,
        pgid: 42,
        status,
        generation: generation.into(),
    }
}

const SIGTERM: i32 = 15;
const SIGKILL: i32 = 9;

/// A checked signal as the host runs it: snapshot, send only to the group
/// the library names, snapshot again only when the library asks for it.
fn signal_checked_with(
    target: &SignalTarget,
    signal: i32,
    snapshot: impl Fn(u32) -> Result<ProcessIdentity, SignalError>,
    send_signal: impl FnOnce(u32, i32) -> Result<(), SignalError>,
) -> Result<(), SignalError> {
    let before = snapshot(target.pid);
    let pgid = signal_target_of(target, before.clone())?;
    let sent = send_signal(pgid, signal);
    let after = if needs_post_check(&sent) { snapshot(target.pid) } else { Err(SignalError::AlreadyExited) };
    signal_outcome(target, before, sent, after)
}

/// A signal to a known dedicated group as the host sends it.
fn signal_group_with(
    pgid: u32,
    signal: i32,
    send_signal: impl FnOnce(u32, i32) -> Result<(), SignalError>,
) -> Result<(), SignalError> {
    match group_to_signal(pgid) {
        Some(group) => send_signal(group, signal),
        None => Err(SignalError::IdentityMismatch),
    }
}

#[test]
fn post_signal_same_generation_zombie_is_left_for_child_wait() {
    let snapshots = RefCell::new(VecDeque::from([
        Ok(identity(1, "macos-libproc:10:20")),
        Ok(identity(5, "macos-libproc:10:20")),
    ]));

    let result = signal_checked_with(
        &handle(),
        SIGTERM,
        |_| snapshots.borrow_mut().pop_front().unwrap(),
        |_, _| Ok(()),
    );

    assert!(matches!(result, Ok(())));
}

#[test]
fn post_signal_live_generation_mismatch_is_rejected() {
    let snapshots = RefCell::new(VecDeque::from([
        Ok(identity(1, "macos-libproc:10:20")),
        Ok(identity(1, "macos-libproc:10:21")),
    ]));

    let result = signal_checked_with(
        &handle(),
        SIGTERM,
        |_| snapshots.borrow_mut().pop_front().unwrap(),
        |_, _| Ok(()),
    );

    assert!(matches!(result, Err(SignalError::IdentityMismatch)));
}

#[test]
fn post_signal_permission_probe_does_not_override_a_delivered_signal() {
    let snapshots = RefCell::new(VecDeque::from([
        Ok(identity(1, "macos-libproc:10:20")),
        Err(SignalError::PermissionDenied),
    ]));

    let result = signal_checked_with(
        &handle(),
        SIGKILL,
        |_| snapshots.borrow_mut().pop_front().unwrap(),
        |_, _| Ok(()),
    );

    assert!(matches!(result, Ok(())));
}

#[test]
fn permission_denied_and_missing_group_remain_distinct() {
    let permission_denied = signal_checked_with(
        &handle(),
        SIGTERM,
        |_| Ok(identity(1, "macos-libproc:10:20")),
        |_, _| Err(SignalError::PermissionDenied),
    );
    let missing_group = signal_checked_with(
        &handle(),
        SIGTERM,
        |_| Ok(identity(1, "macos-libproc:10:20")),
        |_, _| Err(SignalError::AlreadyExited),
    );

    assert!(matches!(permission_denied, Err(SignalError::PermissionDenied)));
    assert!(matches!(missing_group, Ok(())));
}

#[test]
fn known_group_signal_keeps_permission_and_missing_group_distinct() {
    let permission_denied =
        signal_group_with(42, SIGKILL, |_, _| Err(SignalError::PermissionDenied));
    let missing_group = signal_group_with(42, SIGKILL, |_, _| Err(SignalError::AlreadyExited));

    assert!(matches!(permission_denied, Err(SignalError::PermissionDenied)));
    assert!(matches!(missing_group, Err(SignalError::AlreadyExited)));
}

#[test]
fn zombie_leader_is_not_signalled() {
    let sent = RefCell::new(Vec::new());
    let result = signal_checked_with(
        &handle(),
        SIGTERM,
        |_| Ok(identity(5, "macos-libproc:10:20")),
        |pgid, signal| {
            sent.borrow_mut().push((pgid, signal));
            Ok(())
        },
    );
    assert!(matches!(result, Err(SignalError::AlreadyExited)));
    assert!(sent.borrow().is_empty());
}

#[test]
fn recycled_pid_before_signal_is_rejected_without_sending() {
    let sent = RefCell::new(Vec::new());
    let result = signal_checked_with(
        &handle(),
        SIGTERM,
        |_| Ok(identity(1, "macos-libproc:99:1")),
        |pgid, signal| {
            sent.borrow_mut().push((pgid, signal));
            Ok(())
        },
    );
    assert!(matches!(result, Err(SignalError::IdentityMismatch)));
    assert!(sent.borrow().is_empty());
}

#[test]
fn checked_signal_targets_the_observed_group() {
    let sent = RefCell::new(Vec::new());
    let result = signal_checked_with(
        &handle(),
        SIGTERM,
        |_| Ok(identity(1, "macos-libproc:10:20")),
        |pgid, signal| {
            sent.borrow_mut().push((pgid, signal));
            Ok(())
        },
    );
    assert!(matches!(result, Ok(())));
    assert_eq!(*sent.borrow(), vec![(42, SIGTERM)]);
}

#[test]
fn group_zero_is_never_signalled() {
    let result = signal_group_with(0, SIGKILL, |_, _| Ok(()));
    assert!(matches!(result, Err(SignalError::IdentityMismatch)));
}

#[test]
fn dedicated_group_requires_own_leader_and_token() {
    assert!(matches!(dedicated_group_id(&handle()), Ok(42)));
    let mut other = handle();
    other.pgid = Some(41);
    assert!(matches!(dedicated_group_id(&other), Err(SignalError::IdentityMismatch)));
    let mut empty = handle();
    empty.generation = Some(String::new());
    assert!(matches!(dedicated_group_id(&empty), Err(SignalError::IdentityMismatch)));
    let mut none = handle();
    none.pgid = None;
    assert!(matches!(dedicated_group_id(&none), Err(SignalError::IdentityMismatch)));
}

#[test]
fn existence_probe_keeps_permission_denial_distinct() {
    assert!(matches!(process_exists_with(0, |_| Ok(identity(1, "x"))), Ok(false)));
    assert!(matches!(process_exists_with(42, |_| Ok(identity(1, "x"))), Ok(true)));
    assert!(matches!(process_exists_with(42, |_| Ok(identity(5, "x"))), Ok(false)));
    assert!(matches!(
        process_exists_with(42, |_| Err(SignalError::AlreadyExited)),
        Ok(false)
    ));
    assert!(matches!(
        process_exists_with(42, |_| Err(SignalError::PermissionDenied)),
        Err(SignalError::PermissionDenied)
    ));
}

#[test]
fn leader_verification_compares_pid_group_and_token() {
    let ok = verify_group_leader_with(42, 42, "macos-libproc:10:20", |_| {
        Ok(identity(1, "macos-libproc:10:20"))
    });
    assert!(matches!(ok, Ok(())));
    let wrong_token = verify_group_leader_with(42, 42, "macos-libproc:10:21", |_| {
        Ok(identity(1, "macos-libproc:10:20"))
    });
    assert!(matches!(wrong_token, Err(SignalError::IdentityMismatch)));
    let zombie = verify_group_leader_with(42, 42, "macos-libproc:10:20", |_| {
        Ok(identity(5, "macos-libproc:10:20"))
    });
    assert!(matches!(zombie, Err(SignalError::IdentityMismatch)));
}

#[test]
fn generation_token_spells_start_time() {
    assert_eq!(generation_token(10, 20), "macos-libproc:10:20");
    assert_eq!(generation_token(0, 999999), "macos-libproc:0:999999");
}

#[test]
fn zombie_status_is_recognised() {
    assert!(identity(5, "x").is_zombie());
    assert!(!identity(2, "x").is_zombie());
}

#[test]
fn decisions_name_the_group_only_after_a_passing_check() {
    assert!(matches!(signal_target_of(&handle(), Ok(identity(1, "macos-libproc:10:20"))), Ok(42)));
    assert!(matches!(
        signal_target_of(&handle(), Ok(identity(5, "macos-libproc:10:20"))),
        Err(SignalError::AlreadyExited)
    ));
    assert!(matches!(
        signal_target_of(&handle(), Ok(identity(1, "macos-libproc:10:21"))),
        Err(SignalError::IdentityMismatch)
    ));
    assert!(matches!(signal_target_of(&handle(), Err(SignalError::PermissionDenied)), Err(SignalError::PermissionDenied)));
    assert!(needs_post_check(&Ok(())));
    assert!(needs_post_check(&Err(SignalError::AlreadyExited)));
    assert!(!needs_post_check(&Err(SignalError::PermissionDenied)));
    assert_eq!(group_to_signal(0), None);
    assert_eq!(group_to_signal(42), Some(42));
}

#[test]
fn outcome_of_a_refused_check_is_the_check_error() {
    let r = signal_outcome(
        &handle(),
        Ok(identity(1, "macos-libproc:99:1")),
        Ok(()),
        Ok(identity(1, "macos-libproc:10:20")),
    );
    assert!(matches!(r, Err(SignalError::IdentityMismatch)));
}

#[test]
fn system_errors_map_to_signal_errors() {
    assert!(matches!(os_error(Some(3), "x".into()), SignalError::AlreadyExited));
    assert!(matches!(os_error(Some(1), "x".into()), SignalError::PermissionDenied));
    assert!(matches!(os_error(Some(22), "bad".into()), SignalError::IoFailure(m) if m == "bad"));
    assert!(matches!(os_error(None, "none".into()), SignalError::IoFailure(m) if m == "none"));
}

#[test]
fn identity_from_kernel_report() {
    let info = BsdInfo { pid: 42, pgid: 42, status: 2, start_seconds: 10, start_micros: 20 };
    let id = identity_from_info(42, Ok(info)).unwrap();
    assert_eq!(id, ProcessIdentity { pid: 42, pgid: 42, status: 2, generation: "macos-libproc:10:20".into() });
    assert!(matches!(identity_from_info(43, Ok(info)), Err(SignalError::IdentityMismatch)));
    assert!(matches!(identity_from_info(0, Ok(info)), Err(SignalError::AlreadyExited)));
    assert!(matches!(identity_from_info(42, Err(SignalError::PermissionDenied)), Err(SignalError::PermissionDenied)));
}
