use std::cell::Cell;

use msv_supervisor::api::JobRunStateDto;
use msv_supervisor::lifecycle::{
    child_exit_note, detached_exit_note, identity_attempt, IdentityAttempt, join_with, legacy_tail_allowed, probe_alive_with, resume_sequence, spawned_identity_with, spend_append_budget,
    terminal_completion, terminal_state, Aliveness, ProbeFailure, TransientEnd,
};
use msv_supervisor::signals::{ProcessIdentity, SignalError, SignalTarget};

fn identity(pid: u32, pgid: u32, status: u32) -> Result<ProcessIdentity, SignalError> {
    Ok(ProcessIdentity { pid, pgid, status, generation: "macos-libproc:1:2".into() })
}

#[test]
fn a_new_child_is_published_once_it_leads_its_group() {
    let reads = Cell::new(0);
    let pauses = Cell::new(0);
    let found = spawned_identity_with(
        42,
        |pid| {
            reads.set(reads.get() + 1);
            if reads.get() < 3 { identity(pid, 1, 2) } else { identity(pid, pid, 2) }
        },
        || pauses.set(pauses.get() + 1),
    );
    assert_eq!(found, Some((42, "macos-libproc:1:2".to_string())));
    assert_eq!(reads.get(), 3);
    assert_eq!(pauses.get(), 2);
    let reads = Cell::new(0);
    let never = spawned_identity_with(42, |_| { reads.set(reads.get() + 1); Err(SignalError::PermissionDenied) }, || {});
    assert_eq!(never, None);
    assert_eq!(reads.get(), 20);
}

#[test]
fn liveness_requires_the_recorded_leader() {
    let target = SignalTarget { pid: 42, pgid: Some(42), generation: Some("macos-libproc:1:2".into()) };
    assert_eq!(probe_alive_with(&target, |pid| identity(pid, pid, 2)), Ok(Aliveness::Alive));
    assert_eq!(probe_alive_with(&target, |pid| identity(pid, pid, 5)), Ok(Aliveness::Dead));
    assert_eq!(probe_alive_with(&target, |_| Err(SignalError::AlreadyExited)), Ok(Aliveness::Dead));
    assert_eq!(probe_alive_with(&target, |pid| identity(pid, 7, 2)), Err(ProbeFailure::Unverified));
    assert_eq!(
        probe_alive_with(&target, |_| Err(SignalError::PermissionDenied)),
        Err(ProbeFailure::Signal(SignalError::PermissionDenied))
    );
}

#[test]
fn transient_runs_end_in_the_right_state() {
    assert_eq!(terminal_state(Some(true), Some(0)), JobRunStateDto::TimedOut);
    assert_eq!(terminal_state(Some(false), None), JobRunStateDto::Cancelled);
    assert_eq!(terminal_state(None, Some(0)), JobRunStateDto::Succeeded);
    assert_eq!(terminal_state(None, Some(1)), JobRunStateDto::Failed);
    assert_eq!(terminal_state(None, None), JobRunStateDto::Failed);
    assert_eq!(terminal_completion(JobRunStateDto::TimedOut), TransientEnd::TimedOut);
    assert_eq!(terminal_completion(JobRunStateDto::Cancelled), TransientEnd::Cancelled);
    assert_eq!(terminal_completion(JobRunStateDto::Failed), TransientEnd::Exited);
}

#[test]
fn legacy_logs_need_a_unique_spelling_and_no_filters() {
    let known = vec!["web app".to_string(), "web_app".to_string(), "db".to_string()];
    assert!(!legacy_tail_allowed(false, false, "web app", &known));
    assert!(legacy_tail_allowed(false, false, "db", &known));
    assert!(!legacy_tail_allowed(true, false, "db", &known));
    assert!(!legacy_tail_allowed(false, true, "db", &known));
    assert!(!legacy_tail_allowed(false, false, "cache", &known));
}

#[test]
fn proxy_resumes_after_the_highest_sequence() {
    assert_eq!(resume_sequence(&vec![]), 1);
    assert_eq!(resume_sequence(&vec![Some(3), None, Some(9), Some(4)]), 10);
    assert_eq!(resume_sequence(&vec![Some(u64::MAX)]), u64::MAX);
}

#[test]
fn append_budget_allows_exactly_its_count() {
    let mut budget = Some(2);
    assert!(spend_append_budget(&mut budget));
    assert!(spend_append_budget(&mut budget));
    assert!(!spend_append_budget(&mut budget));
    assert_eq!(budget, Some(0));
    let mut unlimited = None;
    assert!(spend_append_budget(&mut unlimited));
}

#[test]
fn child_exit_notes_name_the_status_or_the_wait_failure() {
    assert_eq!(child_exit_note(Ok("exit status: 0".into())), "process exited: exit status: 0");
    assert_eq!(child_exit_note(Err("interrupted".into())), "process wait failed: interrupted");
}

#[test]
fn detached_exit_notes_cover_every_outcome() {
    assert_eq!(
        detached_exit_note(Ok("exit status: 0".into()), Ok(Vec::new())),
        "detached proxy and cleanup owners exited: exit status: 0"
    );
    assert_eq!(
        detached_exit_note(Ok("signal: 9".into()), Ok(vec!["a".into(), "b".into()])),
        "detached proxy exited: signal: 9; cleanup owner waits failed: a, b"
    );
    assert_eq!(
        detached_exit_note(Err("gone".into()), Err("panicked".into())),
        "detached proxy wait failed: gone"
    );
    assert_eq!(
        detached_exit_note(Ok("exit status: 0".into()), Err("panicked".into())),
        "detached cleanup owner waiter failed: panicked"
    );
}

#[test]
fn join_with_separates_consecutive_parts() {
    assert_eq!(join_with(&Vec::new(), ", "), "");
    assert_eq!(join_with(&vec!["x".to_string()], ", "), "x");
    assert_eq!(join_with(&vec!["x".to_string(), "y".to_string(), "z".to_string()], "|"), "x|y|z");
}

#[test]
fn identity_reads_retry_until_twenty_then_give_up() {
    assert_eq!(identity_attempt(42, 0, identity(42, 42, 2)), IdentityAttempt::Publish(42, "macos-libproc:1:2".into()));
    assert_eq!(identity_attempt(42, 0, identity(42, 41, 2)), IdentityAttempt::Retry(1));
    assert_eq!(identity_attempt(42, 18, identity(42, 42, 5)), IdentityAttempt::Retry(19));
    assert_eq!(identity_attempt(42, 19, Err(SignalError::PermissionDenied)), IdentityAttempt::GiveUp);
}
