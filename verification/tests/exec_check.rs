use msv_supervisor::api::JobRunStateDto;
use msv_supervisor::guards::{
    exec_check_start, exec_check_step, CheckDiagnostics, CheckOutcome, CheckStatus, ExecCheckAction,
    ExecCheckEvent, ExecCheckPhase,
};
use msv_supervisor::lifecycle::{transient_decision, unowned_transient, CompletionCause, TransientDecision, TransientEnd};
use msv_supervisor::store::TransientCleanupStage;

fn diagnostics() -> CheckDiagnostics {
    CheckDiagnostics { stdout: "out".into(), stderr: String::new(), stdout_truncated: false, stderr_truncated: false }
}

#[test]
fn exit_seen_first_wins_and_a_lingering_group_is_ended() {
    let (s, a) = exec_check_start();
    assert_eq!(a, ExecCheckAction::Poll);
    let (s, a) = exec_check_step(s, ExecCheckEvent::Polled { exited: None, cancelled: false, timed_out: false });
    assert_eq!(a, ExecCheckAction::Poll);
    let (s, a) = exec_check_step(
        s,
        ExecCheckEvent::Polled { exited: Some(Ok((true, Some(0)))), cancelled: true, timed_out: true },
    );
    assert_eq!(a, ExecCheckAction::ProbeGroup);
    let (s, a) = exec_check_step(s, ExecCheckEvent::GroupProbed(Ok(true)));
    assert_eq!(a, ExecCheckAction::TerminateGroup);
    let (s, a) = exec_check_step(s, ExecCheckEvent::Terminated(Ok(())));
    assert_eq!(a, ExecCheckAction::CollectDiagnostics);
    let (s, a) = exec_check_step(s, ExecCheckEvent::Collected(diagnostics()));
    assert_eq!(s.phase, ExecCheckPhase::Done);
    assert_eq!(
        a,
        ExecCheckAction::Finish(Ok(CheckOutcome::Succeeded {
            status: Some(CheckStatus::ExitCode(0)),
            diagnostics: diagnostics()
        }))
    );
}

#[test]
fn cancellation_beats_timeout_and_failed_termination_drains_then_reports_cleanup_failure() {
    let (s, _) = exec_check_start();
    let (s, a) = exec_check_step(s, ExecCheckEvent::Polled { exited: None, cancelled: true, timed_out: true });
    assert_eq!(a, ExecCheckAction::TerminateGroup);
    let (s, a) = exec_check_step(s, ExecCheckEvent::Terminated(Err("group remained".into())));
    assert_eq!(a, ExecCheckAction::Drain);
    let (s, a) = exec_check_step(s, ExecCheckEvent::Drained(Ok(false)));
    assert_eq!(a, ExecCheckAction::CollectDiagnostics);
    let (_, a) = exec_check_step(s, ExecCheckEvent::Collected(diagnostics()));
    assert_eq!(
        a,
        ExecCheckAction::Finish(Ok(CheckOutcome::CleanupFailed { cause: "group remained".into(), diagnostics: diagnostics() }))
    );
}

#[test]
fn timeout_terminates_and_reaps() {
    let (s, _) = exec_check_start();
    let (s, _) = exec_check_step(s, ExecCheckEvent::Polled { exited: None, cancelled: false, timed_out: true });
    let (s, a) = exec_check_step(s, ExecCheckEvent::Terminated(Ok(())));
    assert_eq!(a, ExecCheckAction::Reap);
    let (s, _) = exec_check_step(s, ExecCheckEvent::Reaped(Ok(())));
    let (_, a) = exec_check_step(s, ExecCheckEvent::Collected(diagnostics()));
    assert_eq!(a, ExecCheckAction::Finish(Ok(CheckOutcome::TimedOut { diagnostics: diagnostics() })));
}

#[test]
fn transient_decisions() {
    assert_eq!(
        transient_decision(CompletionCause::TimedOut, Some(Err("stuck".into())), Ok(())),
        TransientDecision::CleanupPending {
            cause: "stuck".into(),
            stage: TransientCleanupStage::TerminateGroup,
            intended: JobRunStateDto::TimedOut,
            exit_code: None
        }
    );
    assert_eq!(
        transient_decision(CompletionCause::Exited { exit_code: Some(0) }, None, Err("pump broke".into())),
        TransientDecision::CleanupPending {
            cause: "pump broke".into(),
            stage: TransientCleanupStage::SealLog,
            intended: JobRunStateDto::Succeeded,
            exit_code: Some(0)
        }
    );
    assert_eq!(
        transient_decision(CompletionCause::Cancelled, Some(Ok(Some(143))), Ok(())),
        TransientDecision::Finished { end: TransientEnd::Cancelled, exit_code: Some(143) }
    );
    assert_eq!(
        transient_decision(CompletionCause::Exited { exit_code: Some(2) }, None, Ok(())),
        TransientDecision::Finished { end: TransientEnd::Exited, exit_code: Some(2) }
    );
}

#[test]
fn unowned_transient_is_pending_termination_as_cancelled() {
    assert_eq!(
        unowned_transient(),
        TransientDecision::CleanupPending {
            cause: "transient child ownership is unavailable".into(),
            stage: TransientCleanupStage::TerminateGroup,
            intended: JobRunStateDto::Cancelled,
            exit_code: None
        }
    );
}
