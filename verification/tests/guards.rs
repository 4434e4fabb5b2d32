use msv_supervisor::guards::{
    append_capture_error, check_outcome, http_check_outcome, keep_bounded, parse_ps_listing,
    sample_group_memory, tcp_check_outcome, CheckCause, CheckDiagnostics, CheckOutcome, CheckRace,
    CheckStatus, GroupUsage, UsageGap,
};
use msv_supervisor::signals::{ProcessIdentity, SignalError};

fn live(pid: u32, pgid: u32) -> Result<ProcessIdentity, SignalError> {
    Ok(ProcessIdentity { pid, pgid, status: 2, generation: "g".into() })
}

#[test]
fn capture_errors_are_appended_on_their_own_line() {
    assert_eq!(append_capture_error("out".into(), Some("broken pipe".into())), "out\n[capture error: broken pipe]");
    assert_eq!(append_capture_error(String::new(), Some("e".into())), "[capture error: e]");
    assert_eq!(append_capture_error("out".into(), None), "out");
}

#[test]
fn captured_output_is_bounded() {
    let mut kept = Vec::new();
    assert!(!keep_bounded(&mut kept, b"hello", 8));
    assert!(keep_bounded(&mut kept, b"world", 8));
    assert_eq!(kept, b"hellowor".to_vec());
    assert!(keep_bounded(&mut kept, b"!", 8));
    assert_eq!(kept.len(), 8);
}

#[test]
fn ps_listing_is_parsed_row_by_row() {
    let rows = parse_ps_listing(b"  101   100  2048\n\n 102 100 10\n 7 1 5\n").unwrap();
    assert_eq!(rows, vec![(101, 100, 2048), (102, 100, 10), (7, 1, 5)]);
    assert_eq!(parse_ps_listing(b"abc 1 2\n"), Err(UsageGap::UnparseableRow));
    assert_eq!(parse_ps_listing(b"1\n"), Err(UsageGap::MissingGroup));
    assert_eq!(parse_ps_listing(b"1 2 x\n"), Err(UsageGap::MissingMemory));
}

#[test]
fn group_memory_sums_verified_members_only() {
    let rows = vec![(101, 100, 2048), (102, 100, 10), (7, 1, 5)];
    let usage = sample_group_memory(&rows, 100, |pid| live(pid, 100));
    assert_eq!(usage, GroupUsage::Sample { memory_bytes: (2048 + 10) * 1024 });
    let moved = sample_group_memory(&rows, 100, |pid| live(pid, if pid == 102 { 5 } else { 100 }));
    assert_eq!(moved, GroupUsage::Unknown(UsageGap::Changed(102)));
    let denied = sample_group_memory(&rows, 100, |_| Err(SignalError::PermissionDenied));
    assert_eq!(denied, GroupUsage::Unknown(UsageGap::Unverifiable(101, SignalError::PermissionDenied)));
    let none = sample_group_memory(&rows, 55, |pid| live(pid, 55));
    assert_eq!(none, GroupUsage::Unknown(UsageGap::NoLiveMember));
    let huge = sample_group_memory(&vec![(1, 9, u64::MAX), (2, 9, 1)], 9, |pid| live(pid, 9));
    assert_eq!(huge, GroupUsage::Sample { memory_bytes: u64::MAX });
}

fn diagnostics() -> CheckDiagnostics {
    CheckDiagnostics { stdout: "o".into(), stderr: "e".into(), stdout_truncated: false, stderr_truncated: true }
}

#[test]
fn check_outcomes_follow_cause_and_cleanup() {
    assert_eq!(
        check_outcome(CheckCause::Exited { success: true, code: Some(0) }, None, diagnostics()),
        CheckOutcome::Succeeded { status: Some(CheckStatus::ExitCode(0)), diagnostics: diagnostics() }
    );
    assert_eq!(
        check_outcome(CheckCause::Exited { success: false, code: Some(3) }, None, diagnostics()),
        CheckOutcome::Failed { status: Some(CheckStatus::ExitCode(3)), diagnostics: diagnostics() }
    );
    assert_eq!(check_outcome(CheckCause::TimedOut, None, diagnostics()), CheckOutcome::TimedOut { diagnostics: diagnostics() });
    assert_eq!(check_outcome(CheckCause::Cancelled, None, diagnostics()), CheckOutcome::Cancelled { diagnostics: diagnostics() });
    assert_eq!(
        check_outcome(CheckCause::Exited { success: true, code: Some(0) }, Some("EPERM".into()), diagnostics()),
        CheckOutcome::CleanupFailed { cause: "EPERM".into(), diagnostics: diagnostics() }
    );
}

#[test]
fn tcp_checks_succeed_on_connect_and_report_errors() {
    assert_eq!(
        tcp_check_outcome(CheckRace::Completed(Ok(()))),
        CheckOutcome::Succeeded { status: None, diagnostics: CheckDiagnostics::default() }
    );
    assert_eq!(
        tcp_check_outcome(CheckRace::Completed(Err("refused".to_string()))),
        CheckOutcome::Failed {
            status: None,
            diagnostics: CheckDiagnostics { stderr: "refused".to_string(), ..CheckDiagnostics::default() },
        }
    );
    assert_eq!(
        tcp_check_outcome(CheckRace::TimedOut),
        CheckOutcome::TimedOut { diagnostics: CheckDiagnostics::default() }
    );
    assert_eq!(
        tcp_check_outcome(CheckRace::Cancelled),
        CheckOutcome::Cancelled { diagnostics: CheckDiagnostics::default() }
    );
}

#[test]
fn http_checks_compare_the_status() {
    assert_eq!(
        http_check_outcome(CheckRace::Completed(Ok(204)), 204),
        CheckOutcome::Succeeded {
            status: Some(CheckStatus::HttpStatus(204)),
            diagnostics: CheckDiagnostics::default(),
        }
    );
    assert_eq!(
        http_check_outcome(CheckRace::Completed(Ok(500)), 200),
        CheckOutcome::Failed {
            status: Some(CheckStatus::HttpStatus(500)),
            diagnostics: CheckDiagnostics::default(),
        }
    );
    assert_eq!(
        http_check_outcome(CheckRace::Completed(Err("no route".to_string())), 200),
        CheckOutcome::Failed {
            status: None,
            diagnostics: CheckDiagnostics { stderr: "no route".to_string(), ..CheckDiagnostics::default() },
        }
    );
    assert_eq!(
        http_check_outcome(CheckRace::TimedOut, 200),
        CheckOutcome::TimedOut { diagnostics: CheckDiagnostics::default() }
    );
}
