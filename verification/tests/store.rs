use msv_supervisor::api::JobRunStateDto;
use msv_supervisor::store::{
    cleanup_stage_to_str, cursor, deletion_stage_to_str, page_high_watermark, page_limit,
    minute_start, retention_cutoffs, run_state_to_str, runs_to_prune, str_to_cleanup_stage, str_to_deletion_stage,
    str_to_run_state, JobDeletionStage, RunRetentionRow, TransientCleanupStage,
};

#[test]
fn run_states_round_trip_through_their_text() {
    let all = [
        JobRunStateDto::Pending,
        JobRunStateDto::Running,
        JobRunStateDto::Succeeded,
        JobRunStateDto::Failed,
        JobRunStateDto::TimedOut,
        JobRunStateDto::Cancelled,
        JobRunStateDto::Skipped,
    ];
    for s in all {
        assert_eq!(str_to_run_state(run_state_to_str(s)), s);
    }
    assert_eq!(run_state_to_str(JobRunStateDto::TimedOut), "timed_out");
    assert_eq!(str_to_run_state("bogus"), JobRunStateDto::Pending);
    assert_eq!(str_to_run_state(""), JobRunStateDto::Pending);
}

#[test]
fn cleanup_stages_round_trip_and_default_to_the_first() {
    let all = [
        TransientCleanupStage::TerminateGroup,
        TransientCleanupStage::WaitLeader,
        TransientCleanupStage::JoinPumps,
        TransientCleanupStage::SealLog,
        TransientCleanupStage::PersistTerminal,
    ];
    for s in all {
        assert_eq!(str_to_cleanup_stage(cleanup_stage_to_str(s)), s);
    }
    assert_eq!(cleanup_stage_to_str(TransientCleanupStage::SealLog), "seal_log");
    assert_eq!(str_to_cleanup_stage("Seal_Log"), TransientCleanupStage::TerminateGroup);
}

#[test]
fn deletion_stages_round_trip_and_default_to_prepared() {
    let all = [
        JobDeletionStage::Prepared,
        JobDeletionStage::DispatchFrozen,
        JobDeletionStage::SchedulerUnregistered,
        JobDeletionStage::RollbackRequired,
        JobDeletionStage::CancellationStarted,
        JobDeletionStage::RunsDraining,
        JobDeletionStage::RowsDeleted,
        JobDeletionStage::LogsCleaning,
        JobDeletionStage::Completed,
    ];
    for s in all {
        assert_eq!(str_to_deletion_stage(deletion_stage_to_str(s)), s);
    }
    assert_eq!(
        deletion_stage_to_str(JobDeletionStage::SchedulerUnregistered),
        "scheduler_unregistered"
    );
    assert_eq!(str_to_deletion_stage("unknown"), JobDeletionStage::Prepared);
}

#[test]
fn page_limits_are_clamped() {
    assert_eq!(page_limit(0), 1);
    assert_eq!(page_limit(1), 1);
    assert_eq!(page_limit(42), 42);
    assert_eq!(page_limit(500), 500);
    assert_eq!(page_limit(501), 500);
    assert_eq!(page_limit(usize::MAX), 500);
}

#[test]
fn cursors_split_at_the_first_bar() {
    assert_eq!(cursor(None), Ok(None));
    assert_eq!(
        cursor(Some("2024-01-01T00:00:00Z|abc")),
        Ok(Some(("2024-01-01T00:00:00Z".to_string(), "abc".to_string())))
    );
    assert_eq!(
        cursor(Some("a|b|c")),
        Ok(Some(("a".to_string(), "b|c".to_string())))
    );
    assert_eq!(cursor(Some("|")), Ok(Some((String::new(), String::new()))));
    assert_eq!(
        cursor(Some("no-bar")),
        Err("observability cursor is invalid or expired".to_string())
    );
    assert_eq!(
        cursor(Some("")),
        Err("observability cursor is invalid or expired".to_string())
    );
}

#[test]
fn high_watermark_is_the_last_key_and_reads_back() {
    assert_eq!(page_high_watermark(&Vec::new()), None);
    let keys = vec![
        ("t1".to_string(), "id1".to_string()),
        ("t2".to_string(), "id2".to_string()),
    ];
    let mark = page_high_watermark(&keys).unwrap();
    assert_eq!(mark, "t2|id2");
    assert_eq!(
        cursor(Some(&mark)),
        Ok(Some(("t2".to_string(), "id2".to_string())))
    );
}

const DAY_NANOS: i128 = 86_400_000_000_000;

fn run(id: &str, scheduled_at: i128, ended_at: Option<i128>) -> RunRetentionRow {
    RunRetentionRow { run_id: id.to_string(), scheduled_at, ended_at }
}

#[test]
fn prune_applies_age_without_deleting_recent_runs() {
    let now: i128 = 1_700_000_000_000_000_000;
    let rows = vec![run("recent", now, Some(now)), run("old", now - 10 * DAY_NANOS, Some(now - 10 * DAY_NANOS))];
    let removed = runs_to_prune(&rows, None, Some(now - 7 * DAY_NANOS));
    assert_eq!(removed, vec!["old".to_string()]);
}

#[test]
fn prune_without_limits_removes_nothing() {
    let rows = vec![run("a", 1, None), run("b", 0, None)];
    assert!(runs_to_prune(&rows, None, None).is_empty());
}

#[test]
fn prune_by_count_keeps_the_newest_runs() {
    let rows = vec![run("c", 30, None), run("b", 20, None), run("a", 10, None)];
    assert_eq!(runs_to_prune(&rows, Some(1), None), vec!["b".to_string(), "a".to_string()]);
    assert!(runs_to_prune(&rows, Some(3), None).is_empty());
    assert_eq!(runs_to_prune(&rows, Some(0), None).len(), 3);
}

#[test]
fn prune_ages_by_end_time_before_schedule() {
    // Scheduled long ago but ended recently: kept by the age rule.
    let rows = vec![run("late", 0, Some(100)), run("never_ended", 50, None)];
    assert_eq!(runs_to_prune(&rows, None, Some(60)), vec!["never_ended".to_string()]);
    // Either rule prunes.
    assert_eq!(runs_to_prune(&rows, Some(1), Some(60)), vec!["never_ended".to_string()]);
    assert_eq!(runs_to_prune(&rows, Some(0), Some(60)), vec!["late".to_string(), "never_ended".to_string()]);
}

#[test]
fn minute_start_floors_before_and_after_the_epoch() {
    assert_eq!(minute_start(0), 0);
    assert_eq!(minute_start(59_999_999_999), 0);
    assert_eq!(minute_start(60_000_000_000), 60_000_000_000);
    assert_eq!(minute_start(-1), -60_000_000_000);
    assert_eq!(minute_start(-60_000_000_000), -60_000_000_000);
    assert_eq!(minute_start(-60_000_000_001), -120_000_000_000);
}

#[test]
fn retention_cutoffs_seal_whole_minutes_a_day_back() {
    // 2023-11-14T22:13:20.5Z
    let now: i128 = 1_700_000_000_500_000_000;
    let cutoffs = retention_cutoffs(now);
    let day_ago = now - DAY_NANOS;
    assert_eq!(cutoffs.sealed_metrics, day_ago - day_ago.rem_euclid(60_000_000_000));
    assert_eq!(cutoffs.sealed_metrics, 1_699_913_580_000_000_000);
    assert_eq!(cutoffs.minute_metrics, now - 30 * DAY_NANOS);
    assert_eq!(cutoffs.completed_records, now - 30 * DAY_NANOS);
}
