use chrono::{TimeZone, Utc};
use msv_supervisor::instant::{MAX_UTC_NANOS, MIN_UTC_NANOS};
use msv_supervisor::scheduler::{
    name_before, next_for, next_for_in_timezone, preview, JobSchedule, ScheduleTable,
    ScheduleTrigger, ScheduledJob, SchedulerError, TimerAction, TriggerTimer, MAX_DELTA_SECONDS,
    MAX_SLEEP_NANOS,
};

fn nanos_of(t: chrono::DateTime<Utc>) -> i128 {
    t.timestamp() as i128 * 1_000_000_000 + t.timestamp_subsec_nanos() as i128
}

fn nanos(y: i32, mo: u32, d: u32, h: u32, mi: u32, s: u32) -> i128 {
    nanos_of(Utc.with_ymd_and_hms(y, mo, d, h, mi, s).unwrap())
}

fn job(name: &str, trigger: ScheduleTrigger, timezone: &str) -> JobSchedule {
    JobSchedule { name: name.to_string(), trigger, timezone: timezone.to_string() }
}

fn cron_error(expr: &str) -> String {
    format!("{}", croner::Cron::new(expr).parse().unwrap_err())
}

#[test]
fn instant_range_matches_the_date_time_type() {
    assert_eq!(nanos_of(chrono::DateTime::<Utc>::MAX_UTC), MAX_UTC_NANOS);
    assert_eq!(nanos_of(chrono::DateTime::<Utc>::MIN_UTC), MIN_UTC_NANOS);
    assert_eq!(chrono::TimeDelta::MAX.num_seconds() as u64, MAX_DELTA_SECONDS);
}

#[test]
fn next_fire_of_each_trigger_kind() {
    let after = nanos(2024, 1, 1, 0, 0, 0);
    assert_eq!(next_for(&ScheduleTrigger::Interval(60), after), Some(after + 60_000_000_000));
    assert_eq!(next_for(&ScheduleTrigger::Interval(u64::MAX), after), None);
    assert_eq!(next_for(&ScheduleTrigger::OneShot(after + 5), after), Some(after + 5));
    assert_eq!(next_for(&ScheduleTrigger::OneShot(after), after), None);
    assert_eq!(next_for(&ScheduleTrigger::DependsOn(vec!["a".to_string()]), after), None);
    assert_eq!(
        next_for(&ScheduleTrigger::Cron("0 * * * *".to_string()), after),
        Some(nanos(2024, 1, 1, 1, 0, 0))
    );
    assert_eq!(next_for(&ScheduleTrigger::Cron("not a cron".to_string()), after), None);
}

#[test]
fn cron_is_read_in_the_time_zone() {
    let after = nanos(2024, 1, 1, 0, 0, 0);
    let noon = ScheduleTrigger::Cron("0 12 * * *".to_string());
    assert_eq!(
        next_for_in_timezone(&noon, after, "Asia/Tokyo"),
        Some(nanos(2024, 1, 1, 3, 0, 0))
    );
    assert_eq!(next_for_in_timezone(&noon, after, "UTC"), Some(nanos(2024, 1, 1, 12, 0, 0)));
    assert_eq!(next_for_in_timezone(&noon, after, "Mars/Olympus"), None);
}

#[test]
fn preview_refuses_large_counts_and_unknown_zones() {
    let after = nanos(2024, 1, 1, 0, 0, 0);
    assert_eq!(
        preview(&job("j", ScheduleTrigger::Interval(60), "UTC"), after, 101),
        Err(SchedulerError::PreviewBounded("count exceeds 100".to_string()))
    );
    assert_eq!(
        preview(&job("j", ScheduleTrigger::Interval(60), "Nowhere/Land"), after, 3),
        Err(SchedulerError::InvalidTimezone("Nowhere/Land".to_string()))
    );
}

#[test]
fn preview_lists_successive_fire_times() {
    let after = nanos(2024, 1, 1, 0, 0, 0);
    assert_eq!(
        preview(&job("j", ScheduleTrigger::Interval(60), "UTC"), after, 3),
        Ok(vec![after + 60_000_000_000, after + 120_000_000_000, after + 180_000_000_000])
    );
    assert_eq!(preview(&job("j", ScheduleTrigger::Interval(60), "UTC"), after, 0), Ok(vec![]));
    assert_eq!(
        preview(&job("j", ScheduleTrigger::OneShot(after + 7), "UTC"), after, 5),
        Ok(vec![after + 7])
    );
    assert_eq!(
        preview(&job("j", ScheduleTrigger::DependsOn(vec![]), "UTC"), after, 5),
        Ok(vec![])
    );
    assert_eq!(
        preview(&job("j", ScheduleTrigger::Cron("0 12 * * *".to_string()), "Asia/Tokyo"), after, 2),
        Ok(vec![nanos(2024, 1, 1, 3, 0, 0), nanos(2024, 1, 2, 3, 0, 0)])
    );
}

#[test]
fn preview_stops_at_the_five_year_horizon() {
    let after = nanos(2024, 1, 1, 0, 0, 0);
    let year = 365 * 24 * 3600;
    let five = preview(&job("j", ScheduleTrigger::Interval(year), "UTC"), after, 5).unwrap();
    assert_eq!(five.len(), 5);
    assert_eq!(five[4], after + 5 * year as i128 * 1_000_000_000);
    assert_eq!(
        preview(&job("j", ScheduleTrigger::Interval(year), "UTC"), after, 6),
        Err(SchedulerError::PreviewBounded("search horizon exceeds 5 years".to_string()))
    );
}

#[test]
fn names_compare_in_character_order() {
    assert!(name_before("a", "b"));
    assert!(name_before("a", "ab"));
    assert!(!name_before("ab", "a"));
    assert!(!name_before("same", "same"));
    assert!(name_before("", "x"));
    assert!(name_before("Zeta", "alpha"));
}

fn names(table: &ScheduleTable) -> Vec<String> {
    table.snapshot().into_iter().map(|j| j.name).collect()
}

#[test]
fn registrations_are_kept_in_name_order_one_per_name() {
    let mut table = ScheduleTable::new();
    assert_eq!(table.register("charlie", &ScheduleTrigger::Interval(5)), Ok(()));
    assert_eq!(table.register("alpha", &ScheduleTrigger::Interval(1)), Ok(()));
    assert_eq!(table.register("bravo", &ScheduleTrigger::OneShot(9)), Ok(()));
    assert_eq!(table.register("alpha", &ScheduleTrigger::Interval(2)), Ok(()));
    assert_eq!(names(&table), vec!["alpha", "bravo", "charlie"]);
    let snap = table.snapshot();
    assert!(matches!(snap[0].trigger, ScheduleTrigger::Interval(2)));
    table.unregister("bravo");
    table.unregister("missing");
    assert_eq!(names(&table), vec!["alpha", "charlie"]);
}

#[test]
fn a_bad_cron_expression_is_refused_and_changes_nothing() {
    let mut table = ScheduleTable::new();
    assert_eq!(table.register("a", &ScheduleTrigger::Interval(1)), Ok(()));
    assert_eq!(
        table.register("b", &ScheduleTrigger::Cron("61 * * * *".to_string())),
        Err(SchedulerError::InvalidCron(cron_error("61 * * * *")))
    );
    assert_eq!(names(&table), vec!["a"]);
}

#[test]
fn register_job_checks_the_time_zone_of_cron_jobs_only() {
    let mut table = ScheduleTable::new();
    assert_eq!(
        table.register_job(&job("c", ScheduleTrigger::Cron("0 * * * *".to_string()), "Bad/Zone")),
        Err(SchedulerError::InvalidTimezone("Bad/Zone".to_string()))
    );
    assert_eq!(table.register_job(&job("i", ScheduleTrigger::Interval(3), "Bad/Zone")), Ok(()));
    assert_eq!(
        table.register_job(&job("c", ScheduleTrigger::Cron("0 * * * *".to_string()), "Europe/Paris")),
        Ok(())
    );
    assert_eq!(names(&table), vec!["c", "i"]);
}

#[test]
fn restoring_a_snapshot_reproduces_the_table() {
    let mut table = ScheduleTable::new();
    table.register("x", &ScheduleTrigger::Interval(10)).unwrap();
    table.register("w", &ScheduleTrigger::Cron("*/5 * * * *".to_string())).unwrap();
    let snap = table.snapshot();
    let mut other = ScheduleTable::new();
    other.register("stale", &ScheduleTrigger::Interval(1)).unwrap();
    assert_eq!(other.restore(&snap), Ok(()));
    assert_eq!(names(&other), vec!["w", "x"]);
}

#[test]
fn restore_stops_at_the_first_bad_entry() {
    let entries = vec![
        ScheduledJob { name: "b".to_string(), trigger: ScheduleTrigger::Interval(1) },
        ScheduledJob { name: "bad".to_string(), trigger: ScheduleTrigger::Cron("x".to_string()) },
        ScheduledJob { name: "a".to_string(), trigger: ScheduleTrigger::Interval(1) },
    ];
    let mut table = ScheduleTable::new();
    assert_eq!(table.restore(&entries), Err(SchedulerError::InvalidCron(cron_error("x"))));
    assert_eq!(names(&table), vec!["b"]);
}

#[test]
fn interval_timer_sleeps_fires_and_starts_over() {
    let start = nanos(2024, 1, 1, 0, 0, 0);
    let mut timer = TriggerTimer::new(ScheduleTrigger::Interval(7200), "UTC".to_string());
    assert_eq!(timer.tick(start), TimerAction::Sleep(MAX_SLEEP_NANOS));
    assert_eq!(timer.tick(start + 3_600_000_000_000), TimerAction::Sleep(3_600_000_000_000));
    assert_eq!(timer.tick(start + 7_199_000_000_000), TimerAction::Sleep(1_000_000_000));
    assert_eq!(timer.tick(start + 7_200_000_000_001), TimerAction::Fire(start + 7_200_000_000_000));
    assert!(!timer.fired(true));
    assert_eq!(timer.tick(start + 7_200_000_000_001), TimerAction::Sleep(MAX_SLEEP_NANOS));
    assert!(timer.fired(false));
}

#[test]
fn one_shot_timer_fires_once_and_past_one_shots_never() {
    let start = nanos(2024, 1, 1, 0, 0, 0);
    let mut timer = TriggerTimer::new(ScheduleTrigger::OneShot(start + 10), "UTC".to_string());
    assert_eq!(timer.tick(start), TimerAction::Sleep(10));
    assert_eq!(timer.tick(start + 10), TimerAction::Fire(start + 10));
    assert!(timer.fired(true));
    let mut past = TriggerTimer::new(ScheduleTrigger::OneShot(start), "UTC".to_string());
    assert_eq!(past.tick(start), TimerAction::Stop);
    let mut dependent = TriggerTimer::new(ScheduleTrigger::DependsOn(vec![]), "UTC".to_string());
    assert_eq!(dependent.tick(start), TimerAction::Stop);
}

#[test]
fn restore_replaces_armed_triggers_with_snapshot() {
    let mut table = ScheduleTable::new();
    let original = vec![ScheduledJob { name: "hourly".into(), trigger: ScheduleTrigger::Interval(3600) }];
    table.restore(&original).unwrap();
    table.register("temporary", &ScheduleTrigger::Interval(1)).unwrap();
    table.restore(&original).unwrap();
    let snapshot = table.snapshot();
    assert_eq!(snapshot.len(), 1);
    assert_eq!(snapshot[0].name, "hourly");
    assert!(matches!(snapshot[0].trigger, ScheduleTrigger::Interval(3600)));
    assert!(next_for(&original[0].trigger, nanos_of(Utc::now())).is_some());
}

#[test]
fn utc_cron_preview_strictly_increases_after_start() {
    let after = nanos(2024, 1, 1, 10, 30, 0);
    let times = preview(&job("j", ScheduleTrigger::Cron("0 * * * *".to_string()), "UTC"), after, 4).unwrap();
    assert_eq!(times.len(), 4);
    assert!(times[0] > after);
    assert!(times.windows(2).all(|w| w[0] < w[1]));
    assert_eq!(times[0], nanos(2024, 1, 1, 11, 0, 0));
}

#[test]
fn interval_fire_times_keep_nanoseconds() {
    let after = nanos(2024, 1, 1, 0, 0, 0) + 123;
    assert_eq!(next_for(&ScheduleTrigger::Interval(1), after), Some(after + 1_000_000_000));
    let cron = next_for(&ScheduleTrigger::Cron("0 * * * *".to_string()), after).unwrap();
    assert_eq!(cron, nanos(2024, 1, 1, 1, 0, 0));
}
