use msv_supervisor::repr::{
    trigger_of_repr, trigger_repr, triggered_by_repr, RunTrigger, TriggerRepr, TriggeredByRepr,
};
use msv_supervisor::scheduler::ScheduleTrigger;

#[test]
fn triggers_round_trip_through_their_stored_form() {
    let stored = trigger_repr(&ScheduleTrigger::Cron("0 * * * *".to_string()));
    assert!(matches!(&stored, TriggerRepr::Cron { expr } if expr == "0 * * * *"));
    assert!(matches!(trigger_of_repr(stored), ScheduleTrigger::Cron(expr) if expr == "0 * * * *"));
    assert!(matches!(trigger_repr(&ScheduleTrigger::Interval(60)), TriggerRepr::Interval { every_sec: 60 }));
    assert!(matches!(trigger_of_repr(TriggerRepr::OneShot { at: 7 }), ScheduleTrigger::OneShot(7)));
    let jobs = trigger_repr(&ScheduleTrigger::DependsOn(vec!["a".into(), "b".into()]));
    assert!(matches!(trigger_of_repr(jobs), ScheduleTrigger::DependsOn(j) if j == vec!["a", "b"]));
}

#[test]
fn run_triggers_store_ids_as_hyphenated_text() {
    let scheduled = RunTrigger::Scheduled { trigger_id: 42, schedule_revision: 3, scheduled_at: 9, attempt: 1 };
    let stored = triggered_by_repr(&scheduled);
    match &stored {
        TriggeredByRepr::Scheduled { trigger_id, schedule_revision, scheduled_at, attempt } => {
            assert_eq!(trigger_id, "00000000-0000-0000-0000-00000000002a");
            assert_eq!((*schedule_revision, *scheduled_at, *attempt), (3, 9, 1));
        }
        other => panic!("unexpected {other:?}"),
    }
    assert_eq!(stored.into_domain(), scheduled);
    let dependency = RunTrigger::Dependency { upstream_run_id: u128::MAX };
    assert_eq!(triggered_by_repr(&dependency).into_domain(), dependency);
    assert_eq!(triggered_by_repr(&RunTrigger::Manual).into_domain(), RunTrigger::Manual);
    assert_eq!(triggered_by_repr(&RunTrigger::Schedule).into_domain(), RunTrigger::Schedule);
}

#[test]
fn unreadable_ids_read_as_nil() {
    let stored = TriggeredByRepr::Dependency { upstream_run_id: "not-a-uuid".to_string() };
    assert_eq!(stored.into_domain(), RunTrigger::Dependency { upstream_run_id: 0 });
}
