use msv_supervisor::api::ProcessStateDto;
use msv_supervisor::instant::split_instant;
use msv_supervisor::wire::{event_wire, rfc3339_timestamp, WireEvent, WireValue};

#[test]
fn state_change_envelope_keeps_ids_and_occurrence_time() {
    let w = event_wire(
        WireEvent::ProcessStateChanged {
            name: "web".into(),
            from: ProcessStateDto::Starting,
            to: ProcessStateDto::Running,
            definition_id: 1,
            instance_id: None,
            generation: 3,
        },
        Some(1_000),
        9_999,
        Some(0x0123_4567_89ab_cdef_0123_4567_89ab_cdef),
    );
    assert_eq!(w.event_type, "process.state_changed");
    assert_eq!(w.timestamp, 1_000);
    assert_eq!(w.event_id.as_deref(), Some("01234567-89ab-cdef-0123-456789abcdef"));
    let names: Vec<&str> = w.payload.iter().map(|(n, _)| n.as_str()).collect();
    assert_eq!(names, ["name", "from", "to", "definition_id", "instance_id", "generation"]);
    assert!(matches!(&w.payload[2].1, WireValue::Text(t) if t == "running"));
    assert!(matches!(&w.payload[3].1, WireValue::Text(t) if t == "00000000-0000-0000-0000-000000000001"));
    assert!(matches!(w.payload[4].1, WireValue::Null));
    assert!(matches!(w.payload[5].1, WireValue::Unsigned(3)));
}

#[test]
fn run_events_without_time_use_now_and_no_id() {
    let w = event_wire(WireEvent::JobRunFailed { name: "j".into(), run_id: 2, exit_code: Some(7) }, None, 42, None);
    assert_eq!(w.event_type, "job.run_failed");
    assert_eq!(w.timestamp, 42);
    assert!(w.event_id.is_none());
    assert!(matches!(w.payload[2].1, WireValue::Signed(7)));
    let s = event_wire(WireEvent::JobRunSkipped { name: "j".into(), run_id: 2, reason: "overlap".into() }, None, 1, None);
    assert_eq!(s.event_type, "job.run_skipped");
    assert!(matches!(&s.payload[2], (n, WireValue::Text(r)) if n == "reason" && r == "overlap"));
}

#[test]
fn instants_split_and_render_like_chrono() {
    assert_eq!(split_instant(1_500_000_000), Some((1, 500_000_000)));
    assert_eq!(split_instant(-1), Some((-1, 999_999_999)));
    assert_eq!(split_instant(-1_000_000_000), Some((-1, 0)));
    assert_eq!(split_instant(i128::MAX), None);
    assert_eq!(rfc3339_timestamp(0).as_deref(), Some("1970-01-01T00:00:00+00:00"));
    assert_eq!(rfc3339_timestamp(1_000_000_001).as_deref(), Some("1970-01-01T00:00:01.000000001+00:00"));
    assert_eq!(rfc3339_timestamp(i128::MAX), None);
}
