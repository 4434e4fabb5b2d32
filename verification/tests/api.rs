use msv_supervisor::error::ErrorBody;
use msv_supervisor::events::EventEnvelope;
use msv_supervisor::api::{
    default_desired_instances, default_enabled, default_max_attempts, default_preview_count,
    default_retry_initial_backoff_sec, default_retry_jitter_percent, default_retry_max_backoff_sec,
    default_retry_multiplier, is_false, ConfigApplyModeDto, ConfigDiffDto, LogRetentionDto,
    RecoveryDiagnosticsDto, RestartPolicyDto, RetryPolicyDto, ShutdownPolicyDto,
};
use msv_supervisor::events::{LogDroppedFrame, LogDroppedPayload, LogDroppedType};

#[test]
fn wire_defaults() {
    assert_eq!(default_desired_instances(), 1);
    assert_eq!(default_max_attempts(), 1);
    assert_eq!(default_retry_initial_backoff_sec(), 1);
    assert_eq!(default_retry_max_backoff_sec(), 300);
    assert_eq!(default_retry_multiplier(), 2);
    assert_eq!(default_retry_jitter_percent(), 20);
    assert_eq!(default_preview_count(), 10);
    assert!(default_enabled());
    assert!(is_false(&false));
    assert!(!is_false(&true));
}

#[test]
fn default_records_are_empty() {
    assert_eq!(ConfigApplyModeDto::default(), ConfigApplyModeDto::Merge);
    assert!(ConfigDiffDto::default().added_processes.is_empty());
    assert_eq!(LogRetentionDto::default(), LogRetentionDto { max_runs: None, max_age_days: None });
    assert!(RecoveryDiagnosticsDto::default().records.is_empty());
    assert_eq!(RestartPolicyDto::default().max_retries, None);
    assert_eq!(ShutdownPolicyDto::default().signal, None);
    let retry = RetryPolicyDto {
        max_attempts: default_max_attempts(),
        initial_backoff_sec: default_retry_initial_backoff_sec(),
        max_backoff_sec: default_retry_max_backoff_sec(),
        multiplier: default_retry_multiplier(),
        jitter_percent: default_retry_jitter_percent(),
    };
    assert_eq!(retry.max_backoff_sec, 300);
    let frame = LogDroppedFrame { frame_type: LogDroppedType::LogDropped, payload: LogDroppedPayload { count: 3 } };
    assert_eq!(frame.payload.count, 3);
}

#[test]
fn error_bodies_carry_code_message_and_details() {
    let body = ErrorBody::new("not_found".to_string(), "no such process".to_string());
    assert_eq!(body.error.code, "not_found");
    assert_eq!(body.error.message, "no such process");
    assert!(body.error.details.is_none());
    let detailed = body.with_details(serde_json::Value::String("web".to_string()));
    assert_eq!(detailed.error.code, "not_found");
    assert_eq!(detailed.error.details, Some(serde_json::Value::String("web".to_string())));
}

#[test]
fn event_envelopes_are_stamped_with_the_given_time() {
    let event = EventEnvelope::new("process.started".to_string(), serde_json::Value::Bool(true), 42);
    assert_eq!(event.event_type, "process.started");
    assert_eq!(event.timestamp, 42);
    assert_eq!(event.payload, serde_json::Value::Bool(true));
}
