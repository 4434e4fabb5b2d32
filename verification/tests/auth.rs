use msv_supervisor::api::{BackupResultDto, TokenRotationDto, UpgradeJournalDto};
use msv_supervisor::auth::{
    is_strict_loopback_origin, session_id_from_cookie, AuthRequest, AuthState, MaintenanceHandlers,
};

type Handler<T> = Box<dyn Fn() -> Result<T, String>>;
type State = AuthState<Handler<TokenRotationDto>, Handler<BackupResultDto>, Handler<UpgradeJournalDto>>;

const MINUTE: u64 = 60_000_000_000;

fn request(cookie: &str, method: &str, csrf: Option<&str>) -> AuthRequest {
    AuthRequest {
        authorization: None,
        origin: Some("http://127.0.0.1:5173".to_string()),
        cookie: Some(cookie.to_string()),
        method: method.to_string(),
        csrf_token: csrf.map(str::to_string),
    }
}

#[test]
fn bearer_is_compared_exactly() {
    let state: State = AuthState::new("s3cret".to_string(), 4);
    let ok = state.authenticate(Some("Bearer s3cret")).unwrap();
    assert_eq!(ok.generation, 4);
    assert!(!ok.is_browser_session());
    assert!(state.authenticate(Some("Bearer s3cret2")).is_none());
    assert!(state.authenticate(Some("bearer s3cret")).is_none());
    assert!(state.authenticate(Some("s3cret")).is_none());
    assert!(state.authenticate(None).is_none());
}

#[test]
fn cookie_session_ids_are_found_among_other_cookies() {
    assert_eq!(session_id_from_cookie(Some("a=1; msv_session=abc ; b=2")), Some("abc".to_string()));
    assert_eq!(session_id_from_cookie(Some("msv_session=")), Some(String::new()));
    assert_eq!(session_id_from_cookie(Some("a=1")), None);
    assert_eq!(session_id_from_cookie(None), None);
}

#[test]
fn only_strict_loopback_origins_are_accepted() {
    assert!(is_strict_loopback_origin(Some("http://localhost")));
    assert!(is_strict_loopback_origin(Some("http://127.0.0.1")));
    assert!(is_strict_loopback_origin(Some("http://localhost:8080")));
    assert!(!is_strict_loopback_origin(Some("http://localhost.evil.com")));
    assert!(!is_strict_loopback_origin(Some("https://localhost")));
    assert!(!is_strict_loopback_origin(None));
}

#[test]
fn browser_sessions_live_bounded_and_need_csrf_for_mutations() {
    let mut state: State = AuthState::new("s3cret".to_string(), 2);
    let (id, boot) = state.bootstrap_session_with(2, "sid".to_string(), "nonce".to_string(), 0, 1_000);
    assert_eq!(id, "sid");
    assert_eq!(boot.csrf_token, "nonce");
    assert_eq!(boot.expires_at, 1_000 + 10 * MINUTE as i128);
    let cookie = "msv_session=sid";

    let get = state.authorize(&request(cookie, "GET", None), MINUTE, 2_000).unwrap();
    assert!(get.is_browser_session());
    assert_eq!(get.generation, 2);
    assert!(state.authorize(&request(cookie, "POST", None), MINUTE, 2_000).is_none());
    assert!(state.authorize(&request(cookie, "POST", Some("other")), MINUTE, 2_000).is_none());
    assert!(state.authorize(&request(cookie, "POST", Some("nonce")), MINUTE, 2_000).is_some());
    assert_eq!(state.session_count(), 1);

    // idle for more than ten minutes: refused and dropped
    assert!(state.authorize(&request(cookie, "GET", None), 12 * MINUTE, 3_000).is_none());
    assert_eq!(state.session_count(), 0);
}

#[test]
fn logout_and_rotation_end_sessions() {
    let mut state: State = AuthState::new("s3cret".to_string(), 1);
    state.bootstrap_session_with(1, "a".to_string(), "n".to_string(), 0, 0);
    state.bootstrap_session_with(1, "b".to_string(), "n".to_string(), 0, 0);
    assert_eq!(state.session_count(), 2);
    state.logout_session(Some("msv_session=a"));
    assert_eq!(state.session_count(), 1);
    assert!(state.authorize(&request("msv_session=a", "GET", None), 1, 1).is_none());
    state.rotate("new".to_string(), 2);
    assert_eq!(state.session_count(), 0);
    assert!(state.authorize(&request("msv_session=b", "GET", None), 1, 1).is_none());
    assert!(state.authenticate(Some("Bearer s3cret")).is_none());
    assert_eq!(state.authenticate(Some("Bearer new")).unwrap().generation, 2);
}

#[test]
fn sessions_of_an_earlier_generation_or_foreign_origin_are_refused() {
    let mut state: State = AuthState::new("s3cret".to_string(), 3);
    state.bootstrap_session_with(2, "old".to_string(), "n".to_string(), 0, 0);
    let mut foreign = request("msv_session=old", "GET", None);
    foreign.origin = Some("http://example.com".to_string());
    assert!(state.authorize(&foreign, 1, 1).is_none());
    assert_eq!(state.session_count(), 1);
    assert!(state.authorize(&request("msv_session=old", "GET", None), 1, 1).is_none());
    assert_eq!(state.session_count(), 0);
}

#[test]
fn session_ages_out_after_fifteen_minutes_even_when_used() {
    let mut state: State = AuthState::new("t".to_string(), 1);
    state.bootstrap_session_with(1, "s".to_string(), "n".to_string(), 0, 0);
    let cookie = "msv_session=s";
    for minute in [5u64, 10, 14] {
        assert!(state.authorize(&request(cookie, "GET", None), minute * MINUTE, 0).is_some());
    }
    assert!(state.authorize(&request(cookie, "GET", None), 16 * MINUTE, 0).is_none());
}

#[test]
fn random_bootstrap_ids_are_simple_uuids() {
    let mut state: State = AuthState::new("t".to_string(), 1);
    let (id, boot) = state.bootstrap_session(1, 0, 0);
    assert_eq!(id.len(), 32);
    assert_eq!(boot.csrf_token.len(), 32);
    assert_ne!(id, boot.csrf_token);
    assert!(id.chars().all(|c| c.is_ascii_hexdigit() && !c.is_ascii_uppercase()));
    assert!(state
        .authorize(&request(&format!("msv_session={id}"), "GET", None), 1, 0)
        .is_some());
}

#[test]
fn maintenance_operations_report_unavailability() {
    let mut state: State = AuthState::new("t".to_string(), 1);
    assert_eq!(state.rotate_token().unwrap_err(), "token rotation is unavailable for this host");
    assert_eq!(state.backup().unwrap_err(), "backup is unavailable for this host");
    assert_eq!(state.upgrade().unwrap_err(), "upgrade is unavailable for this host");
    assert_eq!(state.rollback().unwrap_err(), "rollback is unavailable for this host");
    let mut handlers: MaintenanceHandlers<_, _, _> = MaintenanceHandlers::default();
    handlers.rotate = Some(Box::new(|| Ok(TokenRotationDto { credential_generation: 9 })) as Handler<_>);
    state.install_maintenance_handlers(handlers);
    assert_eq!(state.rotate_token().unwrap().credential_generation, 9);
}
