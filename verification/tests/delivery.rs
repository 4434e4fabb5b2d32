use msv_supervisor::hook::{validate_hook_path, HookDelivery, HookRun, PathFacts};
use msv_supervisor::notification::{NotificationCenterDelivery, ScriptRun};

#[test]
fn notification_payload_is_a_separate_argument() {
    let delivery = NotificationCenterDelivery::new();
    let args = delivery.prepare("notification", "\" & do shell script \"rm").unwrap();
    assert_eq!(args.len(), 4);
    assert_eq!(args[0], "-e");
    assert!(args[1].starts_with("on run argv"));
    assert_eq!(args[2], "--");
    assert_eq!(args[3], "\" & do shell script \"rm");
    let refused = delivery.prepare("webhook", "x").unwrap_err();
    assert_eq!(refused.outcome, "unavailable");
    assert_eq!(refused.detail.as_deref(), Some("delivery kind is not Notification Center"));
}

#[test]
fn notification_runs_are_classified() {
    let d = NotificationCenterDelivery::new();
    let ok = d.classify(ScriptRun::Exited { success: true, stderr: b"ignored".to_vec() });
    assert_eq!((ok.outcome.as_str(), ok.detail), ("submitted", None));
    let denied = d.classify(ScriptRun::Exited { success: false, stderr: vec![b'x'; 2000] });
    assert_eq!(denied.outcome, "denied");
    assert_eq!(denied.detail.unwrap().len(), 1024);
    let lossy = d.classify(ScriptRun::Exited { success: false, stderr: vec![0xff, b'a'] });
    assert_eq!(lossy.detail.as_deref(), Some("\u{fffd}a"));
    let missing = d.classify(ScriptRun::NotFound("No such file".into()));
    assert_eq!((missing.outcome.as_str(), missing.detail.as_deref()), ("unavailable", Some("No such file")));
    let slow = d.classify(ScriptRun::TimedOut);
    assert_eq!(slow.outcome, "failed");
    assert_eq!(slow.detail.as_deref(), Some("Notification Center submission timed out after 30 seconds"));
}

fn facts(is_symlink: bool, uid: u32, mode: u32) -> PathFacts {
    PathFacts { metadata: Ok((is_symlink, uid, mode)), euid: 501 }
}

#[test]
fn hook_paths_are_checked() {
    assert_eq!(validate_hook_path("/usr/local/bin/hook", &facts(false, 501, 0o755)), Ok(()));
    assert_eq!(validate_hook_path("hook", &facts(false, 501, 0o755)).unwrap_err(), "hook paths must be absolute");
    assert_eq!(validate_hook_path("/h", &facts(true, 501, 0o755)).unwrap_err(), "hook paths must not be symlinks");
    assert_eq!(validate_hook_path("/h", &facts(false, 0, 0o755)).unwrap_err(), "hook path must be owned by the daemon user");
    assert_eq!(validate_hook_path("/h", &facts(false, 501, 0o757)).unwrap_err(), "hook path must not be world writable");
    let unreadable = PathFacts { metadata: Err("No such file".into()), euid: 501 };
    assert_eq!(validate_hook_path("/h", &unreadable).unwrap_err(), "No such file");
}

#[test]
fn hook_runs_are_classified() {
    let hook = HookDelivery::new(
        "/usr/local/bin/hook".into(),
        vec!["--alert".into()],
        Some("/tmp".into()),
        vec![("A".into(), "1".into())],
        &facts(false, 501, 0o755),
        Some(&facts(false, 501, 0o700)),
    )
    .unwrap();
    assert_eq!(hook.executable, "/usr/local/bin/hook");
    let ok = hook.classify(HookRun::Exited { success: true, status: "exit status: 0".into() });
    assert_eq!((ok.outcome.as_str(), ok.detail), ("submitted", None));
    let failed = hook.classify(HookRun::Exited { success: false, status: "exit status: 2".into() });
    assert_eq!(failed.detail.as_deref(), Some("hook exited with exit status: 2"));
    let slow = hook.classify(HookRun::TimedOut);
    assert_eq!(slow.detail.as_deref(), Some("hook timed out after 30 seconds; output capped at 65536 bytes"));
    assert_eq!(hook.classify(HookRun::GateClosed).detail.as_deref(), Some("hook concurrency gate closed"));
    assert_eq!(hook.classify(HookRun::StdinFailed).detail.as_deref(), Some("writing hook stdin failed"));
    assert!(HookDelivery::new("rel".into(), vec![], None, vec![], &facts(false, 501, 0o755), None).is_err());
}
