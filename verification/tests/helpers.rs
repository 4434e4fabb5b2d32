use msv_supervisor::spawn::{
    parse_proxy_arguments, parse_reaper_arguments, proxy_arguments, reaper_arguments,
    validate_helper_path, DetachedHelperPaths, DetachedTestControls, HelperProbe, ProxyInvocation,
    ProxyRun, ReaperInvocation,
};

fn probe(path: &str, canonical: Result<&str, &str>, metadata: Result<(bool, u32), &str>) -> HelperProbe {
    HelperProbe {
        path: path.to_string(),
        canonical: canonical.map(str::to_string).map_err(str::to_string),
        metadata: metadata.map_err(str::to_string),
    }
}

#[test]
fn helper_paths_must_resolve_to_executable_files() {
    let good = probe("bin/msv-log-proxy", Ok("/opt/msv/bin/msv-log-proxy"), Ok((true, 0o755)));
    let reaper = probe("bin/msv-group-reaper", Ok("/opt/msv/bin/msv-group-reaper"), Ok((true, 0o700)));
    let paths = DetachedHelperPaths::new(&good, &reaper).unwrap();
    assert_eq!(paths.log_proxy, "/opt/msv/bin/msv-log-proxy");
    assert_eq!(paths.group_reaper, "/opt/msv/bin/msv-group-reaper");

    let missing = probe("nope", Err("No such file or directory (os error 2)"), Ok((true, 0o755)));
    assert_eq!(
        validate_helper_path("msv-log-proxy", &missing).unwrap_err(),
        "msv-log-proxy is unavailable at nope: No such file or directory (os error 2)"
    );
    let dir = probe("d", Ok("/d"), Ok((false, 0o755)));
    assert_eq!(validate_helper_path("msv-group-reaper", &dir).unwrap_err(), "msv-group-reaper at /d is not a regular file");
    let plain = probe("f", Ok("/f"), Ok((true, 0o644)));
    assert_eq!(validate_helper_path("msv-log-proxy", &plain).unwrap_err(), "msv-log-proxy at /f is not executable");
    let unreadable = probe("f", Ok("/f"), Err("denied"));
    assert_eq!(validate_helper_path("msv-log-proxy", &unreadable).unwrap_err(), "reading msv-log-proxy at /f failed: denied");
    assert!(DetachedHelperPaths::new(&plain, &reaper).is_err());
}

#[test]
fn proxy_command_line_reads_back() {
    let controls = DetachedTestControls { proxy_fail_after_appends: Some(3), ..DetachedTestControls::default() };
    let args = proxy_arguments(
        &controls,
        "/logs/p.jsonl",
        &vec![7, 9],
        "/bin/sh",
        &vec!["-c".to_string(), "echo --journal".to_string()],
    );
    assert_eq!(
        args,
        vec![
            "--test-fail-after-appends", "3", "--journal", "/logs/p.jsonl", "--control-fd", "7",
            "--control-fd", "9", "--", "/bin/sh", "-c", "echo --journal",
        ]
    );
    assert_eq!(
        parse_proxy_arguments(&args),
        Some(ProxyInvocation::Run(ProxyRun {
            fail_after_appends: Some(3),
            journal: "/logs/p.jsonl".to_string(),
            control_fds: vec![7, 9],
            command: "/bin/sh".to_string(),
            args: vec!["-c".to_string(), "echo --journal".to_string()],
        }))
    );
}

#[test]
fn proxy_usage_errors_and_anchor_mode() {
    let s = |v: &[&str]| v.iter().map(|x| x.to_string()).collect::<Vec<_>>();
    assert_eq!(parse_proxy_arguments(&s(&["--group-anchor"])), Some(ProxyInvocation::GroupAnchor));
    assert_eq!(parse_proxy_arguments(&s(&["--group-anchor", "x"])), None);
    assert_eq!(parse_proxy_arguments(&s(&["--journal", "j", "--control-fd", "-3", "--", "c"])), None);
    assert_eq!(parse_proxy_arguments(&s(&["--journal", "j", "--", ])), None);
    assert_eq!(parse_proxy_arguments(&s(&["--test-fail-after-appends", "x", "--journal", "j", "--", "c"])), None);
    match parse_proxy_arguments(&s(&["--journal", "j", "--control-fd", "+4", "--", "c"])) {
        Some(ProxyInvocation::Run(run)) => assert_eq!(run.control_fds, vec![4]),
        other => panic!("unexpected {other:?}"),
    }
}

#[test]
fn reaper_command_lines_read_back() {
    let controls = DetachedTestControls {
        proxy_fail_after_appends: None,
        reaper_withhold_takeover_ack: true,
        first_reaper_crash_after_start: true,
    };
    let first = reaper_arguments(5, &controls, 0);
    assert_eq!(first, vec!["--control-fd", "5", "--test-withhold-takeover-ack", "--test-crash-after-start"]);
    assert_eq!(
        parse_reaper_arguments(&first),
        Some(ReaperInvocation { control_fd: 5, withhold_takeover_ack: true, crash_after_start: true })
    );
    let second = reaper_arguments(6, &controls, 1);
    assert_eq!(
        parse_reaper_arguments(&second),
        Some(ReaperInvocation { control_fd: 6, withhold_takeover_ack: true, crash_after_start: false })
    );
    let plain = reaper_arguments(8, &DetachedTestControls::default(), 0);
    assert_eq!(plain, vec!["--control-fd", "8"]);
    assert_eq!(parse_reaper_arguments(&vec!["--control-fd".to_string(), "8".to_string(), "--x".to_string()]), None);
    assert_eq!(parse_reaper_arguments(&vec!["--control-fd".to_string()]), None);
}
