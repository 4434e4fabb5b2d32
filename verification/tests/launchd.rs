use msv_supervisor::launchd::{
    parse_launchctl_pid, xml, AgentAction, AgentEvent, AgentPhase, AgentSpec, CommandOutput,
    LaunchdAgentProcess, SupervisorLaunchAgent, SupervisorServiceState, UnitStartAction, UnitStartEvent,
    UnitStartPhase,
};

#[test]
fn parses_running_pid_and_rejects_stopped_output() {
    assert_eq!(parse_launchctl_pid("{\n  \"PID\" = 4321;\n}"), Some(4321));
    assert_eq!(parse_launchctl_pid("{\n  \"LastExitStatus\" = 0;\n}"), None);
}

#[test]
fn generated_plist_preserves_working_directory_and_escapes_values() {
    let registrar = LaunchdAgentProcess {
        agents_dir: "/tmp/agents".to_string(),
        log_dir: "/tmp/logs".to_string(),
        uid: 501,
        test_controls: None,
    };
    let spec = AgentSpec {
        command: "/bin/echo".to_string(),
        args: vec!["a&b".to_string()],
        env: Vec::new(),
        cwd: Some("/tmp/work dir".to_string()),
        autostart: true,
        restart_enabled: false,
    };
    let plist = registrar.build_plist("com.example.service", &spec);
    assert!(plist.contains("<string>a&amp;b</string>"));
    assert!(plist.contains("<key>WorkingDirectory</key><string>/tmp/work dir</string>"));
    assert!(plist.contains("<key>RunAtLoad</key><true/>"));
}

#[test]
fn xml_escapes_every_markup_character() {
    assert_eq!(xml("<a href=\"x\">'&'</a>"), "&lt;a href=&quot;x&quot;&gt;&apos;&amp;&apos;&lt;/a&gt;");
    assert_eq!(xml("plain"), "plain");
}

#[test]
fn launchctl_pid_reads_either_spelling_and_skips_garbage() {
    assert_eq!(parse_launchctl_pid("\"PID\" = 0;"), Some(0));
    assert_eq!(parse_launchctl_pid("  pid = 55\n"), Some(55));
    assert_eq!(parse_launchctl_pid("\"PID\" = abc;"), None);
    assert_eq!(parse_launchctl_pid("state = running\n\t\"PID\" = 77;\n"), Some(77));
}

#[test]
fn agent_paths_follow_the_unit_name() {
    let registrar = LaunchdAgentProcess {
        agents_dir: "/tmp/agents".to_string(),
        log_dir: "/tmp/logs".to_string(),
        uid: 501,
        test_controls: None,
    };
    assert_eq!(registrar.plist_path("com.example.service"), "/tmp/agents/com.example.service.plist");
    assert_eq!(registrar.domain(), "gui/501");
    assert_eq!(registrar.service_target("com.example.service"), "gui/501/com.example.service");
}

fn supervisor_agent() -> SupervisorLaunchAgent {
    SupervisorLaunchAgent {
        root: "/srv/msv".to_string(),
        plist_path: "/home/u/Library/LaunchAgents/com.my-supervisor.daemon.plist".to_string(),
        binary: "/usr/local/bin/msvd".to_string(),
        uid: 501,
        label: "com.my-supervisor.daemon".to_string(),
    }
}

#[test]
fn stop_without_plist_runs_nothing_and_reports_not_installed() {
    let agent = supervisor_agent();
    let (phase, action) = agent.stop(false);
    assert_eq!(phase, AgentPhase::Done);
    match action {
        AgentAction::Finish(Ok(status)) => assert_eq!(status.state, SupervisorServiceState::NotInstalled),
        other => panic!("unexpected {other:?}"),
    }
    let (phase, action) = agent.status(false);
    assert_eq!(phase, AgentPhase::Done);
    assert!(matches!(action, AgentAction::Finish(Ok(_))));
}

#[test]
fn stop_writes_marker_then_boots_out_then_reports() {
    let agent = supervisor_agent();
    let (phase, action) = agent.stop(true);
    assert_eq!(phase, AgentPhase::Preparing);
    assert!(matches!(&action, AgentAction::PrepareDirectory(p) if p == "/srv/msv/run/intentional-stop"));
    let (phase, action) = agent.advance(phase, AgentEvent::Prepared(Ok(())));
    assert_eq!(phase, AgentPhase::Writing);
    assert!(matches!(&action, AgentAction::WriteMarker(p, c)
        if p == "/srv/msv/run/intentional-stop" && c.as_bytes() == b"intentional-stop\n"));
    let (phase, action) = agent.advance(phase, AgentEvent::Written(Ok(())));
    assert_eq!(phase, AgentPhase::BootingOut);
    assert!(matches!(&action, AgentAction::Bootout(t) if t == "gui/501/com.my-supervisor.daemon"));
    let (phase, action) = agent.advance(phase, AgentEvent::BootedOut);
    assert_eq!(phase, AgentPhase::Printing);
    assert!(matches!(&action, AgentAction::Print(t) if t == "gui/501/com.my-supervisor.daemon"));
    let printed = CommandOutput { success: true, stdout: "{\n  \"PID\" = 77;\n}".to_string(), stderr: String::new() };
    let (phase, action) = agent.advance(phase, AgentEvent::Printed(Ok(printed)));
    assert_eq!(phase, AgentPhase::Done);
    match action {
        AgentAction::Finish(Ok(status)) => {
            assert_eq!(status.state, SupervisorServiceState::Ready);
            assert_eq!(status.pid, Some(77));
        }
        other => panic!("unexpected {other:?}"),
    }
}

#[test]
fn stop_failures_end_before_bootout() {
    let agent = supervisor_agent();
    let (phase, action) = agent.advance(AgentPhase::Preparing, AgentEvent::Prepared(Err("denied".into())));
    assert_eq!(phase, AgentPhase::Done);
    assert!(matches!(action, AgentAction::Finish(Err(m)) if m == "preparing intentional-stop directory: denied"));
    let (phase, action) = agent.advance(AgentPhase::Writing, AgentEvent::Written(Err("full".into())));
    assert_eq!(phase, AgentPhase::Done);
    assert!(matches!(action, AgentAction::Finish(Err(m)) if m == "writing intentional-stop marker: full"));
}

#[test]
fn injected_start_failure_runs_no_launchctl() {
    let registrar = LaunchdAgentProcess::new("/tmp/logs".into(), Some("/home/u".into()), 501);
    let (phase, action) = registrar.start_unit("web", true);
    assert_eq!(phase, UnitStartPhase::Done);
    assert!(matches!(action, UnitStartAction::Finish(Err(m)) if m == "injected launchd start failure"));
    let (phase, action) = registrar.start_unit("web", false);
    assert_eq!(phase, UnitStartPhase::BootingOut);
    assert!(matches!(&action, UnitStartAction::Bootout(t) if t == "gui/501/web"));
    let (phase, action) = registrar.advance_start("web", phase, UnitStartEvent::BootedOut);
    assert!(matches!(&action, UnitStartAction::CheckPlist(p) if p == "/home/u/Library/LaunchAgents/web.plist"));
    let (_, missing) = registrar.advance_start("web", phase, UnitStartEvent::PlistChecked(false));
    assert!(matches!(missing, UnitStartAction::Finish(Err(m)) if m == "unit not found: web"));
    let (phase, action) = registrar.advance_start("web", phase, UnitStartEvent::PlistChecked(true));
    assert!(matches!(&action, UnitStartAction::Bootstrap(d, p) if d == "gui/501" && p == "/home/u/Library/LaunchAgents/web.plist"));
    let failed = CommandOutput { success: false, stdout: String::new(), stderr: " boom \n".into() };
    let (_, done) = registrar.advance_start("web", phase, UnitStartEvent::Bootstrapped(Ok(failed)));
    assert!(matches!(done, UnitStartAction::Finish(Err(m)) if m == "launchctl bootstrap failed: boom"));
}
