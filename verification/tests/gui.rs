use lamco_rdp_server::gui::server_connection::{
    after_poll, begin_termination, parse_pid, plan_connect, signal_failure, ConnectStep,
    ConnectionMode, ExternalServer, ProbeResult, ServerConnection, StopPlan, TerminationStep,
};
use lamco_rdp_server::gui::server_process::{
    after_term, check_pid_file, find_server_binary, not_found_message, parse_log_line,
    search_answer, server_arguments, temp_config_path, truncate_status, watch_stop, LogLevel,
    PidFileStatus, SearchStep, ServerProcess, StopStep, TermResult,
};

#[test]
fn test_connection_mode() {
    assert_eq!(ConnectionMode::DBus, ConnectionMode::DBus);
    assert_ne!(ConnectionMode::DBus, ConnectionMode::Process);
    assert_ne!(ConnectionMode::External, ConnectionMode::Process);
}

#[test]
fn external_server_kill_self_unreachable() {
    let ext = ExternalServer::new(1, "0.0.0.0:3389".to_string(), 0);
    // Process 1 belongs to someone else, and is alive.
    assert!(ext.is_running(ProbeResult::NotPermitted));
}

#[test]
fn external_servers_are_known_by_their_process() {
    let ext = ExternalServer::new(7, "0.0.0.0:3389".to_string(), 100);
    assert_eq!(ext.pid(), 7);
    assert_eq!(ext.address(), "0.0.0.0:3389");
    assert_eq!(ext.uptime(130), 30);
    assert_eq!(ext.uptime(90), 0);
    assert!(!ext.is_running(ProbeResult::NoSuchProcess));
    assert_eq!(
        ext.stop(ProbeResult::Delivered, Some("lamco-rdp-serve\n")),
        TerminationStep::SendTerm
    );
}

#[test]
fn only_the_server_is_terminated() {
    let begin = begin_termination;
    assert_eq!(begin(ProbeResult::Delivered, Some("lamco-rdp-serve")), TerminationStep::SendTerm);
    assert_eq!(begin(ProbeResult::Delivered, Some("bash")), TerminationStep::Finished);
    assert_eq!(begin(ProbeResult::Delivered, None), TerminationStep::Finished);
    assert_eq!(
        begin(ProbeResult::NoSuchProcess, Some("lamco-rdp-serve")),
        TerminationStep::Finished
    );
}

#[test]
fn a_server_is_killed_after_its_time() {
    assert_eq!(after_poll(1, ProbeResult::NoSuchProcess), TerminationStep::Finished);
    assert_eq!(after_poll(49, ProbeResult::Delivered), TerminationStep::Wait);
    assert_eq!(after_poll(50, ProbeResult::Delivered), TerminationStep::SendKill);
    assert_eq!(after_poll(50, ProbeResult::Other), TerminationStep::Finished);
    assert_eq!(signal_failure("SIGTERM", 12, "EPERM"), "SIGTERM to PID 12: EPERM");
}

#[test]
fn pid_files_are_read() {
    assert_eq!(parse_pid("1234\n"), Some(1234));
    assert_eq!(parse_pid(" +5 "), Some(5));
    assert_eq!(parse_pid("-5"), None);
    assert_eq!(parse_pid("4294967296"), None);
    assert_eq!(parse_pid(""), None);
    assert_eq!(check_pid_file("12", ProbeResult::Delivered), PidFileStatus::Running(12));
    assert_eq!(check_pid_file("12", ProbeResult::NotPermitted), PidFileStatus::Running(12));
    assert_eq!(check_pid_file("12", ProbeResult::NoSuchProcess), PidFileStatus::Stale);
    assert_eq!(check_pid_file("x", ProbeResult::Delivered), PidFileStatus::Unreadable);
}

#[test]
fn connections_know_what_they_are() {
    let mut external: ServerConnection<u8> =
        ServerConnection::external(7, "a:1".to_string(), 0);
    assert_eq!(external.mode(), ConnectionMode::External);
    assert_eq!(external.pid(), Some(7));
    assert_eq!(external.address(None), "a:1");
    assert_eq!(external.active_connections(Some(3)), 0);
    assert_eq!(external.stop(None), StopPlan::Terminate(7));
    assert!(external.as_dbus().is_none());
    assert!(external.as_dbus_mut().is_none());
    assert!(!external.is_running(true, ProbeResult::NoSuchProcess));
    assert!(external.is_running(false, ProbeResult::NotPermitted));
    assert_eq!(external.uptime(Some(9), 4), 4);
    external.detach();
    assert_eq!(external.pid(), Some(7));

    let mut dbus: ServerConnection<u8> = ServerConnection::DBus(4);
    *dbus.as_dbus_mut().unwrap() = 5;
    assert!(dbus.is_running(true, ProbeResult::NoSuchProcess));
    assert_eq!(dbus.uptime(Some(9), 4), 9);
    assert_eq!(dbus.uptime(None, 4), 0);
    assert_eq!(dbus.mode(), ConnectionMode::DBus);
    assert_eq!(dbus.pid(), None);
    assert_eq!(dbus.as_dbus(), Some(&5));
    assert_eq!(dbus.address(Some("b:2".to_string())), "b:2");
    assert_eq!(dbus.address(None), "");
    assert_eq!(dbus.active_connections(Some(3)), 3);
    assert_eq!(dbus.stop(Some("88\n")), StopPlan::Terminate(88));
    assert_eq!(dbus.stop(Some("none")), StopPlan::Disconnect);
    assert_eq!(dbus.stop(None), StopPlan::Disconnect);

    let child = ServerProcess::started_as(9, "c:3".to_string(), "/t".to_string(), 0);
    let mut process: ServerConnection<u8> = ServerConnection::Process(child);
    assert_eq!(process.stop(None), StopPlan::StopChild);
    process.detach();
    match process {
        ServerConnection::Process(child) => assert!(!child.stops_with_front_end()),
        _ => panic!("still a child"),
    }
    assert_eq!(plan_connect(true, true), ConnectStep::UseDBus);
    assert_eq!(plan_connect(true, false), ConnectStep::Spawn);
    assert_eq!(plan_connect(false, true), ConnectStep::Spawn);
}

#[test]
fn test_find_server_binary_not_found() {
    assert!(not_found_message(false).contains("Could not find"));
    assert_eq!(
        not_found_message(true),
        "Could not find lamco-rdp-server binary. Searched: Flatpak sandbox (/app/bin/)"
    );
}

fn search(in_flatpak: bool, exe_dir: Option<&str>) -> Vec<String> {
    find_server_binary(in_flatpak, exe_dir)
        .into_iter()
        .map(|step| match step {
            SearchStep::File(path) => path,
            SearchStep::Canonical(path) => format!("={path}"),
            SearchStep::SearchPath => "PATH".to_string(),
        })
        .collect()
}

#[test]
fn the_server_is_looked_for_in_order() {
    assert_eq!(
        search(true, Some("/app/bin")),
        vec!["/app/bin/lamco-rdp-server", "/app/bin/lamco-rdp-server", "PATH"]
    );
    assert_eq!(
        search(false, Some("/opt/x")),
        vec![
            "/opt/x/lamco-rdp-server",
            "=target/debug/lamco-rdp-server",
            "=target/release/lamco-rdp-server",
            "=../target/debug/lamco-rdp-server",
            "=../target/release/lamco-rdp-server",
            "PATH",
            "/usr/bin/lamco-rdp-server",
            "/usr/local/bin/lamco-rdp-server",
            "/opt/lamco/bin/lamco-rdp-server",
        ]
    );
    assert_eq!(search(false, None).len(), 8);
    assert_eq!(search_answer("/usr/bin/x\n"), Some("/usr/bin/x".to_string()));
    assert_eq!(search_answer(" \n"), None);
}

#[test]
fn test_parse_log_line_levels() {
    let parse = |line: &str| parse_log_line(line, "10:30:45".to_string());
    let error = parse("ERROR lamco_rdp_server: Connection failed");
    assert_eq!(error.level, LogLevel::Error);

    let warn = parse("2024-01-19T10:30:45Z  WARN module: Warning message");
    assert_eq!(warn.level, LogLevel::Warn);

    let info = parse("INFO  Starting server on port 3389");
    assert_eq!(info.level, LogLevel::Info);

    let unknown = parse("Some random output without level");
    assert_eq!(unknown.level, LogLevel::Info); // Default
}

#[test]
fn the_most_serious_level_counts() {
    let level = |line: &str| parse_log_line(line, String::new()).level;
    assert_eq!(level("INFO an ERROR came"), LogLevel::Error);
    assert_eq!(level("x DEBUG y"), LogLevel::Debug);
    assert_eq!(level("TRACE"), LogLevel::Trace);
    assert_eq!(level("x TRACE"), LogLevel::Info);
    let line = parse_log_line("a line", "12:00:00".to_string());
    assert_eq!(line.message, "a line");
    assert_eq!(line.timestamp, "12:00:00");
}

#[test]
fn servers_are_started_with_their_configuration() {
    assert_eq!(
        temp_config_path(Some("/run/user/1"), 44),
        "/run/user/1/lamco-rdp-server-gui-44.toml"
    );
    assert_eq!(temp_config_path(None, 44), "/tmp/lamco-rdp-server-gui-44.toml");
    assert_eq!(
        server_arguments("/c.toml".to_string()),
        vec!["--config", "/c.toml", "--dbus-service"]
    );
}

#[test]
fn children_are_stopped_step_by_step() {
    let mut child = ServerProcess::started_as(9, "c:3".to_string(), "/t".to_string(), 50);
    assert_eq!(child.pid(), 9);
    assert_eq!(child.address(), "c:3");
    assert_eq!(child.config_path(), "/t");
    assert_eq!(child.uptime(80), 30);
    assert!(child.is_running(ProbeResult::Delivered));
    assert!(child.stops_with_front_end());
    assert_eq!(child.stop(ProbeResult::NoSuchProcess), StopStep::CleanUp);
    assert_eq!(child.stop(ProbeResult::Delivered), StopStep::SendTerm);
    assert_eq!(after_term(TermResult::NoSuchProcess), StopStep::CleanUp);
    assert_eq!(after_term(TermResult::Sent), StopStep::Watch);
    assert_eq!(after_term(TermResult::Failed), StopStep::Watch);
    assert_eq!(watch_stop(0, ProbeResult::Delivered), StopStep::Watch);
    assert_eq!(watch_stop(4999, ProbeResult::NoSuchProcess), StopStep::Reap);
    assert_eq!(watch_stop(5000, ProbeResult::Delivered), StopStep::Kill);
}

#[test]
fn status_messages_are_cut() {
    assert_eq!(truncate_status("short"), "short");
    let long = "x".repeat(100);
    assert_eq!(truncate_status(&long), "x".repeat(96));
    let exact = "y".repeat(96);
    assert_eq!(truncate_status(&exact), exact);
}
