use pf::cli::ShellType;
use pf::commands::{
    clean_report, complete, dynamic_script, hosts_report, log_host, no_logs, orphans, parse_ports,
    plan_start, policy_of, restart_request, retry_policy, session_hosts, shell_name, stale_hosts,
    start_request, target, Target,
};
use pf::config::{default_remote_host, Config, Profile};
use pf::display::{forwards_table, saved_line, started_line, table_row};
use pf::process::LocalProcesses;
use pf::session::store::default_session;
use pf::session::types::{AttachStatus, DesiredForward, ForwardObs, SessionState, SessionStatus};
use pf::ssh_hosts::{hosts_matching, parse_ssh_hosts};
use pf::state::{project, ForwardState, ForwardStatus};
use pf::time::{
    format_age, format_duration, seconds_between, Timestamp, FIRST_SECOND, LAST_SECOND,
};
use pf::tui::actions::{
    adhoc_name, adhoc_start, profile_start, reconnect_message, restart_forward, restart_host, restart_plan, start_adhoc, start_profile,
    stop_forward, stop_host, RestartOutcome, RestartPlan,
};
use pf::tui::tree::MachineListMode;
use pf::error::PfError;
use pf::watcher::RetryPolicy;

fn profile(host: &str) -> Profile {
    Profile {
        host: host.to_string(),
        local_port: 8080,
        remote_port: 80,
        remote_host: "db.internal".to_string(),
    }
}

fn texts(v: &[&str]) -> Vec<String> {
    v.iter().map(|s| s.to_string()).collect()
}

fn state(pid: u32, ssh: Option<u32>) -> ForwardState {
    let retry = RetryPolicy {
        max_retries: 3,
        initial_delay: 7,
        max_delay: 70,
    };
    let mut s = SessionState::new("gpu-01".to_string(), pid, true, retry);
    s.status = SessionStatus::Connected;
    s.master_pid = ssh;
    s.reconnect_count = 2;
    s.started_at = Timestamp { secs: 100, nanos: 0 };
    s.forwards = vec![ForwardObs {
        name: "db".to_string(),
        local_port: 5433,
        remote_host: "localhost".to_string(),
        remote_port: 5432,
        status: AttachStatus::Forwarded,
        attached_at: None,
        error: None,
    }];
    project(&s).remove(0)
}

#[test]
fn ports_are_two_numbers_around_one_colon() {
    assert_eq!(parse_ports("8080:80").unwrap(), (8080, 80));
    assert_eq!(parse_ports("0:65535").unwrap(), (0, 65535));
    assert_eq!(parse_ports("+1:002").unwrap(), (1, 2));
    for bad in ["8080", "1:2:3", ":80", "80:", "a:1", "1:65536", " 1:2", "-1:2", ""] {
        let err = parse_ports(bad).unwrap_err();
        assert_eq!(err.message(), format!("Invalid port mapping: {bad}"));
    }
}

#[test]
fn a_single_argument_may_name_a_profile() {
    let p = profile("nas");
    let plan = plan_start(Some(&p), "dev", &None, &None).unwrap();
    assert_eq!((plan.name.as_str(), plan.host.as_str()), ("dev", "nas"));
    assert_eq!((plan.local_port, plan.remote_port), (8080, 80));
    assert_eq!(plan.remote_host, "db.internal");
}

#[test]
fn a_host_and_ports_are_taken_as_they_are() {
    let p = profile("nas");
    let ports = Some("1:2".to_string());
    // Even where a profile has that name.
    let plan = plan_start(Some(&p), "dev", &ports, &None).unwrap();
    assert_eq!((plan.name.as_str(), plan.host.as_str()), ("dev-1", "dev"));
    assert_eq!(plan.remote_host, "localhost");
    let plan = plan_start(None, "box", &ports, &Some("web".to_string())).unwrap();
    assert_eq!((plan.name.as_str(), plan.remote_port), ("web", 2));

    let err = plan_start(None, "box", &None, &None).unwrap_err();
    assert_eq!(
        err.message(),
        "No profile named 'box' found and no ports specified.\n\
         Usage: pf start <HOST> <LOCAL:REMOTE> or pf start <PROFILE>"
    );
    assert!(plan_start(None, "box", &Some("x".to_string()), &None).is_err());
}

#[test]
fn a_start_sets_the_pacing_and_a_restart_keeps_it() {
    let p = retry_policy(4, 9);
    assert_eq!((p.max_retries, p.initial_delay, p.max_delay), (4, 9, 300));
    let p = policy_of(&state(1, None));
    assert_eq!((p.max_retries, p.initial_delay, p.max_delay), (3, 7, 70));
}

#[test]
fn a_command_applies_to_all_a_machine_or_a_forward() {
    let some = |s: &str| Some(s.to_string());
    assert_eq!(target(some("a"), true, some("h")).unwrap(), Target::All);
    assert_eq!(target(some("a"), false, some("h")).unwrap(), Target::Host("h".to_string()));
    assert_eq!(target(some("a"), false, None).unwrap(), Target::Forward("a".to_string()));
    let err = target(None, false, None).unwrap_err();
    assert_eq!(err.message(), "Name required (or use --all)");
}

#[test]
fn a_forwards_log_is_its_machines_log() {
    let mut s = default_session("gpu-01");
    s.upsert(DesiredForward {
        name: "db".to_string(),
        local_port: 1,
        remote_host: "localhost".to_string(),
        remote_port: 2,
    });
    let sessions = [s];
    let some = |s: &str| Some(s.to_string());
    assert_eq!(log_host(&some("db"), &None, &sessions).unwrap(), "gpu-01");
    assert_eq!(log_host(&some("db"), &some("nas"), &sessions).unwrap(), "nas");
    assert!(log_host(&some("nope"), &None, &sessions).is_err());
    assert_eq!(
        log_host(&None, &None, &sessions).unwrap_err().message(),
        "Name required (or use --host)"
    );
    assert_eq!(no_logs("db").message(), "Forward 'No logs for 'db'' not found");
}

#[test]
fn every_session_is_counted_once() {
    let states = [
        SessionState::new("b".to_string(), 1, true, RetryPolicy::default()),
        SessionState::new("c".to_string(), 1, true, RetryPolicy::default()),
    ];
    let desired = [default_session("b"), default_session("a")];
    assert_eq!(session_hosts(&desired, &states), vec!["a", "b", "c"]);
}

#[test]
fn only_sessions_without_a_live_watcher_are_stale() {
    let me = nix::unistd::Pid::this().as_raw() as u32;
    let states = [
        SessionState::new("live".to_string(), me, true, RetryPolicy::default()),
        SessionState::new("dead".to_string(), i32::MAX as u32, true, RetryPolicy::default()),
    ];
    let desired = [default_session("live"), default_session("orphan")];
    assert_eq!(stale_hosts(&desired, &states, &mut LocalProcesses::new()), vec!["dead", "orphan"]);
    assert_eq!(orphans(&texts(&["a", "b", "c"]), &vec![false, true, false]), vec!["a", "c"]);
}

#[test]
fn cleaning_says_what_it_forgot() {
    assert_eq!(clean_report(&vec![]), vec!["No stale state files found."]);
    assert_eq!(
        clean_report(&texts(&["a", "b"])),
        vec![
            "Cleaned stale state for 'a'",
            "Cleaned stale state for 'b'",
            "Cleaned 2 stale state file(s).",
        ]
    );
}

#[test]
fn hosts_are_read_from_ssh_config() {
    let user = "Host gpu-01 nas\n  HostName 10.0.0.1\n# Host hidden\nHOST *.example.com !x ?y bare\r\nHostX z\nhost\ttab\n";
    let system = "  host aaa\n";
    let hosts = parse_ssh_hosts(&Some(user.to_string()), &Some(system.to_string()));
    assert_eq!(hosts, vec!["aaa", "bare", "gpu-01", "nas"]);
    assert!(parse_ssh_hosts(&None, &None).is_empty());
    assert_eq!(hosts_report(vec![]), vec!["No hosts found in SSH config."]);
    assert_eq!(hosts_report(texts(&["a"])), vec!["a"]);
}

#[test]
fn completion_offers_profiles_then_hosts() {
    let profiles = texts(&["gpu", "web"]);
    let hosts = texts(&["gpu", "gpu-01", "nas"]);
    let forwards = texts(&["gpu-8080", "db"]);
    assert_eq!(complete("start", "gpu", &profiles, &hosts, &forwards), vec!["gpu", "gpu-01"]);
    for sub in ["stop", "restart", "logs"] {
        assert_eq!(complete(sub, "gpu", &profiles, &hosts, &forwards), vec!["gpu-8080"]);
    }
    assert!(complete("list", "", &profiles, &hosts, &forwards).is_empty());
    assert_eq!(hosts_matching(&hosts, ""), hosts);
}

#[test]
fn each_shell_has_its_own_script() {
    assert_eq!(shell_name(ShellType::Bash), "bash");
    assert!(dynamic_script(ShellType::Bash).contains("complete -F _pf_dynamic pf\n"));
    assert!(dynamic_script(ShellType::Zsh).contains("  compadd -a completions\n"));
    assert!(dynamic_script(ShellType::Zsh).contains("start|stop|restart|logs"));
    assert!(dynamic_script(ShellType::Zsh).ends_with("}\ncompdef _pf_dynamic pf\n"));
    assert!(dynamic_script(ShellType::Zsh).contains("completions=(${(@f)$(pf complete"));
    assert!(dynamic_script(ShellType::Fish).contains("__fish_seen_subcommand_from start"));
}

#[test]
fn profiles_are_kept_by_name() {
    let mut c = Config::default();
    assert_eq!(c.tui.machine_source, MachineListMode::AllHosts);
    c.add_profile("web".to_string(), profile("b")).unwrap();
    c.add_profile("dev".to_string(), profile("a")).unwrap();
    let names: Vec<&str> = c.profiles.iter().map(|(n, _)| n.as_str()).collect();
    assert_eq!(names, vec!["dev", "web"]);

    let err = c.add_profile("dev".to_string(), profile("z")).unwrap_err();
    assert_eq!(err.message(), "Profile 'dev' already exists");
    assert_eq!(c.get_profile("dev").unwrap().host, "a");

    c.remove_profile("dev").unwrap();
    assert!(c.get_profile("dev").is_none());
    let err = c.remove_profile("dev").unwrap_err();
    assert_eq!(err.message(), "Profile 'dev' not found");
    assert_eq!(c.profiles.len(), 1);
    assert_eq!(default_remote_host(), "localhost");
}

#[test]
fn a_row_of_the_listing_shows_what_is_running() {
    let now = Timestamp { secs: 100 + 8_040, nanos: 0 };
    let row = table_row(&state(42, Some(43)), true, now);
    assert_eq!(
        row.cells,
        vec!["db", "gpu-01", "5433:5432", "running", "2h14m", "2", "w:42 s:43"]
    );
    assert_eq!(row.status, ForwardStatus::Running);
    assert_eq!(table_row(&state(42, None), true, now).cells[6], "w:42");

    let row = table_row(&state(42, Some(43)), false, now);
    assert_eq!(row.status, ForwardStatus::Failed);
    assert_eq!(row.cells[3..], ["failed", "-", "2", "-"]);
}

#[test]
fn the_listing_asks_who_is_alive() {
    let me = nix::unistd::Pid::this().as_raw() as u32;
    let rows = forwards_table(
        &[state(me, None), state(i32::MAX as u32, None)],
        &mut LocalProcesses::new(),
    );
    assert_eq!(rows[0].status, ForwardStatus::Running);
    assert_eq!(rows[0].cells[6], format!("w:{me}"));
    assert_ne!(rows[0].cells[4], "-");
    assert_eq!(rows[1].status, ForwardStatus::Failed);
}

#[test]
fn lines_say_what_was_done() {
    assert_eq!(started_line("db", "nas", 5433, 5432), "db (5433:5432 via nas)");
    assert_eq!(
        saved_line("dev", "nas", 8080, "localhost", 80),
        "profile 'dev' (8080:localhost:80 via nas)"
    );
}

#[test]
fn durations_are_short() {
    assert_eq!(format_duration(-1), "-");
    assert_eq!(format_duration(0), "0s");
    assert_eq!(format_duration(59), "59s");
    assert_eq!(format_duration(61), "1m01s");
    assert_eq!(format_duration(3_600), "1h00m");
    assert_eq!(format_duration(360_000), "100h00m");
}

#[test]
fn ages_are_whole_seconds() {
    let at = |secs, nanos| Timestamp { secs, nanos };
    assert_eq!(seconds_between(at(10, 0), at(5, 500_000_000)), Some(4));
    assert_eq!(seconds_between(at(5, 500_000_000), at(10, 0)), Some(-4));
    assert_eq!(seconds_between(at(i64::MAX, 0), at(0, 0)), None);
    assert_eq!(format_age(at(66, 0), at(5, 0)), "1m01s");
    assert_eq!(format_age(at(0, 0), at(5, 0)), "-");
    assert_eq!(format_age(at(0, u32::MAX), at(5, 0)), "-");
}

#[test]
fn the_calendar_ends_where_chronos_does() {
    let known = |secs, nanos| chrono::DateTime::from_timestamp(secs, nanos).is_some();
    for secs in [FIRST_SECOND - 1, FIRST_SECOND, 0, 59, LAST_SECOND, LAST_SECOND + 1] {
        for nanos in [0, 999_999_999, 1_000_000_000, 1_999_999_999, 2_000_000_000] {
            assert_eq!(Timestamp { secs, nanos }.is_valid(), known(secs, nanos), "{secs} {nanos}");
        }
    }
    // A leap second between two instants of one day counts.
    let at = |secs, nanos| Timestamp { secs, nanos };
    assert_eq!(seconds_between(at(120, 0), at(59, 1_000_000_000)), Some(61));
    assert_eq!(seconds_between(at(120, 0), at(59, 0)), Some(61));
    assert_eq!(seconds_between(at(59, 1_500_000_000), at(60, 0)), Some(0));
}

#[test]
fn every_failure_has_its_own_words() {
    let s = |t: &str| t.to_string();
    for (e, want) in [
        (PfError::Io(s("x")), "IO error: x"),
        (PfError::Json(s("x")), "JSON error: x"),
        (PfError::TomlDeser(s("x")), "TOML deserialization error: x"),
        (PfError::TomlSer(s("x")), "TOML serialization error: x"),
        (PfError::Lock(s("h"), s("x")), "Cannot lock session for 'h': x"),
        (PfError::AlreadyRunning(s("x")), "Forward 'x' is already running"),
        (PfError::NotFound(s("x")), "Forward 'x' not found"),
        (PfError::PortInUse(80), "Port 80 is already in use"),
        (PfError::ProfileNotFound(s("x")), "Profile 'x' not found"),
        (PfError::ProfileExists(s("x")), "Profile 'x' already exists"),
        (PfError::InvalidPortMapping(s("x")), "Invalid port mapping: x"),
        (PfError::Other(s("x")), "x"),
    ] {
        assert_eq!(e.message(), want);
    }
}

#[test]
fn actions_say_how_they_went() {
    let no = || Err(PfError::PortInUse(80));
    let ok = |s: &str| Ok::<String, String>(s.to_string());
    let err = |s: &str| Err::<String, String>(s.to_string());
    assert_eq!(start_profile("dev", Ok(())), ok("Started dev"));
    assert_eq!(
        start_profile("dev", no()),
        err("Failed to start dev: Port 80 is already in use")
    );
    assert_eq!(start_adhoc("nas", 80, Some(""), Ok(())), ok("Started nas-80"));
    assert_eq!(adhoc_name("nas", 80, None), "nas-80");
    assert_eq!(adhoc_name("nas", 80, Some("web")), "web");
    assert_eq!(stop_forward("db", Ok(())), ok("Stopped db"));
    assert_eq!(
        stop_forward("db", no()),
        err("Failed to stop db: Port 80 is already in use")
    );
    assert_eq!(stop_host("nas", Ok(())), ok("Stopped all forwards on nas"));
    assert_eq!(reconnect_message("nas", Ok(())), ok("Reconnecting nas"));
    assert_eq!(
        reconnect_message("nas", no()),
        err("Failed to reconnect nas: Port 80 is already in use")
    );
    assert_eq!(
        restart_forward("db", RestartOutcome::Started(Ok(()))),
        ok("Restarted db")
    );
    assert_eq!(
        restart_forward("db", RestartOutcome::Started(no())),
        err("Failed to restart db: Port 80 is already in use")
    );
    assert_eq!(
        restart_forward("db", RestartOutcome::NotLoaded(PfError::NotFound("db".to_string()))),
        err("Failed to load state for db: Forward 'db' not found")
    );
    assert_eq!(
        restart_forward("db", RestartOutcome::NotStopped(PfError::NotFound("db".to_string()))),
        err("Failed to stop db: Forward 'db' not found")
    );
}

#[test]
fn a_machine_is_restarted_by_its_watcher_or_by_a_new_one() {
    let mut s = SessionState::new("nas".to_string(), 1, true, RetryPolicy::default());
    s.master_pid = Some(77);
    let plan = |s: &SessionState, alive| restart_plan("nas", &Ok(Some(s.clone())), alive);
    assert_eq!(plan(&s, true), RestartPlan::KillMaster(77));
    assert_eq!(plan(&s, false), RestartPlan::KillMaster(77));
    s.master_pid = None;
    assert_eq!(plan(&s, false), RestartPlan::SpawnWatcher);
    assert_eq!(
        plan(&s, true),
        RestartPlan::Refuse("nas has no live master".to_string())
    );
    assert_eq!(
        restart_plan("nas", &Ok(None), false),
        RestartPlan::Refuse("nas is not connected".to_string())
    );
    assert_eq!(
        restart_plan("nas", &Err(PfError::Io("torn".to_string())), true),
        RestartPlan::Refuse("Failed to read nas: IO error: torn".to_string())
    );
}

#[test]
fn restarting_a_machine_asks_about_its_own_watcher() {
    let me = nix::unistd::Pid::this().as_raw() as u32;
    let session = |pid| SessionState::new("nas".to_string(), pid, true, RetryPolicy::default());
    let mut procs = LocalProcesses::new();
    assert_eq!(
        restart_host("nas", &Ok(Some(session(me))), &mut procs),
        RestartPlan::Refuse("nas has no live master".to_string())
    );
    assert_eq!(
        restart_host("nas", &Ok(Some(session(i32::MAX as u32))), &mut procs),
        RestartPlan::SpawnWatcher
    );
    assert_eq!(
        restart_host("nas", &Ok(None), &mut procs),
        RestartPlan::Refuse("nas is not connected".to_string())
    );
}

#[test]
fn the_dashboard_starts_towards_the_machine_itself() {
    for (r, name) in [
        (adhoc_start("nas", 8080, 80, Some("web")), "web"),
        (adhoc_start("nas", 8080, 80, Some("")), "nas-8080"),
        (adhoc_start("nas", 8080, 80, None), "nas-8080"),
        (profile_start("dev", "nas", 8080, 80), "dev"),
    ] {
        assert_eq!(r.plan.name, name);
        assert_eq!(r.plan.host, "nas");
        assert_eq!((r.plan.local_port, r.plan.remote_port), (8080, 80));
        assert_eq!(r.plan.remote_host, "localhost");
        assert!(r.reconnect);
        assert_eq!(r.policy, RetryPolicy::default());
    }
}

#[test]
fn flags_and_running_forwards_say_how_to_start() {
    let plan = plan_start(None, "nas", &Some("1:2".to_string()), &None).unwrap();
    let r = start_request(plan, true, 3, 9);
    assert_eq!(r.plan.name, "nas-1");
    assert!(!r.reconnect);
    assert_eq!(r.policy, retry_policy(3, 9));

    let f = state(42, None);
    let r = restart_request(&f);
    assert_eq!(r.plan.name, f.name);
    assert_eq!(r.plan.host, f.host);
    assert_eq!(r.plan.local_port, f.local_port);
    assert_eq!(r.plan.remote_port, f.remote_port);
    assert_eq!(r.plan.remote_host, f.remote_host);
    assert_eq!(r.reconnect, f.auto_reconnect);
    assert_eq!(r.policy, policy_of(&f));
}
