use pf::error::PfError;
use pf::process::{
    check_name_available_in, check_start, clear_forwards, find_host_for_forward_in,
    has_live_watcher_in, host_of_forward, is_alive, is_supervised, nudge, start_forward,
    stop_forward, stop_host, LocalProcesses, Nudge,
};
use pf::session::store::default_session;
use pf::session::types::{DesiredForward, DesiredSession, SessionState};
use pf::watcher::RetryPolicy;

fn seed(host: &str, names: &[(&str, u16)]) -> DesiredSession {
    let mut s = default_session(host);
    for (n, p) in names {
        s.upsert(DesiredForward {
            name: n.to_string(),
            local_port: *p,
            remote_host: "localhost".to_string(),
            remote_port: *p,
        });
    }
    s
}

/// A session claimed by a watcher with the given pid.
fn seed_watcher(host: &str, pid: u32) -> Option<SessionState> {
    Some(SessionState::new(
        host.to_string(),
        pid,
        true,
        RetryPolicy::default(),
    ))
}

/// Our own pid is the only one that is reliably alive.
fn live_pid() -> u32 {
    nix::unistd::Pid::this().as_raw() as u32
}

/// Beyond any process id that a kernel hands out.
fn dead_pid() -> u32 {
    i32::MAX as u32
}

fn available(
    sessions: &[DesiredSession],
    state: &Option<SessionState>,
    name: &str,
) -> Result<(), PfError> {
    let owner = find_host_for_forward_in(sessions, name);
    check_name_available_in(&owner, has_live_watcher_in(state, &mut LocalProcesses::new()), name)
}

#[test]
fn a_forward_name_resolves_to_its_host() {
    let sessions = [seed("gpu-01", &[("jupyter", 8888)]), seed("gpu-02", &[("db", 5432)])];

    assert_eq!(
        find_host_for_forward_in(&sessions, "db").as_deref(),
        Some("gpu-02")
    );
    assert_eq!(find_host_for_forward_in(&sessions, "nope"), None);
}

#[test]
fn an_unused_name_is_available() {
    let sessions = [seed("gpu-01", &[("jupyter", 8888)])];
    assert!(available(&sessions, &None, "tensorboard").is_ok());
}

#[test]
fn a_name_already_used_on_another_host_is_rejected() {
    // Names stay globally unique: `pf stop <name>` has to be unambiguous.
    let sessions = [seed("gpu-01", &[("jupyter", 8888)])];
    let state = seed_watcher("gpu-01", live_pid());

    let err = available(&sessions, &state, "jupyter").unwrap_err();
    assert!(
        matches!(err, PfError::AlreadyRunning(ref n) if n == "jupyter"),
        "unexpected error: {}",
        err.message()
    );
}

#[test]
fn a_name_held_only_by_a_dead_session_is_free_again() {
    // After a reboot every desired file is an orphan. If those names stayed
    // claimed, the forwards you had yesterday would be unstartable today.
    let sessions = [seed("gpu-01", &[("jupyter", 8888)])];

    // No state file at all: intent that outlived its watcher.
    assert!(available(&sessions, &None, "jupyter").is_ok());

    // A state file naming a pid that is gone is equally not a conflict.
    let state = seed_watcher("gpu-01", dead_pid());
    assert!(available(&sessions, &state, "jupyter").is_ok());
}

#[test]
fn a_session_counts_as_live_only_while_its_watcher_is() {
    assert!(!has_live_watcher_in(&None, &mut LocalProcesses::new()), "no state file");
    assert!(!has_live_watcher_in(&seed_watcher("gpu-01", dead_pid()), &mut LocalProcesses::new()), "dead pid");
    assert!(has_live_watcher_in(&seed_watcher("gpu-01", live_pid()), &mut LocalProcesses::new()));

    assert!(is_supervised(&seed_watcher("gpu-01", 1), true));
    assert!(!is_supervised(&seed_watcher("gpu-01", 1), false));
    assert!(!is_supervised(&None, true));
}

#[test]
fn a_forward_name_still_resolves_to_a_host_whose_watcher_died() {
    // `stop` and `logs` have to reach orphaned sessions: that is the only way to
    // clear one by hand.
    let sessions = [seed("gpu-01", &[("jupyter", 8888)])];

    assert_eq!(
        find_host_for_forward_in(&sessions, "jupyter").as_deref(),
        Some("gpu-01")
    );
}

#[test]
fn this_process_is_alive() {
    assert!(is_alive(live_pid()));
    assert!(!is_alive(dead_pid()));
}

#[test]
fn a_start_is_refused_over_its_name_and_then_over_its_port() {
    let owner = Some("gpu-01".to_string());
    let err = check_start(&owner, true, true, "db", 5432).unwrap_err();
    assert_eq!(err.message(), "Forward 'db' is already running");
    let err = check_start(&owner, false, true, "db", 5432).unwrap_err();
    assert_eq!(err.message(), "Port 5432 is already in use");
    assert!(check_start(&owner, false, false, "db", 5432).is_ok());
    assert!(check_start(&None, true, false, "db", 5432).is_ok());
}

#[test]
fn starting_keeps_what_else_the_machine_had() {
    let policy = RetryPolicy {
        max_retries: 3,
        initial_delay: 1,
        max_delay: 9,
    };
    let found = Some(seed("gpu-01", &[("jupyter", 8888), ("db", 5432)]));
    let s = start_forward(found, "gpu-01", "db", 1, "db.internal", 2, false, policy);
    assert_eq!(s.forwards.len(), 2);
    assert_eq!((s.forwards[0].name.as_str(), s.forwards[0].local_port), ("db", 1));
    assert_eq!(s.forwards[0].remote_host, "db.internal");
    assert_eq!(s.forwards[1].name, "jupyter");
    // The last start wins.
    assert!(!s.auto_reconnect);
    assert_eq!(s.retry, policy);

    let s = stop_forward(Some(s), "gpu-01", "db");
    assert_eq!(s.forwards.len(), 1);
    assert_eq!(s.forwards[0].name, "jupyter");
}

#[test]
fn the_first_forward_brings_the_session_up() {
    let s = start_forward(None, "nas", "web", 80, "localhost", 80, true, RetryPolicy::default());
    assert_eq!(s.host, "nas");
    assert_eq!(s.forwards.len(), 1);
    assert_eq!(nudge(false), Nudge::Spawn);
    assert_eq!(nudge(true), Nudge::Signal);
}

#[test]
fn stopping_a_host_clears_it() {
    let s = clear_forwards(Some(seed("gpu-01", &[("a", 1), ("b", 2)])), "gpu-01");
    assert!(s.forwards.is_empty());
    assert_eq!(stop_host(&seed_watcher("gpu-01", 42), "gpu-01").unwrap(), 42);
    let err = stop_host(&None, "gpu-01").unwrap_err();
    assert_eq!(err.message(), "Forward 'gpu-01' not found");
}

#[test]
fn a_forward_that_nobody_wants_is_not_found() {
    let sessions = [seed("gpu-01", &[("jupyter", 8888)])];
    assert_eq!(host_of_forward(&sessions, "jupyter").unwrap(), "gpu-01");
    let err = host_of_forward(&sessions, "nope").unwrap_err();
    assert_eq!(err.message(), "Forward 'nope' not found");
}
