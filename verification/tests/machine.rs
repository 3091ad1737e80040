use pf::session::machine::{DesiredRead, Launch, MasterExit, Phase, Turn, Watcher};
use pf::session::ssh::FakeSsh;
use pf::session::types::{AttachStatus, DesiredForward, DesiredSession, SessionStatus};
use pf::session::watcher::ExitReason;
use pf::time::Timestamp;
use pf::watcher::RetryPolicy;

fn desired(names: &[&str], reconnect: bool, max_retries: u32) -> DesiredSession {
    let retry = RetryPolicy {
        max_retries,
        initial_delay: 5,
        max_delay: 300,
    };
    let mut s = DesiredSession::new("gpu-01".to_string(), reconnect, retry);
    for (i, n) in names.iter().enumerate() {
        s.upsert(DesiredForward {
            name: n.to_string(),
            local_port: 8000 + i as u16,
            remote_host: "localhost".to_string(),
            remote_port: 80,
        });
    }
    s
}

fn at(secs: i64) -> Timestamp {
    Timestamp { secs, nanos: 0 }
}

fn started(d: DesiredSession) -> Watcher {
    Watcher::start_at("gpu-01".to_string(), 42, DesiredRead::Present(d), at(100)).unwrap()
}

/// Up to a watcher that has a master and waits for it.
fn with_master(d: DesiredSession, ssh: &mut FakeSsh) -> Watcher {
    let mut w = started(d.clone());
    w.look(false);
    w.read(DesiredRead::Present(d));
    assert_eq!(w.phase, Phase::Checking);
    let t = w.check(ssh);
    assert_eq!(t.logs, vec!["Starting SSH master"]);
    assert!(t.save);
    assert_eq!(w.phase, Phase::Spawning);
    let t = w.launch(Launch::Started(4243));
    assert_eq!(t.logs, vec!["Master started (pid Some(4243))"]);
    assert_eq!(w.state.master_pid, Some(4243));
    w
}

/// Up to a watcher whose master died after `uptime` seconds.
fn after_death(d: DesiredSession, uptime: u64) -> (Watcher, Turn) {
    let mut ssh = FakeSsh::new();
    let mut w = with_master(d.clone(), &mut ssh);
    ssh.connected = true;
    w.wait_at(&mut ssh, false, 1, at(200));
    assert_eq!(w.phase, Phase::Resting(0));
    w.rest(false, true);
    w.look(false);
    w.read(DesiredRead::Present(d));
    assert_eq!(w.phase, Phase::Reaping);
    let exit = MasterExit {
        status: "exit status: 255".to_string(),
        uptime,
    };
    let t = w.reap_with(Some(exit), 0);
    (w, t)
}

#[test]
fn a_watcher_without_intent_does_not_start() {
    let start = |r| Watcher::start("gpu-01".to_string(), 1, r).map(|_| ());
    assert_eq!(
        start(DesiredRead::Missing),
        Err("No desired state; nothing to do".to_string())
    );
    assert_eq!(
        start(DesiredRead::Unreadable("bad".to_string())),
        Err("Cannot read desired state: bad".to_string())
    );
    assert_eq!(start(DesiredRead::Present(desired(&["a"], true, 0))), Ok(()));
}

#[test]
fn a_signal_ends_the_loop_at_its_top() {
    let mut w = started(desired(&["a"], true, 0));
    let t = w.look(true);
    assert_eq!(t.logs, vec!["Received shutdown signal"]);
    assert_eq!(w.phase, Phase::Done(ExitReason::Signalled));
}

#[test]
fn emptied_or_deleted_intent_retires_the_session() {
    let mut w = started(desired(&["a"], true, 0));
    w.look(false);
    let t = w.read(DesiredRead::Present(desired(&[], true, 0)));
    assert_eq!(t.logs, vec!["No forwards remain; shutting down session"]);
    assert_eq!(w.phase, Phase::Done(ExitReason::Retired));

    let mut w = started(desired(&["a"], true, 0));
    w.look(false);
    let t = w.read(DesiredRead::Missing);
    assert_eq!(t.logs, vec!["Desired state removed; shutting down"]);
    assert_eq!(w.phase, Phase::Done(ExitReason::Retired));
}

#[test]
fn unreadable_intent_is_tried_again_later() {
    let mut w = started(desired(&["a"], true, 0));
    w.look(false);
    let t = w.read(DesiredRead::Unreadable("torn".to_string()));
    assert_eq!(t.logs, vec!["Cannot read desired state: torn"]);
    assert_eq!(t.pause_ms, 500);
    assert_eq!(w.phase, Phase::Looking);
}

#[test]
fn a_new_master_is_waited_for_and_then_attached_to() {
    let mut ssh = FakeSsh::new();
    let mut w = with_master(desired(&["a", "b"], true, 0), &mut ssh);
    assert_eq!(w.phase, Phase::Waiting(0));

    let t = w.wait_at(&mut ssh, false, 0, at(150));
    assert_eq!(t.pause_ms, 100);
    assert_eq!(w.phase, Phase::Waiting(1));

    ssh.connected = true;
    let t = w.wait_at(&mut ssh, false, 0, at(160));
    assert_eq!(w.phase, Phase::Resting(0));
    assert_eq!(w.state.status, SessionStatus::Connected);
    assert_eq!(w.state.connected_at, Some(at(160)));
    assert_eq!(
        t.logs,
        vec!["attached 8000 -> localhost:80", "attached 8001 -> localhost:80"]
    );
    assert!(t.save && t.clear_wake);
    assert_eq!(ssh.calls.len(), 2);
}

#[test]
fn a_master_that_never_answers_is_given_a_hundred_chances() {
    let mut ssh = FakeSsh::new();
    let mut w = with_master(desired(&["a"], true, 0), &mut ssh);
    let mut slept = 0;
    loop {
        let t = w.wait(&mut ssh, false, 0);
        slept += t.pause_ms;
        if !matches!(w.phase, Phase::Waiting(_)) {
            assert_eq!(t.logs, vec!["Master did not become ready"]);
            break;
        }
    }
    assert_eq!(slept, 10_000);
    assert_eq!(w.phase, Phase::Looking);
}

#[test]
fn a_signal_cuts_the_wait_short() {
    let mut ssh = FakeSsh::new();
    let mut w = with_master(desired(&["a"], true, 0), &mut ssh);
    let t = w.wait(&mut ssh, true, 0);
    assert_eq!(t.logs, vec!["Master did not become ready"]);
    assert_eq!(w.phase, Phase::Looking);
}

#[test]
fn a_dead_master_is_backed_off_from_and_everything_is_pending() {
    let (mut w, t) = after_death(desired(&["a"], true, 0), 3);
    assert_eq!(
        t.logs,
        vec![
            "Master exited with exit status: 255 after 3s",
            "Reconnecting in 2s (attempt 1)...",
        ]
    );
    assert!(t.save);
    assert_eq!(w.state.status, SessionStatus::Reconnecting);
    assert_eq!(w.state.reconnect_count, 1);
    assert_eq!(w.state.master_pid, None);
    assert_eq!(w.state.connected_at, None);
    assert!(w.state.forwards.iter().all(|f| f.status == AttachStatus::Pending));
    assert_eq!(w.phase, Phase::BackingOff(2, 0));

    let mut slept = 0;
    while matches!(w.phase, Phase::BackingOff(..)) {
        slept += w.back_off(false).pause_ms;
    }
    assert_eq!(slept, 2_000);
    assert_eq!(w.phase, Phase::Looking);
}

#[test]
fn a_signal_ends_backing_off() {
    let (mut w, _) = after_death(desired(&["a"], true, 0), 3);
    assert_eq!(w.back_off(true).pause_ms, 0);
    assert_eq!(w.phase, Phase::Looking);
}

#[test]
fn without_reconnect_the_watcher_gives_up_and_says_why() {
    let (w, t) = after_death(desired(&["a", "b"], false, 0), 3);
    assert_eq!(t.logs[1], "Auto-reconnect disabled, exiting");
    assert_eq!(w.phase, Phase::Done(ExitReason::GaveUp));
    assert_eq!(w.state.status, SessionStatus::Failed);
    assert_eq!(w.state.forwards.len(), 2);
    for f in &w.state.forwards {
        assert_eq!(f.status, AttachStatus::Failed);
        assert_eq!(f.error.as_deref(), Some("Auto-reconnect disabled, exiting"));
    }
}

#[test]
fn retries_run_out() {
    let (mut w, _) = after_death(desired(&["a"], true, 1), 3);
    assert_eq!(w.retries, 1);
    w.back_off(true);
    let d = desired(&["a"], true, 1);
    w.look(false);
    w.read(DesiredRead::Present(d));
    let mut ssh = FakeSsh::new();
    w.check(&mut ssh);
    w.launch(Launch::Started(5000));
    w.wait(&mut ssh, true, 0);
    w.look(false);
    w.read(DesiredRead::Present(desired(&["a"], true, 1)));
    let t = w.reap_with(
        Some(MasterExit {
            status: "exit status: 1".to_string(),
            uptime: 0,
        }),
        0,
    );
    assert_eq!(t.logs[1], "Max retries (1) exceeded, giving up");
    assert_eq!(w.phase, Phase::Done(ExitReason::GaveUp));
}

#[test]
fn a_master_that_lasted_resets_the_count() {
    let (w, t) = after_death(desired(&["a"], true, 1), 3600);
    assert_eq!(w.retries, 1);
    assert_eq!(t.logs[1], "Reconnecting in 2s (attempt 1)...");
}

#[test]
fn a_living_master_is_left_alone() {
    let mut ssh = FakeSsh::new();
    let d = desired(&["a"], true, 0);
    let mut w = with_master(d.clone(), &mut ssh);
    ssh.connected = true;
    w.wait(&mut ssh, false, 0);
    w.rest(true, false);
    w.look(false);
    w.read(DesiredRead::Present(d));
    assert!(w.reap(None).logs.is_empty());
    assert_eq!(w.phase, Phase::Checking);
    let calls = ssh.calls.len();
    w.check(&mut ssh);
    assert_eq!(ssh.calls.len(), calls, "nothing changed, so nothing is asked of ssh");
    assert_eq!(w.phase, Phase::Resting(0));
}

#[test]
fn a_socket_that_answers_needs_no_master_of_its_own() {
    let mut ssh = FakeSsh::new();
    ssh.connected = true;
    let d = desired(&["a"], true, 0);
    let mut w = started(d.clone());
    w.look(false);
    w.read(DesiredRead::Present(d));
    let t = w.check(&mut ssh);
    assert_eq!(t.logs, vec!["attached 8000 -> localhost:80"]);
    assert!(!w.has_master);
}

#[test]
fn what_keeps_a_master_from_starting_is_told_apart() {
    let spawning = || {
        let mut ssh = FakeSsh::new();
        let d = desired(&["a"], true, 0);
        let mut w = started(d.clone());
        w.look(false);
        w.read(DesiredRead::Present(d));
        w.check(&mut ssh);
        w
    };
    for (launch, why) in [
        (Launch::NoLogPath("p".to_string()), "Cannot resolve log path: p"),
        (Launch::NoLog("o".to_string()), "Cannot open log: o"),
        (Launch::NoLogHandle("h".to_string()), "Cannot clone log handle: h"),
    ] {
        let mut w = spawning();
        let t = w.launch(launch);
        assert_eq!(t.logs, vec![why]);
        assert_eq!(w.phase, Phase::Done(ExitReason::GaveUp));
        assert_eq!(w.state.forwards[0].error.as_deref(), Some(why));
    }
    let mut w = spawning();
    let t = w.launch(Launch::NotSpawned("no ssh".to_string()));
    assert_eq!(t.logs, vec!["Failed to spawn master: no ssh"]);
    assert_eq!((t.save, t.pause_ms), (true, 500));
    assert_eq!(w.state.status, SessionStatus::Failed);
    assert_eq!(w.phase, Phase::Looking);
}

#[test]
fn a_rest_lasts_one_poll_interval_unless_woken() {
    let mut ssh = FakeSsh::new();
    ssh.connected = true;
    let d = desired(&["a"], true, 0);
    let mut w = started(d.clone());
    w.look(false);
    w.read(DesiredRead::Present(d));
    w.check(&mut ssh);
    let mut slept = 0;
    while matches!(w.phase, Phase::Resting(_)) {
        slept += w.rest(false, false).pause_ms;
    }
    assert_eq!(slept, 500);

    w.phase = Phase::Resting(3);
    assert_eq!(w.rest(false, true).pause_ms, 0);
    assert_eq!(w.phase, Phase::Looking);
}

#[test]
fn leaving_asks_the_master_to_exit_and_cleans_up() {
    let mut ssh = FakeSsh::new();
    let mut w = started(desired(&["a"], true, 0));
    w.look(true);
    let (files, line) = w.leave(&mut ssh, b"/run");
    assert_eq!(ssh.calls, vec!["exit"]);
    assert_eq!(line, "Watcher exiting (interrupted)");
    let files: Vec<String> = files
        .into_iter()
        .map(|p| String::from_utf8(p).unwrap())
        .collect();
    assert_eq!(
        files,
        vec!["/run/gpu-01.sock", "/run/gpu-01.lock", "/run/gpu-01.state.json"]
    );
}
