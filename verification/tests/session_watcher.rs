use pf::session::ssh::FakeSsh;
use pf::session::store::{default_session, desired_path, lock_path, socket_path, state_path};
use pf::session::types::{
    AttachStatus, DesiredForward, DesiredSession, ForwardObs, SessionState, SessionStatus,
};
use pf::session::watcher::{
    mark_all_failed, mark_all_pending, needs_master, poll_interval, should_exit, tear_down_files,
    ExitReason,
};
use pf::time::Timestamp;
use pf::watcher::RetryPolicy;
use std::collections::{BTreeMap, BTreeSet};

fn now() -> Timestamp {
    let t = chrono::Utc::now();
    Timestamp {
        secs: t.timestamp(),
        nanos: t.timestamp_subsec_nanos(),
    }
}

fn with_forwards(names: &[&str]) -> DesiredSession {
    let mut s = DesiredSession::new("gpu-01".to_string(), true, RetryPolicy::default());
    for (i, n) in names.iter().enumerate() {
        s.upsert(DesiredForward {
            name: n.to_string(),
            local_port: 8000 + i as u16,
            remote_host: "localhost".to_string(),
            remote_port: 80,
        });
    }
    s
}

#[test]
fn an_empty_desired_set_means_the_session_should_end() {
    assert!(should_exit(&with_forwards(&[])));
    assert!(!should_exit(&with_forwards(&["a"])));
}

#[test]
fn a_missing_master_needs_starting() {
    let mut ssh = FakeSsh::new();
    ssh.connected = false;
    assert!(needs_master(&mut ssh, "gpu-01"));

    ssh.connected = true;
    assert!(!needs_master(&mut ssh, "gpu-01"));
}

#[test]
fn losing_the_master_marks_every_forward_pending() {
    let mut obs = vec![
        ForwardObs {
            name: "a".to_string(),
            local_port: 1,
            remote_host: "localhost".to_string(),
            remote_port: 1,
            status: AttachStatus::Forwarded,
            attached_at: Some(now()),
            error: None,
        },
        ForwardObs {
            name: "b".to_string(),
            local_port: 2,
            remote_host: "localhost".to_string(),
            remote_port: 2,
            status: AttachStatus::Failed,
            attached_at: None,
            error: Some("boom".to_string()),
        },
    ];

    mark_all_pending(&mut obs);

    assert!(obs.iter().all(|f| f.status == AttachStatus::Pending));
    assert!(obs.iter().all(|f| f.attached_at.is_none()));
    // A stale error from the previous connection would be misleading, and it
    // would also suppress the retry the reconnect is meant to trigger.
    assert!(obs.iter().all(|f| f.error.is_none()));
}

#[test]
fn giving_up_names_the_forwards_that_are_not_running() {
    // A session that never connects has an empty observed list. Keeping its
    // `Failed` state only helps if it says which forwards it is talking about.
    let desired = with_forwards(&["jupyter", "tensorboard"]);
    let mut observed = Vec::new();

    mark_all_failed(&desired, &mut observed, "Max retries (3) exceeded");

    assert_eq!(observed.len(), 2);
    assert!(observed.iter().all(|f| f.status == AttachStatus::Failed));
    assert!(observed
        .iter()
        .all(|f| f.error.as_deref() == Some("Max retries (3) exceeded")));
    let names: Vec<&str> = observed.iter().map(|f| f.name.as_str()).collect();
    assert_eq!(names, vec!["jupyter", "tensorboard"]);
}

#[test]
fn giving_up_overwrites_what_was_observed_and_drops_what_is_gone() {
    let desired = with_forwards(&["jupyter"]);
    let mut observed = vec![
        ForwardObs {
            name: "jupyter".to_string(),
            local_port: 8000,
            remote_host: "localhost".to_string(),
            remote_port: 80,
            status: AttachStatus::Forwarded,
            attached_at: Some(now()),
            error: None,
        },
        // No longer desired, so it has no business in the final snapshot.
        ForwardObs {
            name: "stale".to_string(),
            local_port: 9000,
            remote_host: "localhost".to_string(),
            remote_port: 90,
            status: AttachStatus::Forwarded,
            attached_at: None,
            error: None,
        },
    ];

    mark_all_failed(&desired, &mut observed, "Auto-reconnect disabled");

    assert_eq!(observed.len(), 1);
    assert_eq!(observed[0].name, "jupyter");
    assert_eq!(observed[0].status, AttachStatus::Failed);
    assert!(observed[0].attached_at.is_none());
    assert_eq!(observed[0].error.as_deref(), Some("Auto-reconnect disabled"));
}

const RUN: &[u8] = b"/tmp/pf-run";

/// What the run directory holds, in memory.
struct Dir {
    desired: BTreeMap<Vec<u8>, DesiredSession>,
    states: BTreeMap<Vec<u8>, SessionState>,
    other: BTreeSet<Vec<u8>>,
}

impl Dir {
    fn empty() -> Self {
        Dir {
            desired: BTreeMap::new(),
            states: BTreeMap::new(),
            other: BTreeSet::new(),
        }
    }

    fn tear_down(&mut self, host: &str, reason: ExitReason) {
        for f in tear_down_files(RUN, host, reason) {
            self.desired.remove(&f);
            self.states.remove(&f);
            self.other.remove(&f);
        }
    }

    fn present(&self, host: &str) -> (bool, bool, bool, bool) {
        (
            self.desired.contains_key(&desired_path(RUN, host)),
            self.states.contains_key(&state_path(RUN, host)),
            self.other.contains(&socket_path(RUN, host)),
            self.other.contains(&lock_path(RUN, host)),
        )
    }
}

/// Lay down the four files a running session owns.
fn seed_session(host: &str) -> Dir {
    let mut d = Dir::empty();
    let mut desired = default_session(host);
    desired.upsert(DesiredForward {
        name: "jupyter".to_string(),
        local_port: 8888,
        remote_host: "localhost".to_string(),
        remote_port: 8888,
    });
    d.desired.insert(desired_path(RUN, host), desired);

    let mut state = SessionState::new(host.to_string(), 4242, true, RetryPolicy::default());
    state.status = SessionStatus::Failed;
    d.states.insert(state_path(RUN, host), state);

    d.other.insert(socket_path(RUN, host));
    d.other.insert(lock_path(RUN, host));
    d
}

#[test]
fn retiring_a_session_takes_its_intent_with_it() {
    let mut d = seed_session("gpu-01");

    d.tear_down("gpu-01", ExitReason::Retired);

    assert_eq!(
        d.present("gpu-01"),
        (false, false, false, false),
        "an emptied desired set means the session is over; nothing should survive"
    );
}

#[test]
fn a_reboot_does_not_erase_the_forwards_you_had() {
    // A shutdown ends every process. Treating that as "cancel my forwards" would
    // leave an overnight reboot with no way to know what had been running.
    let mut d = seed_session("gpu-01");

    d.tear_down("gpu-01", ExitReason::Signalled);

    let (desired, state, sock, lock) = d.present("gpu-01");
    assert!(desired, "intent must outlive a signal it did not ask for");
    assert!(!state, "observed state is a snapshot of a process that is gone");
    assert!(!sock && !lock, "socket and lock are meaningless without a watcher");

    let restored = &d.desired[&desired_path(RUN, "gpu-01")];
    assert_eq!(restored.forwards.len(), 1);
    assert_eq!(restored.forwards[0].name, "jupyter");
}

#[test]
fn giving_up_leaves_the_failure_where_it_can_be_seen() {
    // The watcher writes `Failed` and exits. If teardown then deletes that file,
    // the machine does not show as failed: it just disappears.
    let mut d = seed_session("gpu-01");

    d.tear_down("gpu-01", ExitReason::GaveUp);

    let (desired, state, sock, lock) = d.present("gpu-01");
    assert!(desired, "giving up is not a decision to drop the forwards");
    assert!(state, "the whole point is that `pf list` can still show why");
    assert!(!sock && !lock);

    let kept = &d.states[&state_path(RUN, "gpu-01")];
    assert_eq!(kept.status, SessionStatus::Failed);
}

#[test]
fn tearing_down_a_host_that_owns_nothing_is_not_an_error() {
    let mut d = seed_session("gpu-01");
    for reason in [ExitReason::Retired, ExitReason::Signalled, ExitReason::GaveUp] {
        d.tear_down("never-existed", reason);
    }
    assert_eq!(d.present("gpu-01"), (true, true, true, true));
}

#[test]
fn reasons_have_their_own_words() {
    assert_eq!(ExitReason::Retired.label(), "retired");
    assert_eq!(ExitReason::Signalled.label(), "interrupted");
    assert_eq!(ExitReason::GaveUp.label(), "gave up");
    assert!(ExitReason::Retired.discards_intent() && !ExitReason::Retired.keeps_state());
    assert!(ExitReason::GaveUp.keeps_state() && !ExitReason::GaveUp.discards_intent());
    assert_eq!(poll_interval(), 500);
}
