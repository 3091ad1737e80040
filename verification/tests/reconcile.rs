use pf::session::reconcile::{apply, apply_outcome, reconcile, Action};
use pf::session::ssh::FakeSsh;
use pf::session::types::{AttachStatus, DesiredForward, DesiredSession, ForwardObs};
use pf::session::watcher::mark_all_pending;
use pf::time::Timestamp;
use pf::watcher::RetryPolicy;

fn desired(forwards: &[(&str, u16)]) -> DesiredSession {
    let mut s = DesiredSession::new("gpu-01".to_string(), true, RetryPolicy::default());
    for (name, port) in forwards {
        s.upsert(DesiredForward {
            name: name.to_string(),
            local_port: *port,
            remote_host: "localhost".to_string(),
            remote_port: *port,
        });
    }
    s
}

fn observed(forwards: &[(&str, u16, AttachStatus)]) -> Vec<ForwardObs> {
    forwards
        .iter()
        .map(|(name, port, status)| ForwardObs {
            name: name.to_string(),
            local_port: *port,
            remote_host: "localhost".to_string(),
            remote_port: *port,
            status: *status,
            attached_at: None,
            error: None,
        })
        .collect()
}

fn attached(names: &[(&str, u16)]) -> Vec<ForwardObs> {
    observed(
        &names
            .iter()
            .map(|(n, p)| (*n, *p, AttachStatus::Forwarded))
            .collect::<Vec<_>>(),
    )
}

fn connected() -> FakeSsh {
    let mut ssh = FakeSsh::new();
    ssh.connected = true;
    ssh
}

#[test]
fn nothing_to_do_when_reality_matches_intent() {
    let actions = reconcile(&desired(&[("a", 1)]), &attached(&[("a", 1)]));
    assert!(actions.is_empty(), "expected no actions, got {actions:?}");
}

#[test]
fn a_new_forward_is_attached() {
    let actions = reconcile(&desired(&[("a", 1), ("b", 2)]), &attached(&[("a", 1)]));
    assert_eq!(actions.len(), 1);
    assert!(matches!(&actions[0], Action::Attach(f) if f.name == "b"));
}

#[test]
fn a_removed_forward_is_cancelled() {
    let actions = reconcile(&desired(&[("a", 1)]), &attached(&[("a", 1), ("b", 2)]));
    assert_eq!(actions.len(), 1);
    assert!(matches!(&actions[0], Action::Cancel(f) if f.name == "b"));
}

#[test]
fn a_changed_port_is_cancelled_then_reattached() {
    let actions = reconcile(&desired(&[("a", 9)]), &attached(&[("a", 1)]));
    assert_eq!(actions.len(), 2, "got {actions:?}");
    // Cancel must precede attach, or the new bind races the old one.
    assert!(matches!(&actions[0], Action::Cancel(f) if f.local_port == 1));
    assert!(matches!(&actions[1], Action::Attach(f) if f.local_port == 9));
}

#[test]
fn an_empty_observed_set_reattaches_everything() {
    // The post-reconnect case: the master died and came back with nothing
    // attached. Same function, no separate recovery path.
    let actions = reconcile(&desired(&[("a", 1), ("b", 2)]), &[]);
    assert_eq!(actions.len(), 2);
    assert!(actions.iter().all(|a| matches!(a, Action::Attach(_))));
}

#[test]
fn an_empty_desired_set_cancels_everything() {
    let actions = reconcile(&desired(&[]), &attached(&[("a", 1), ("b", 2)]));
    assert_eq!(actions.len(), 2);
    assert!(actions.iter().all(|a| matches!(a, Action::Cancel(_))));
}

#[test]
fn a_pending_forward_is_attached() {
    let actions = reconcile(
        &desired(&[("a", 1)]),
        &observed(&[("a", 1, AttachStatus::Pending)]),
    );
    assert_eq!(actions.len(), 1);
    assert!(matches!(&actions[0], Action::Attach(f) if f.name == "a"));
}

#[test]
fn a_failed_forward_is_not_retried() {
    // Retrying a permanently-conflicting port every tick would be a hot loop
    // writing unbounded log spam. It waits for intent to change or for a
    // reconnect to reset observed state.
    let actions = reconcile(
        &desired(&[("a", 1)]),
        &observed(&[("a", 1, AttachStatus::Failed)]),
    );
    assert!(actions.is_empty(), "failed forward was retried: {actions:?}");
}

#[test]
fn a_failed_forward_whose_port_changed_is_retried() {
    // Intent changed, so the user has plausibly fixed the conflict.
    let actions = reconcile(
        &desired(&[("a", 9)]),
        &observed(&[("a", 1, AttachStatus::Failed)]),
    );
    assert_eq!(actions.len(), 2, "got {actions:?}");
    assert!(matches!(&actions[0], Action::Cancel(_)));
    assert!(matches!(&actions[1], Action::Attach(f) if f.local_port == 9));
}

#[test]
fn a_failed_forward_removed_from_desired_is_cancelled() {
    let actions = reconcile(&desired(&[]), &observed(&[("a", 1, AttachStatus::Failed)]));
    assert_eq!(actions.len(), 1);
    assert!(matches!(&actions[0], Action::Cancel(_)));
}

#[test]
fn applying_an_attach_records_it_as_attached() {
    let mut ssh = connected();
    let d = desired(&[("a", 1)]);
    let mut obs: Vec<ForwardObs> = Vec::new();

    let actions = reconcile(&d, &obs);
    let logs = apply(&actions, "gpu-01", &mut ssh, &mut obs);

    assert_eq!(obs.len(), 1);
    assert_eq!(obs[0].name, "a");
    assert_eq!(obs[0].status, AttachStatus::Forwarded);
    assert!(obs[0].attached_at.is_some());
    assert!(obs[0].error.is_none());
    assert_eq!(logs.len(), 1);
    assert!(logs[0].contains("attached"), "unexpected log: {:?}", logs[0]);
}

#[test]
fn a_failed_attach_is_recorded_without_poisoning_its_neighbours() {
    let mut ssh = connected();
    ssh.fail_ports.insert(2);

    let d = desired(&[("a", 1), ("b", 2)]);
    let mut obs: Vec<ForwardObs> = Vec::new();
    apply(&reconcile(&d, &obs), "gpu-01", &mut ssh, &mut obs);

    let a = obs.iter().find(|f| f.name == "a").unwrap();
    let b = obs.iter().find(|f| f.name == "b").unwrap();
    assert_eq!(a.status, AttachStatus::Forwarded, "healthy forward was affected");
    assert_eq!(b.status, AttachStatus::Failed);
    assert!(b.error.as_ref().unwrap().contains("Address already in use"));
}

#[test]
fn the_stand_in_keeps_to_what_it_was_told() {
    let mut ssh = connected();
    ssh.fail_ports.insert(2);
    let mut obs: Vec<ForwardObs> = Vec::new();
    let actions = reconcile(&desired(&[("a", 1), ("b", 2)]), &obs);
    let logs = apply(&actions, "gpu-01", &mut ssh, &mut obs);

    assert_eq!(logs.len(), 2);
    assert_eq!(ssh.calls, vec!["forward 1:localhost:1", "forward 2:localhost:2"]);
    assert!(obs[0].attached_at.is_some() && obs[0].error.is_none());
    assert!(obs[1].attached_at.is_none());
    assert_eq!(
        obs[1].error.as_deref(),
        Some("bind [127.0.0.1]:2: Address already in use")
    );
}

#[test]
fn a_failed_attach_is_not_retried_on_the_next_pass() {
    let mut ssh = connected();
    ssh.fail_ports.insert(1);

    let d = desired(&[("a", 1)]);
    let mut obs: Vec<ForwardObs> = Vec::new();
    apply(&reconcile(&d, &obs), "gpu-01", &mut ssh, &mut obs);
    let after_first = ssh.calls.len();

    apply(&reconcile(&d, &obs), "gpu-01", &mut ssh, &mut obs);
    assert_eq!(
        ssh.calls.len(),
        after_first,
        "a permanently failing forward was retried: {:?}",
        ssh.calls
    );
}

#[test]
fn applying_a_cancel_drops_the_forward_from_observed() {
    let mut ssh = connected();

    let mut obs = attached(&[("a", 1), ("b", 2)]);
    let d = desired(&[("a", 1)]);
    apply(&reconcile(&d, &obs), "gpu-01", &mut ssh, &mut obs);

    assert_eq!(obs.len(), 1);
    assert_eq!(obs[0].name, "a");
    assert!(ssh.calls.iter().any(|c| c == "cancel 2:localhost:2"));
}

#[test]
fn a_reconnect_reattaches_everything_through_the_same_path() {
    let mut ssh = connected();
    let d = desired(&[("a", 1), ("b", 2)]);

    let mut obs: Vec<ForwardObs> = Vec::new();
    apply(&reconcile(&d, &obs), "gpu-01", &mut ssh, &mut obs);
    assert_eq!(obs.len(), 2);

    // Master died: observed resets. No separate recovery code path.
    obs.clear();
    apply(&reconcile(&d, &obs), "gpu-01", &mut ssh, &mut obs);

    assert_eq!(obs.len(), 2);
    assert!(obs.iter().all(|f| f.status == AttachStatus::Forwarded));
}

#[test]
fn one_pass_is_enough_whatever_ssh_replies() {
    let mut ssh = connected();
    ssh.fail_ports.insert(3);
    let d = desired(&[("a", 1), ("b", 9), ("c", 3)]);
    let mut obs = attached(&[("a", 1), ("b", 2), ("stale", 7)]);

    apply(&reconcile(&d, &obs), "gpu-01", &mut ssh, &mut obs);
    assert!(reconcile(&d, &obs).is_empty());
    assert_eq!(
        ssh.calls,
        vec![
            "cancel 2:localhost:2",
            "forward 9:localhost:9",
            "forward 3:localhost:3",
            "cancel 7:localhost:7",
        ]
    );
}

#[test]
fn a_settled_neighbour_is_observed_exactly_as_before() {
    let mut ssh = connected();
    let d = desired(&[("a", 1), ("b", 2)]);
    let mut obs = attached(&[("a", 1)]);
    obs[0].attached_at = Some(Timestamp { secs: 5, nanos: 6 });
    let before = obs[0].clone();

    apply(&reconcile(&d, &obs), "gpu-01", &mut ssh, &mut obs);
    assert_eq!(obs[0], before);
}

#[test]
fn losing_the_master_makes_everything_attach_again() {
    let d = desired(&[("a", 1), ("b", 2)]);
    let mut obs = observed(&[("a", 1, AttachStatus::Forwarded), ("b", 2, AttachStatus::Failed)]);
    mark_all_pending(&mut obs);
    let names: Vec<String> = reconcile(&d, &obs)
        .into_iter()
        .map(|a| match a {
            Action::Attach(f) => f.name,
            Action::Cancel(f) => panic!("cancelled {}", f.name),
        })
        .collect();
    assert_eq!(names, vec!["a", "b"]);
}

#[test]
fn outcomes_are_logged_word_for_word() {
    let now = Timestamp { secs: 1, nanos: 2 };
    let want = DesiredForward {
        name: "db".to_string(),
        local_port: 5433,
        remote_host: "db.internal".to_string(),
        remote_port: 5432,
    };
    let mut obs: Vec<ForwardObs> = Vec::new();
    let attach = Action::Attach(want);
    assert_eq!(
        apply_outcome(&attach, Ok(()), now, &mut obs),
        "attached 5433 -> db.internal:5432"
    );
    assert_eq!(obs[0].attached_at, Some(now));
    assert_eq!(
        apply_outcome(&attach, Err("in use".to_string()), now, &mut obs),
        "attach of 5433 failed: in use"
    );
    assert_eq!(obs.len(), 1);
    assert_eq!(obs[0].error.as_deref(), Some("in use"));
    assert_eq!(obs[0].attached_at, None);

    let cancel = Action::Cancel(obs[0].clone());
    assert_eq!(
        apply_outcome(&cancel, Err("gone".to_string()), now, &mut obs),
        "cancel of 5433 failed: gone"
    );
    assert!(obs.is_empty(), "a failed cancel drops the forward all the same");
    assert_eq!(apply_outcome(&cancel, Ok(()), now, &mut obs), "cancelled 5433:5432");
}
