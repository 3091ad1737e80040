use pf::session::types::{AttachStatus, ForwardObs, SessionState, SessionStatus};
use pf::state::{default_max_retry_delay, project, ForwardState, ForwardStatus};
use pf::watcher::RetryPolicy;

fn session(status: SessionStatus, forwards: Vec<ForwardObs>) -> SessionState {
    let mut s = SessionState::new("gpu-01".to_string(), 4242, true, RetryPolicy::default());
    s.status = status;
    s.master_pid = Some(4243);
    s.reconnect_count = 7;
    s.forwards = forwards;
    s
}

fn obs(name: &str, port: u16, status: AttachStatus) -> ForwardObs {
    ForwardObs {
        name: name.to_string(),
        local_port: port,
        remote_host: "localhost".to_string(),
        remote_port: port,
        status,
        attached_at: None,
        error: None,
    }
}

#[test]
fn a_connected_attached_forward_projects_as_running() {
    let s = session(
        SessionStatus::Connected,
        vec![obs("a", 1, AttachStatus::Forwarded)],
    );
    let flat = project(&s);

    assert_eq!(flat.len(), 1);
    assert_eq!(flat[0].name, "a");
    assert_eq!(flat[0].host, "gpu-01");
    assert_eq!(flat[0].status, ForwardStatus::Running);
    // The shared master is what the `ssh_pid` field means.
    assert_eq!(flat[0].ssh_pid, Some(4243));
    assert_eq!(flat[0].watcher_pid, 4242);
    assert_eq!(flat[0].reconnect_count, 7);
}

#[test]
fn a_reconnecting_session_projects_all_its_forwards_as_reconnecting() {
    let s = session(
        SessionStatus::Reconnecting,
        vec![
            obs("a", 1, AttachStatus::Pending),
            obs("b", 2, AttachStatus::Pending),
        ],
    );
    let flat = project(&s);
    assert!(flat.iter().all(|f| f.status == ForwardStatus::Reconnecting));
}

#[test]
fn a_failed_attach_projects_as_failed_even_on_a_healthy_session() {
    let s = session(
        SessionStatus::Connected,
        vec![
            obs("a", 1, AttachStatus::Forwarded),
            obs("b", 2, AttachStatus::Failed),
        ],
    );
    let flat = project(&s);

    let a = flat.iter().find(|f| f.name == "a").unwrap();
    let b = flat.iter().find(|f| f.name == "b").unwrap();
    assert_eq!(a.status, ForwardStatus::Running);
    assert_eq!(b.status, ForwardStatus::Failed);
}

#[test]
fn list_all_flattens_every_session_sorted_by_name() {
    let mut one = session(
        SessionStatus::Connected,
        vec![obs("zeta", 1, AttachStatus::Forwarded)],
    );
    one.host = "gpu-01".to_string();
    let mut two = session(
        SessionStatus::Connected,
        vec![obs("alpha", 2, AttachStatus::Forwarded)],
    );
    two.host = "gpu-02".to_string();

    let names: Vec<String> = ForwardState::list_all_in(vec![one, two])
        .into_iter()
        .map(|f| f.name)
        .collect();
    assert_eq!(names, vec!["alpha", "zeta"], "list_all must stay name-sorted");
}

#[test]
fn forwards_of_one_name_stand_in_the_order_of_their_hosts() {
    let mut one = session(SessionStatus::Connected, vec![obs("x", 1, AttachStatus::Pending)]);
    one.host = "b".to_string();
    let mut two = session(SessionStatus::Connected, vec![obs("x", 2, AttachStatus::Pending)]);
    two.host = "a".to_string();
    let hosts: Vec<String> = ForwardState::list_all_in(vec![one, two])
        .into_iter()
        .map(|f| f.host)
        .collect();
    assert_eq!(hosts, vec!["a", "b"]);
}

#[test]
fn a_failed_session_fails_all_its_forwards() {
    let s = session(
        SessionStatus::Failed,
        vec![obs("a", 1, AttachStatus::Forwarded)],
    );
    assert_eq!(project(&s)[0].status, ForwardStatus::Failed);
}

#[test]
fn a_forward_is_loaded_by_name() {
    let s = session(SessionStatus::Connected, vec![obs("a", 1, AttachStatus::Forwarded)]);
    let all = ForwardState::list_all_in(vec![s]);
    assert_eq!(ForwardState::load(&all, "a").unwrap().local_port, 1);
    let err = ForwardState::load(&all, "nope").unwrap_err();
    assert_eq!(err.message(), "Forward 'nope' not found");
}

#[test]
fn statuses_have_their_own_words() {
    assert_eq!(ForwardStatus::Running.text(), "running");
    assert_eq!(ForwardStatus::Reconnecting.text(), "reconnecting");
    assert_eq!(ForwardStatus::Failed.text(), "failed");
    assert_eq!(ForwardStatus::Stopped.text(), "stopped");
    assert_eq!(default_max_retry_delay(), 300);
}
