use pf::session::types::{DesiredForward, DesiredSession, SessionState, SessionStatus};
use pf::watcher::RetryPolicy;

#[test]
fn upsert_replaces_by_name_and_keeps_the_list_sorted() {
    let mut s = DesiredSession::new("gpu-01".to_string(), true, Default::default());
    for (name, port) in [("zeta", 3u16), ("alpha", 1), ("mid", 2)] {
        s.upsert(DesiredForward {
            name: name.to_string(),
            local_port: port,
            remote_host: "localhost".to_string(),
            remote_port: port,
        });
    }
    assert_eq!(
        s.forwards.iter().map(|f| f.name.as_str()).collect::<Vec<_>>(),
        vec!["alpha", "mid", "zeta"]
    );

    // Re-upserting a name replaces rather than duplicating.
    s.upsert(DesiredForward {
        name: "mid".to_string(),
        local_port: 99,
        remote_host: "localhost".to_string(),
        remote_port: 99,
    });
    assert_eq!(s.forwards.len(), 3);
    assert_eq!(s.forwards[1].local_port, 99);

    assert!(s.remove("mid"));
    assert!(!s.remove("mid"), "removing twice should report no change");
    assert_eq!(s.forwards.len(), 2);
}

#[test]
fn removing_what_was_upserted_brings_back_the_rest() {
    let mut s = DesiredSession::new("gpu-01".to_string(), true, RetryPolicy::default());
    for (name, port) in [("b", 2u16), ("d", 4)] {
        s.upsert(DesiredForward {
            name: name.to_string(),
            local_port: port,
            remote_host: "localhost".to_string(),
            remote_port: port,
        });
    }
    let before = s.clone();
    s.upsert(DesiredForward {
        name: "c".to_string(),
        local_port: 3,
        remote_host: "localhost".to_string(),
        remote_port: 3,
    });
    assert_eq!(s.forwards[1].name, "c");
    assert!(s.remove("c"));
    assert_eq!(s, before);
}

#[test]
fn a_fresh_state_is_connecting() {
    let s = SessionState::new("gpu-01".to_string(), 42, false, RetryPolicy::default());
    assert_eq!(s.host, "gpu-01");
    assert_eq!(s.watcher_pid, 42);
    assert_eq!(s.status, SessionStatus::Connecting);
    assert_eq!(s.master_pid, None);
    assert_eq!(s.connected_at, None);
    assert_eq!(s.reconnect_count, 0);
    assert!(!s.auto_reconnect);
    assert!(s.forwards.is_empty());
    let now = chrono::Utc::now().timestamp();
    assert!((now - s.started_at.secs).abs() < 60, "started at {:?}", s.started_at);
}
