use pf::paths::sanitize_host;
use pf::session::store::{
    clear_transient_in, default_session, desired_path, is_desired_file, is_state_file,
    list_states_in, lock_path, remove_session, remove_session_in, remove_state_in,
    session_or_default, socket_path, state_path, temp_path,
};
use pf::session::types::{DesiredForward, DesiredSession, SessionState};
use pf::watcher::RetryPolicy;
use std::collections::BTreeMap;

/// A directory in memory: what each file holds. It is written to the way the
/// program writes, a temporary sibling first, and the library names the files.
/// What a real file system makes of that is not tried here.
#[derive(Default)]
struct Dir {
    desired: BTreeMap<Vec<u8>, DesiredSession>,
    states: BTreeMap<Vec<u8>, SessionState>,
    other: Vec<Vec<u8>>,
}

fn text(path: &[u8]) -> String {
    String::from_utf8(path.to_vec()).unwrap()
}

const RUN: &[u8] = b"/tmp/pf-run";

impl Dir {
    fn update<F: FnOnce(&mut DesiredSession)>(&mut self, host: &str, f: F) -> DesiredSession {
        let path = desired_path(RUN, host);
        let mut session = session_or_default(self.desired.get(&path).cloned(), host);
        f(&mut session);
        let tmp = temp_path(&path, 7);
        self.other.push(tmp.clone());
        self.other.retain(|p| *p != tmp);
        self.desired.insert(path, session.clone());
        session
    }

    fn load_desired(&self, host: &str) -> Option<DesiredSession> {
        self.desired.get(&desired_path(RUN, host)).cloned()
    }

    fn save_state(&mut self, state: &SessionState) {
        self.states.insert(state_path(RUN, &state.host), state.clone());
    }

    fn load_state(&self, host: &str) -> Option<SessionState> {
        self.states.get(&state_path(RUN, host)).cloned()
    }

    fn names(&self) -> Vec<String> {
        self.desired
            .keys()
            .chain(self.states.keys())
            .chain(self.other.iter())
            .map(|p| text(p).rsplit('/').next().unwrap().to_string())
            .collect()
    }

    fn delete(&mut self, files: &[Vec<u8>]) {
        for f in files {
            self.desired.remove(f);
            self.states.remove(f);
            self.other.retain(|p| p != f);
        }
    }
}

fn forward(name: &str, port: u16) -> DesiredForward {
    DesiredForward {
        name: name.to_string(),
        local_port: port,
        remote_host: "localhost".to_string(),
        remote_port: port,
    }
}

fn state(host: &str) -> SessionState {
    SessionState::new(host.to_string(), 1, true, RetryPolicy::default())
}

#[test]
fn loading_a_missing_session_yields_none() {
    let d = Dir::default();
    assert!(d.load_desired("gpu-01").is_none());
    assert!(d.load_state("gpu-01").is_none());
}

#[test]
fn update_creates_then_mutates_the_desired_file() {
    let mut d = Dir::default();

    let created = d.update("gpu-01", |s| s.upsert(forward("jupyter", 8888)));
    assert_eq!(created.forwards.len(), 1);

    let updated = d.update("gpu-01", |s| s.upsert(forward("tensorboard", 6006)));
    assert_eq!(updated.forwards.len(), 2);
    // upsert keeps them sorted by name
    assert_eq!(updated.forwards[0].name, "jupyter");
    assert_eq!(updated.forwards[1].name, "tensorboard");

    let reloaded = d.load_desired("gpu-01").unwrap();
    assert_eq!(reloaded, updated);
}

#[test]
fn writes_leave_no_temporary_files_behind() {
    // This tells of the model above, not of a file system.
    let mut d = Dir::default();
    d.update("gpu-01", |_| {});
    d.save_state(&state("gpu-01"));

    let leftovers: Vec<String> = d.names().into_iter().filter(|n| n.contains(".tmp")).collect();
    assert!(leftovers.is_empty(), "temp files left behind: {leftovers:?}");
}

#[test]
fn list_states_reads_every_session_and_ignores_other_files() {
    let mut d = Dir::default();
    for host in ["gpu-02", "gpu-01"] {
        d.save_state(&state(host));
    }
    // Files that must not be parsed as session state:
    for other in ["legacy.json", "gpu-01.desired.json", "gpu-01.sock"] {
        d.other.push(format!("{}/{other}", text(RUN)).into_bytes());
    }

    let listed: Vec<String> = d.names().into_iter().filter(|n| is_state_file(n)).collect();
    assert_eq!(listed, vec!["gpu-01.state.json", "gpu-02.state.json"]);

    let mut found: Vec<SessionState> = d.states.values().cloned().collect();
    found.reverse();
    let hosts: Vec<String> = list_states_in(found).into_iter().map(|s| s.host).collect();
    assert_eq!(hosts, vec!["gpu-01", "gpu-02"]);
}

#[test]
fn removing_a_session_deletes_desired_state_and_socket() {
    let mut d = Dir::default();
    d.update("gpu-01", |_| {});
    d.save_state(&state("gpu-01"));
    d.other.push(format!("{}/gpu-01.sock", text(RUN)).into_bytes());

    d.delete(&remove_session_in(RUN, "gpu-01"));

    assert!(d.load_desired("gpu-01").is_none());
    assert!(d.load_state("gpu-01").is_none());
    assert!(!d.names().contains(&"gpu-01.sock".to_string()));
}

#[test]
fn removing_a_session_that_never_existed_is_not_an_error() {
    let mut d = Dir::default();
    d.delete(&remove_session_in(RUN, "never-was"));
}

#[test]
fn a_host_needing_sanitization_round_trips_through_every_entry_point() {
    // "gpu-01" sanitizes to itself, so it cannot catch a mismatch between the
    // key a write uses and the key a read looks for. This host can.
    let mut d = Dir::default();
    let raw = "weird host/name";

    d.update(raw, |s| {
        s.host = raw.to_string();
        s.upsert(forward("jupyter", 8888));
    });

    let mut s = state(raw);
    s.reconnect_count = 5;
    d.save_state(&s);

    // Reads take the raw host, exactly as writes did.
    let desired = d.load_desired(raw).expect("desired lost");
    assert_eq!(desired.forwards.len(), 1);
    let loaded = d.load_state(raw).expect("state lost");
    assert_eq!(loaded.reconnect_count, 5);
    // The struct keeps the raw host for display, even though the file is keyed.
    assert_eq!(loaded.host, raw);

    // And listing finds it, proving the file really is under the key.
    assert_eq!(d.names().into_iter().filter(|n| is_state_file(n)).count(), 1);

    d.delete(&remove_session_in(RUN, raw));
    assert!(d.load_state(raw).is_none());
    assert!(d.load_desired(raw).is_none());
}

#[test]
fn a_fresh_session_reconnects_and_asks_for_nothing() {
    let s = default_session("gpu-01");
    assert_eq!(s.host, "gpu-01");
    assert!(s.auto_reconnect);
    assert_eq!(s.retry, RetryPolicy::default());
    assert!(s.forwards.is_empty());
}

fn texts(files: Vec<Vec<u8>>) -> Vec<String> {
    files.iter().map(|p| text(p)).collect()
}

#[test]
fn every_file_of_a_session_stands_under_its_key() {
    let raw = "a/b";
    assert_eq!(sanitize_host(raw), "a_b");
    assert_eq!(
        texts(remove_session_in(b"/r", raw)),
        vec!["/r/a_b.desired.json", "/r/a_b.state.json", "/r/a_b.sock", "/r/a_b.lock"]
    );
    assert_eq!(
        texts(clear_transient_in(b"/r", raw)),
        vec!["/r/a_b.sock", "/r/a_b.lock"]
    );
    assert_eq!(texts(remove_state_in(b"/r", raw)), vec!["/r/a_b.state.json"]);
    assert_eq!(socket_path(b"/r", raw), b"/r/a_b.sock");
    assert_eq!(lock_path(b"/r", raw), b"/r/a_b.lock");
    let real = remove_session(raw).unwrap();
    assert!(real[0].ends_with(b"/.pf/run/a_b.desired.json"), "got {real:?}");
}

#[test]
fn a_half_written_file_is_not_listed() {
    let tmp = text(&temp_path(b"/r/gpu-01.state.json", 42));
    assert_eq!(tmp, "/r/gpu-01.state.json.tmp42");
    assert!(!is_state_file(&tmp));
    assert!(!is_desired_file(&text(&temp_path(b"/r/gpu-01.desired.json", 42))));
    assert!(is_desired_file("gpu-01.desired.json"));
}
