use pf::hosts::HostSet;
use pf::session::types::{AttachStatus, ForwardObs, SessionState, SessionStatus};
use pf::tui::tree::{
    build_machines, default_expanded, flatten, resolve, sel_at, shows, MachineListMode,
    MachineRow, MachineSource, Row, Sel,
};
use pf::watcher::RetryPolicy;

fn obs(name: &str, port: u16) -> ForwardObs {
    ForwardObs {
        name: name.to_string(),
        local_port: port,
        remote_host: "localhost".to_string(),
        remote_port: port,
        status: AttachStatus::Forwarded,
        attached_at: None,
        error: None,
    }
}

fn live(host: &str, forwards: &[(&str, u16)]) -> SessionState {
    let mut s = SessionState::new(host.to_string(), 1, true, RetryPolicy::default());
    s.status = SessionStatus::Connected;
    s.forwards = forwards.iter().map(|(n, p)| obs(n, *p)).collect();
    s
}

fn profiles(hosts: &[&str]) -> Vec<String> {
    hosts.iter().map(|h| h.to_string()).collect()
}

fn hosts(v: &[&str]) -> Vec<String> {
    v.iter().map(|h| h.to_string()).collect()
}

#[test]
fn all_hosts_mode_unions_every_source() {
    let m = build_machines(
        vec![live("gpu-01", &[("a", 1)])],
        &profiles(&["bastion"]),
        &hosts(&["nas", "gpu-01"]),
        MachineListMode::AllHosts,
        "",
    );
    let names: Vec<&str> = m.iter().map(|r| r.host.as_str()).collect();
    assert_eq!(names, vec!["gpu-01", "bastion", "nas"]);
}

#[test]
fn two_sessions_of_one_host_make_one_machine() {
    let m = build_machines(
        vec![live("a", &[("first", 1)]), live("b", &[]), live("a", &[("second", 2)])],
        &[],
        &[],
        MachineListMode::AllHosts,
        "",
    );
    let names: Vec<&str> = m.iter().map(|r| r.host.as_str()).collect();
    assert_eq!(names, vec!["a", "b"]);
    assert_eq!(m[0].source, MachineSource::Live);
    assert_eq!(m[0].forwards[0].name, "first");
}

#[test]
fn a_host_that_is_both_configured_and_live_appears_once_as_live() {
    let m = build_machines(
        vec![live("gpu-01", &[])],
        &profiles(&["gpu-01"]),
        &hosts(&["gpu-01"]),
        MachineListMode::AllHosts,
        "",
    );
    assert_eq!(m.len(), 1, "host duplicated: {:?}", m.iter().map(|r| &r.host).collect::<Vec<_>>());
    assert_eq!(m[0].source, MachineSource::Live);
}

#[test]
fn configured_mode_drops_bare_ssh_config_hosts() {
    let m = build_machines(
        vec![live("gpu-01", &[])],
        &profiles(&["bastion"]),
        &hosts(&["nas"]),
        MachineListMode::Configured,
        "",
    );
    let names: Vec<&str> = m.iter().map(|r| r.host.as_str()).collect();
    assert_eq!(names, vec!["gpu-01", "bastion"]);
}

#[test]
fn live_mode_shows_only_running_sessions() {
    let m = build_machines(
        vec![live("gpu-01", &[])],
        &profiles(&["bastion"]),
        &hosts(&["nas"]),
        MachineListMode::Live,
        "",
    );
    let names: Vec<&str> = m.iter().map(|r| r.host.as_str()).collect();
    assert_eq!(names, vec!["gpu-01"]);
}

#[test]
fn live_machines_sort_above_configured_above_idle() {
    let m = build_machines(
        vec![live("zzz-live", &[])],
        &profiles(&["aaa-profile"]),
        &hosts(&["aaa-idle"]),
        MachineListMode::AllHosts,
        "",
    );
    let names: Vec<&str> = m.iter().map(|r| r.host.as_str()).collect();
    // Alphabetically zzz-live would be last; provenance wins.
    assert_eq!(names, vec!["zzz-live", "aaa-profile", "aaa-idle"]);
}

#[test]
fn the_filter_matches_host_or_forward_name() {
    let sessions = vec![live("gpu-01", &[("jupyter", 8888)])];
    let all = || sessions.clone();

    let by_host = build_machines(all(), &profiles(&[]), &hosts(&["nas"]), MachineListMode::AllHosts, "gpu");
    assert_eq!(by_host.len(), 1);
    assert_eq!(by_host[0].host, "gpu-01");

    // A forward name should surface its machine even when the host does not match.
    let by_forward = build_machines(all(), &profiles(&[]), &hosts(&["nas"]), MachineListMode::AllHosts, "jupy");
    assert_eq!(by_forward.len(), 1);
    assert_eq!(by_forward[0].host, "gpu-01");

    let by_nothing = build_machines(all(), &profiles(&[]), &hosts(&["nas"]), MachineListMode::AllHosts, "zzzz");
    assert!(by_nothing.is_empty());
}

#[test]
fn the_filter_is_case_insensitive() {
    let m = build_machines(
        vec![live("GPU-01", &[])],
        &profiles(&[]),
        &hosts(&[]),
        MachineListMode::AllHosts,
        "gpu",
    );
    assert_eq!(m.len(), 1);
}

#[test]
fn flattening_hides_forwards_under_collapsed_machines() {
    let machines = build_machines(
        vec![live("gpu-01", &[("a", 1), ("b", 2)])],
        &profiles(&[]),
        &hosts(&[]),
        MachineListMode::AllHosts,
        "",
    );

    let collapsed = flatten(&machines, &HostSet::new());
    assert_eq!(collapsed, vec![Row::Machine(0)]);

    let mut expanded = HostSet::new();
    expanded.insert("gpu-01".to_string());
    assert_eq!(
        flatten(&machines, &expanded),
        vec![Row::Machine(0), Row::Forward(0, 0), Row::Forward(0, 1)]
    );
}

#[test]
fn live_machines_start_expanded_and_idle_ones_do_not() {
    let machines = build_machines(
        vec![live("gpu-01", &[("a", 1)])],
        &profiles(&["bastion"]),
        &hosts(&[]),
        MachineListMode::AllHosts,
        "",
    );
    let exp = default_expanded(&machines);
    assert!(exp.contains("gpu-01"), "live machine should open");
    assert!(!exp.contains("bastion"), "idle machine should stay closed");
}

#[test]
fn selection_survives_a_rebuild_at_a_different_position() {
    let before = build_machines(
        vec![live("gpu-01", &[("a", 1)]), live("gpu-02", &[("b", 2)])],
        &profiles(&[]),
        &hosts(&[]),
        MachineListMode::AllHosts,
        "",
    );
    let exp = default_expanded(&before);
    let rows_before = flatten(&before, &exp);

    // gpu-02's forward "b" sits at index 3: [m0, f0, m1, f1]
    let sel = sel_at(&rows_before, &before, 3).unwrap();
    assert_eq!(sel, Sel::Forward("gpu-02".to_string(), "b".to_string()));

    // gpu-01 gains a forward, pushing everything down one row.
    let after = build_machines(
        vec![live("gpu-01", &[("a", 1), ("a2", 3)]), live("gpu-02", &[("b", 2)])],
        &profiles(&[]),
        &hosts(&[]),
        MachineListMode::AllHosts,
        "",
    );
    let rows_after = flatten(&after, &exp);
    assert_eq!(resolve(&rows_after, &after, &sel), 4, "selection did not follow its forward");
}

#[test]
fn a_vanished_forward_falls_back_to_its_machine() {
    let before = build_machines(
        vec![live("gpu-01", &[("a", 1), ("b", 2)])],
        &profiles(&[]),
        &hosts(&[]),
        MachineListMode::AllHosts,
        "",
    );
    let exp = default_expanded(&before);
    let sel = Sel::Forward("gpu-01".to_string(), "b".to_string());

    // "b" is stopped.
    let after = build_machines(
        vec![live("gpu-01", &[("a", 1)])],
        &profiles(&[]),
        &hosts(&[]),
        MachineListMode::AllHosts,
        "",
    );
    let rows_after = flatten(&after, &exp);
    assert_eq!(
        resolve(&rows_after, &after, &sel),
        0,
        "should fall back to the gpu-01 machine row"
    );
}

#[test]
fn a_vanished_machine_clamps_to_the_top() {
    let after = build_machines(
        vec![live("gpu-02", &[])],
        &profiles(&[]),
        &hosts(&[]),
        MachineListMode::AllHosts,
        "",
    );
    let rows = flatten(&after, &HostSet::new());
    let sel = Sel::Machine("gone".to_string());
    assert_eq!(resolve(&rows, &after, &sel), 0);
}

#[test]
fn an_empty_tree_resolves_without_panicking() {
    let machines: Vec<MachineRow> = Vec::new();
    let rows = flatten(&machines, &HostSet::new());
    assert!(rows.is_empty());
    assert_eq!(resolve(&rows, &machines, &Sel::Machine("x".into())), 0);
    assert!(sel_at(&rows, &machines, 0).is_none());
}

#[test]
fn the_list_mode_cycles_through_all_three() {
    let m = MachineListMode::AllHosts;
    assert_eq!(m.cycle(), MachineListMode::Configured);
    assert_eq!(m.cycle().cycle(), MachineListMode::Live);
    assert_eq!(m.cycle().cycle().cycle(), MachineListMode::AllHosts);
}

#[test]
fn modes_have_their_own_words() {
    assert_eq!(MachineListMode::default(), MachineListMode::AllHosts);
    assert_eq!(MachineListMode::AllHosts.label(), "all hosts");
    assert_eq!(MachineListMode::Configured.label(), "configured");
    assert_eq!(MachineListMode::Live.label(), "live only");
}

#[test]
fn a_vanished_forward_of_a_lower_machine_falls_back_to_that_machine() {
    let after = build_machines(
        vec![live("gpu-01", &[("a", 1)]), live("gpu-02", &[])],
        &[],
        &[],
        MachineListMode::Live,
        "",
    );
    let rows = flatten(&after, &default_expanded(&after));
    let gone = Sel::Forward("gpu-02".to_string(), "b".to_string());
    assert_eq!(resolve(&rows, &after, &gone), 2);
    assert_eq!(sel_at(&rows, &after, 2), Some(Sel::Machine("gpu-02".to_string())));
    assert_eq!(gone.host(), "gpu-02");
}

#[test]
fn a_filter_looks_into_lowercase_texts() {
    let names = vec!["jupyter".to_string()];
    assert!(shows("pu-0", "gpu-01", &names));
    assert!(shows("pyt", "gpu-01", &names));
    assert!(!shows("db", "gpu-01", &names));
}

#[test]
fn the_filter_follows_unicode_case() {
    let m = build_machines(
        vec![live("SERVEUR-ÉTÉ", &[])],
        &[],
        &[],
        MachineListMode::AllHosts,
        "été",
    );
    assert_eq!(m.len(), 1);
}

#[test]
fn a_set_of_hosts_holds_each_once() {
    let mut s = HostSet::new();
    assert!(s.insert("a".to_string()));
    assert!(!s.insert("a".to_string()));
    assert!(s.insert("b".to_string()));
    assert_eq!(s.hosts.len(), 2);
    assert!(s.remove("a"));
    assert!(!s.remove("a"));
    assert!(!s.contains("a") && s.contains("b"));
    s.clear();
    assert!(!s.contains("b"));
}
