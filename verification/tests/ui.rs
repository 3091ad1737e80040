use pf::config::Profile;
use pf::process::LocalProcesses;
use pf::session::types::{AttachStatus, ForwardObs, SessionState, SessionStatus};
use pf::time::Timestamp;
use pf::tui::state::{AppState, ConfirmAction, Mode};
use pf::tui::tree::{build_machines, default_expanded, flatten, MachineListMode};
use pf::tui::ui::{
    boxes, confirm_text, form_hint, form_lines, form_title, forward_row, lamp, log_window, machine_row,
    panel_height, profile_item, short_error, status_bar, tree_table, tree_title, Tone,
};
use pf::watcher::RetryPolicy;

fn now() -> Timestamp {
    let t = chrono::Utc::now();
    Timestamp {
        secs: t.timestamp(),
        nanos: t.timestamp_subsec_nanos(),
    }
}

fn live_pid() -> u32 {
    nix::unistd::Pid::this().as_raw() as u32
}

fn obs(name: &str, port: u16, status: AttachStatus) -> ForwardObs {
    ForwardObs {
        name: name.to_string(),
        local_port: port,
        remote_host: "localhost".to_string(),
        remote_port: port,
        status,
        attached_at: Some(now()),
        error: None,
    }
}

fn live(host: &str, forwards: Vec<ForwardObs>) -> SessionState {
    let mut s = SessionState::new(host.to_string(), live_pid(), true, RetryPolicy::default());
    s.status = SessionStatus::Connected;
    s.connected_at = Some(now());
    s.forwards = forwards;
    s
}

fn app_with(sessions: Vec<SessionState>, ssh_hosts: &[&str]) -> AppState {
    let hosts: Vec<String> = ssh_hosts.iter().map(|h| h.to_string()).collect();
    let mut app = AppState::new(hosts, MachineListMode::AllHosts);
    app.machines = build_machines(
        sessions,
        &[],
        &app.ssh_hosts,
        MachineListMode::AllHosts,
        "",
    );
    app.expanded = default_expanded(&app.machines);
    app.rows = flatten(&app.machines, &app.expanded);
    app.cursor = Some(0);
    app
}

/// Everything the dashboard shows, as one text.
fn draw(app: &AppState) -> String {
    let mut text = tree_title(app);
    for row in tree_table(app, &mut LocalProcesses::new()) {
        text.push('\n');
        text.push_str(&[row.label, row.status, row.detail, row.reconnects].join(" "));
    }
    if app.mode == Mode::NewForward {
        text.push('\n');
        text.push_str(&form_title(app));
        for line in form_lines(app) {
            text.push('\n');
            text.push_str(&line.label);
            text.push_str(&line.value);
        }
    }
    text.push('\n');
    text.push_str(&status_bar(app));
    text
}

#[test]
fn an_expanded_machine_shows_its_forwards_indented() {
    let app = app_with(
        vec![live("gpu-01", vec![obs("jupyter", 8888, AttachStatus::Forwarded)])],
        &[],
    );
    let text = draw(&app);

    assert!(text.contains("gpu-01"), "machine row missing:\n{text}");
    assert!(text.contains("▾"), "expanded marker missing:\n{text}");
    assert!(text.contains("(1)"), "forward count missing:\n{text}");
    assert!(text.contains("8888 → localhost:8888"), "forward row missing:\n{text}");
    assert!(text.contains("connected"), "session status missing:\n{text}");
    assert!(text.contains("attached"), "attach status missing:\n{text}");
}

#[test]
fn a_collapsed_machine_hides_forwards_but_keeps_its_own_row() {
    let mut app = app_with(
        vec![live("gpu-01", vec![obs("jupyter", 8888, AttachStatus::Forwarded)])],
        &[],
    );
    app.expanded.clear();
    app.rows = flatten(&app.machines, &app.expanded);

    let text = draw(&app);
    assert!(text.contains("gpu-01"), "machine row vanished:\n{text}");
    assert!(text.contains("▸"), "collapsed marker missing:\n{text}");
    assert!(!text.contains("8888 → localhost"), "forward leaked while collapsed:\n{text}");
    // Folding must not cost information: the count still shows.
    assert!(text.contains("(1)"), "forward count lost when collapsed:\n{text}");
}

#[test]
fn idle_hosts_render_without_a_session() {
    let app = app_with(vec![], &["nas", "bastion"]);
    let text = draw(&app);
    assert!(text.contains("nas"), "idle host missing:\n{text}");
    assert!(text.contains("idle"), "idle status missing:\n{text}");
}

#[test]
fn a_failed_forward_shows_its_error_instead_of_an_uptime() {
    let mut f = obs("boom", 6006, AttachStatus::Failed);
    f.attached_at = None;
    f.error = Some("bind [127.0.0.1]:6006: Address already in use".to_string());

    let app = app_with(vec![live("gpu-01", vec![f])], &[]);
    let text = draw(&app);
    assert!(text.contains("failed"), "failed status missing:\n{text}");
    assert!(text.contains("bind"), "error text missing:\n{text}");
}

#[test]
fn the_filter_shows_in_the_title() {
    let mut app = app_with(vec![live("gpu-01", vec![])], &[]);
    app.filter = "gpu".to_string();
    let text = draw(&app);
    assert!(text.contains("filter: gpu"), "filter not shown:\n{text}");
}

#[test]
fn the_add_form_names_its_machine_and_has_no_host_field() {
    let mut app = app_with(vec![live("gpu-01", vec![])], &[]);
    app.open_new_forward_form("gpu-01".to_string());

    let text = draw(&app);
    assert!(text.contains("New forward on gpu-01"), "host not in title:\n{text}");
    assert!(text.contains("Local Port"), "port field missing:\n{text}");
    // The machine list is the host picker now; the form must not ask again.
    assert!(!text.contains("Host:"), "form still asks for a host:\n{text}");
}

#[test]
fn a_machine_row_says_how_it_is_doing() {
    let at = |secs| Timestamp { secs, nanos: 0 };
    let mut s = live("gpu-01", vec![obs("a", 1, AttachStatus::Forwarded)]);
    s.connected_at = Some(at(1_000));
    let app = app_with(vec![s], &["nas"]);
    let (gpu, nas) = (&app.machines[0], &app.machines[1]);

    let row = machine_row(gpu, true, true, at(1_000 + 8_040));
    assert_eq!(row.label, "▾ gpu-01 (1)");
    assert_eq!((row.status.as_str(), row.tone), ("connected", Tone::Good));
    assert_eq!(row.detail, "2h14m");
    // The count shows only once it stops being zero.
    assert_eq!(row.reconnects, "");

    // A session that nobody watches has failed, whatever it says.
    let row = machine_row(gpu, false, false, at(1_000));
    assert_eq!(row.label, "▸ gpu-01 (1)");
    assert_eq!((row.status.as_str(), row.tone), ("failed", Tone::Bad));

    let row = machine_row(nas, false, false, at(0));
    assert_eq!(row.label, "  nas");
    assert_eq!((row.status.as_str(), row.tone), ("idle", Tone::Idle));
    assert_eq!((row.detail.as_str(), row.reconnects.as_str()), ("-", "-"));
}

#[test]
fn a_machine_row_counts_its_reconnects() {
    let mut s = live("gpu-01", vec![]);
    s.status = SessionStatus::Reconnecting;
    s.connected_at = None;
    s.reconnect_count = 4;
    let app = app_with(vec![s], &[]);
    let row = machine_row(&app.machines[0], true, true, now());
    assert_eq!(row.reconnects, "↻4");
    assert_eq!((row.status.as_str(), row.tone), ("reconnecting", Tone::Busy));
    assert_eq!(row.detail, "-");
}

#[test]
fn a_watched_session_is_alive_in_the_table() {
    let mut gone = live("gone", vec![]);
    gone.watcher_pid = i32::MAX as u32;
    let app = app_with(vec![live("here", vec![]), gone], &[]);
    let table = tree_table(&app, &mut LocalProcesses::new());
    let status = |i: usize| (table[i].label.trim().to_string(), table[i].status.clone());
    assert_eq!(status(0), ("gone".to_string(), "failed".to_string()));
    assert_eq!(status(1), ("here".to_string(), "connected".to_string()));
}

#[test]
fn a_forward_row_says_how_it_is_doing() {
    let at = |secs| Timestamp { secs, nanos: 0 };
    let mut f = obs("db", 5432, AttachStatus::Forwarded);
    f.remote_host = "db.internal".to_string();
    f.attached_at = Some(at(0));
    let row = forward_row(&f, false, at(1_024));
    assert_eq!(row.label, "  ├─ 5432 → db.internal:5432");
    assert_eq!(row.detail, "17m04s");
    assert!(!row.is_machine);

    f.status = AttachStatus::Pending;
    f.attached_at = None;
    let row = forward_row(&f, true, at(1));
    assert_eq!(row.label, "  └─ 5432 → db.internal:5432");
    assert_eq!((row.status.as_str(), row.tone), ("pending", Tone::Busy));
    assert_eq!(row.detail, "-");

    // Without an error the uptime stays.
    f.status = AttachStatus::Failed;
    assert_eq!(forward_row(&f, true, at(1)).detail, "-");
}

#[test]
fn sessions_and_hosts_have_a_box_each() {
    let summary = |app: &AppState| -> Vec<(String, usize, usize)> {
        boxes(app)
            .into_iter()
            .map(|b| (b.title, b.from, b.to))
            .collect()
    };
    let gpu = || live("gpu-01", vec![obs("a", 1, AttachStatus::Forwarded)]);
    let both = app_with(vec![gpu(), live("gpu-02", vec![])], &["nas"]);
    assert_eq!(
        summary(&both),
        vec![
            (" sessions · 2 ".to_string(), 0, 3),
            (" hosts · 1 ".to_string(), 3, 4),
        ]
    );
    // A list that is all one kind stays a single box.
    let only = app_with(vec![gpu()], &[]);
    assert_eq!(summary(&only), vec![(" sessions · 1 ".to_string(), 0, 2)]);
    let idle = app_with(vec![], &["nas", "bastion"]);
    assert_eq!(summary(&idle), vec![(" hosts · 2 ".to_string(), 0, 2)]);
    let empty = app_with(vec![], &[]);
    assert_eq!(summary(&empty), vec![(" hosts · 0 ".to_string(), 0, 0)]);
}

#[test]
fn lamps_carry_state_by_shape() {
    assert_eq!(lamp(Tone::Good, 0), "●");
    assert_eq!(lamp(Tone::Busy, 0), "◐");
    assert_eq!(lamp(Tone::Bad, 0), "✕");
    assert_eq!(lamp(Tone::Idle, 0), "○");
}

#[test]
fn a_busy_lamp_turns_while_it_works() {
    let turn: Vec<&str> = (0..5).map(|n| lamp(Tone::Busy, n)).collect();
    assert_eq!(turn, vec!["◐", "◓", "◑", "◒", "◐"]);
    assert_eq!(lamp(Tone::Good, 1), "●");
    assert_eq!(lamp(Tone::Bad, 2), "✕");
    assert_eq!(lamp(Tone::Idle, 3), "○");
}

#[test]
fn errors_are_cut_to_their_cell() {
    assert_eq!(short_error("port in use"), "port in use");
    assert_eq!(short_error("  first \nsecond"), "first");
    assert_eq!(short_error(""), "");
    assert_eq!(short_error(&"x".repeat(24)), "x".repeat(24));
    assert_eq!(short_error(&"x".repeat(25)), format!("{}…", "x".repeat(23)));
    // A character is never cut in half.
    assert_eq!(short_error(&"é".repeat(13)), format!("{}…", "é".repeat(11)));
}

#[test]
fn the_form_previews_what_empty_fields_stand_for() {
    let mut app = app_with(vec![live("gpu-01", vec![])], &[]);
    app.open_new_forward_form("gpu-01".to_string());
    assert!(form_lines(&app).iter().all(|l| l.preview.is_none()));
    app.input_local_port = "8080".to_string();
    let lines = form_lines(&app);
    assert_eq!(lines[0].label, "  Local Port: ");
    assert_eq!(lines[0].value, "8080_");
    assert!(lines[0].active && !lines[1].active);
    assert_eq!(lines[1].preview.as_deref(), Some("8080"));
    assert_eq!(lines[2].preview.as_deref(), Some("gpu-01-8080"));
    assert!(form_hint(&app).contains("Enter: next field"));
    app.prev_field();
    assert!(form_hint(&app).contains("Enter: submit"));
}

#[test]
fn the_log_window_stays_within_the_log() {
    let mut app = app_with(vec![], &[]);
    app.log_lines = (0..10).map(|i| format!("{i}")).collect();
    app.log_scroll = 7;
    assert_eq!(log_window(&app, 2), (7, 9));
    assert_eq!(log_window(&app, 5), (7, 10));
    app.log_scroll = 50;
    assert_eq!(log_window(&app, 5), (10, 10));
}

#[test]
fn the_bar_says_what_is_in_flight() {
    let mut app = app_with(vec![], &["nas"]);
    app.mode = Mode::Logs;
    assert_eq!(status_bar(&app), "j/k:scroll  Esc:back  q:quit");
    app.status_message = Some("Stopped x".to_string());
    assert_eq!(status_bar(&app), "Stopped x  |  j/k:scroll  Esc:back  q:quit");
    app.pending_label = Some("Stopping y…".to_string());
    assert!(status_bar(&app).starts_with("Stopping y…  |  "));
    app.mode = Mode::Filter;
    app.filter = "gp".to_string();
    assert!(status_bar(&app).starts_with("/gp_  |  "));
    assert_eq!(tree_title(&app), " pf  ·  all hosts  ·  filter: gp");
    app.filter = String::new();
    assert_eq!(tree_title(&app), " pf  ·  all hosts");
}

#[test]
fn questions_name_what_they_are_about() {
    assert_eq!(
        confirm_text(&ConfirmAction::StopForward("db".to_string())),
        "Stop 'db'? (y/n)"
    );
    assert_eq!(
        confirm_text(&ConfirmAction::StopHost("nas".to_string(), 3)),
        "Stop all 3 forward(s) on 'nas'? (y/n)"
    );
    assert_eq!(
        confirm_text(&ConfirmAction::RestartForward("db".to_string())),
        "Restart 'db'? (y/n)"
    );
    assert_eq!(
        confirm_text(&ConfirmAction::RestartHost("nas".to_string())),
        "Reconnect 'nas'? All its forwards drop briefly. (y/n)"
    );
}

#[test]
fn panels_take_room_only_when_they_are_open() {
    assert_eq!(panel_height(&Mode::Normal), 0);
    assert_eq!(panel_height(&Mode::Filter), 0);
    assert_eq!(panel_height(&Mode::Logs), 15);
    let p = Profile {
        host: "nas".to_string(),
        local_port: 8080,
        remote_port: 80,
        remote_host: "localhost".to_string(),
    };
    assert_eq!(profile_item("dev", &p), "dev: nas (8080:80)");
}
