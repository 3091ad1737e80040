use pf::config::Profile;
use pf::session::types::{AttachStatus, ForwardObs, SessionState, SessionStatus};
use pf::tui::keys::{
    copied, handle_key, key_timeout, pick_profile, press, selected_forward_url, Effect, Key, Work,
};
use pf::tui::state::{AppState, ConfirmAction, InputField, Mode};
use pf::tui::tree::{build_machines, default_expanded, flatten, MachineListMode, Sel};
use pf::watcher::RetryPolicy;
use std::time::{Duration, Instant};

/// A tree of idle hosts.
fn app_with_hosts(hosts: &[&str]) -> AppState {
    let ssh_hosts: Vec<String> = hosts.iter().map(|h| h.to_string()).collect();
    let mut app = AppState::new(ssh_hosts, MachineListMode::AllHosts);
    app.machines = build_machines(
        Vec::new(),
        &[],
        &app.ssh_hosts,
        MachineListMode::AllHosts,
        "",
    );
    app.rows = flatten(&app.machines, &app.expanded);
    app.cursor = Some(0);
    app
}

fn key(app: &mut AppState, k: Key) -> Effect {
    handle_key(app, k, false)
}

fn ctrl(app: &mut AppState, c: char) -> Effect {
    handle_key(app, Key::Char(c), true)
}

fn app_with_n_hosts(n: usize) -> AppState {
    let hosts: Vec<String> = (0..n).map(|i| format!("host-{i:02}")).collect();
    let refs: Vec<&str> = hosts.iter().map(|h| h.as_str()).collect();
    app_with_hosts(&refs)
}

#[test]
fn g_and_shift_g_jump_to_the_ends_of_the_list() {
    let mut app = app_with_n_hosts(30);
    app.select(5);

    key(&mut app, Key::Char('G'));
    assert_eq!(app.selected(), 29, "G should jump to the last row");

    key(&mut app, Key::Char('g'));
    assert_eq!(app.selected(), 0, "g should jump to the first row");
}

#[test]
fn page_keys_move_by_the_viewport_and_clamp_at_the_ends() {
    let mut app = app_with_n_hosts(30);
    app.tree_visible = 10;

    key(&mut app, Key::PageDown);
    assert_eq!(app.selected(), 10, "PageDown should move a full viewport");

    // Near the end, paging pins to the last row rather than wrapping:
    // wrap-around on a page jump is disorienting in a long list.
    app.select(25);
    key(&mut app, Key::PageDown);
    assert_eq!(app.selected(), 29, "PageDown should clamp, not wrap");

    app.select(3);
    key(&mut app, Key::PageUp);
    assert_eq!(app.selected(), 0, "PageUp should clamp at the top");
}

#[test]
fn ctrl_d_and_ctrl_u_move_half_a_viewport() {
    let mut app = app_with_n_hosts(30);
    app.tree_visible = 10;

    ctrl(&mut app, 'd');
    assert_eq!(app.selected(), 5, "ctrl-d should move half a viewport");

    ctrl(&mut app, 'u');
    assert_eq!(app.selected(), 0, "ctrl-u should move back up");
}

/// One session `gpu-01` with one forward `jupyter` on 8888.
fn gpu_session() -> SessionState {
    let mut s = SessionState::new("gpu-01".to_string(), 1, true, RetryPolicy::default());
    s.status = SessionStatus::Connected;
    s.forwards = vec![ForwardObs {
        name: "jupyter".to_string(),
        local_port: 8888,
        remote_host: "localhost".to_string(),
        remote_port: 8888,
        status: AttachStatus::Forwarded,
        attached_at: None,
        error: None,
    }];
    s
}

/// That session, with the forward row selected.
fn app_on_a_forward() -> AppState {
    let mut app = app_with_hosts(&[]);
    app.machines = build_machines(
        vec![gpu_session()],
        &[],
        &[],
        MachineListMode::AllHosts,
        "",
    );
    app.expanded = default_expanded(&app.machines);
    app.rows = flatten(&app.machines, &app.expanded);
    app.select(1); // the forward row
    app
}

#[test]
fn run_action_reports_back_without_blocking_the_caller() {
    let mut app = app_with_hosts(&["nas"]);

    app.run_action("Stopping x…".to_string());
    assert_eq!(app.pending_actions, 1, "the action should be pending, not done");
    assert_eq!(app.pending_label.as_deref(), Some("Stopping x…"));

    app.action_done("Stopped x".to_string(), None, Vec::new());
    app.actions_polled(true);
    assert_eq!(app.pending_actions, 0);
    assert_eq!(app.status_message.as_deref(), Some("Stopped x"));
    assert_eq!(app.pending_label, None, "the label should clear with the work");
}

#[test]
fn a_slow_confirm_does_not_freeze_the_ui_thread() {
    let mut app = app_on_a_forward();
    // Restarting sleeps between stop and start, so it is work for another
    // thread.
    app.mode = Mode::Confirm(ConfirmAction::RestartForward("jupyter".to_string()));

    let t0 = Instant::now();
    let effect = key(&mut app, Key::Char('y'));

    assert!(
        t0.elapsed() < Duration::from_millis(200),
        "confirming an action blocked the UI thread"
    );
    assert_eq!(effect, Effect::Run(Work::RestartForward("jupyter".to_string()), None));
    assert_eq!(app.mode, Mode::Normal);
    assert_eq!(app.pending_actions, 1);
    assert!(
        app.pending_label.as_deref().is_some_and(|l| l.contains("jupyter")),
        "the bar should say what is in flight: {:?}",
        app.pending_label
    );
}

#[test]
fn a_finished_start_selects_the_forward_it_made() {
    let mut app = app_with_hosts(&["nas"]);

    app.run_action("Starting db…".to_string());
    app.action_done(
        "Started db".to_string(),
        Some(("newhost".to_string(), "db".to_string())),
        Vec::new(),
    );

    // The follow ran: the target machine was unfolded to show the forward.
    assert!(
        app.expanded.contains("newhost"),
        "completion should follow the forward it created"
    );
}

#[test]
fn question_mark_opens_help_and_any_key_closes_it() {
    let mut app = app_with_hosts(&["nas"]);

    key(&mut app, Key::Char('?'));
    assert_eq!(app.mode, Mode::Help);

    // Any key dismisses it, and is swallowed, not executed: `x` here must not
    // open a stop-confirm dialog.
    key(&mut app, Key::Char('x'));
    assert_eq!(app.mode, Mode::Normal, "any key should close help");
}

#[test]
fn y_copies_the_forwards_local_url() {
    let mut app = app_on_a_forward();

    let effect = key(&mut app, Key::Char('y'));
    assert_eq!(
        effect,
        Effect::Copy("http://localhost:8888".to_string()),
        "y should put the local URL on the clipboard"
    );

    copied(&mut app, "http://localhost:8888", Ok(()));
    assert_eq!(
        app.status_message.as_deref(),
        Some("Copied http://localhost:8888")
    );
}

#[test]
fn y_on_a_machine_row_explains_itself() {
    let mut app = app_on_a_forward();
    app.select(0); // the machine row

    let effect = key(&mut app, Key::Char('y'));

    assert_eq!(effect, Effect::Nothing, "nothing should be copied");
    assert_eq!(
        app.status_message.as_deref(),
        Some("Select a forward to copy its URL")
    );
}

fn numbered_lines(n: usize) -> Vec<String> {
    (0..n).map(|i| format!("line {i}")).collect()
}

/// An app sitting in the log viewer with `lines` loaded and a viewport
/// `visible` rows tall.
fn log_app(lines: usize, visible: usize) -> AppState {
    let mut app = app_with_hosts(&["gpu-01"]);
    app.mode = Mode::Logs;
    app.log_visible = visible;
    app.set_log_lines(numbered_lines(lines));
    app
}

#[test]
fn logs_follow_the_tail_until_you_scroll_up() {
    let mut app = log_app(100, 10);
    assert_eq!(app.log_scroll, 90, "opening the log should show the tail");

    // A tick reloads the file; new lines keep the tail in view.
    app.set_log_lines(numbered_lines(105));
    assert_eq!(app.log_scroll, 95, "a growing log should stay pinned to the tail");
}

#[test]
fn reloading_logs_keeps_your_place_once_you_scroll_up() {
    let mut app = log_app(100, 10);

    key(&mut app, Key::Char('k'));
    assert_eq!(app.log_scroll, 89, "k should scroll up one line");

    // You are reading an old error; the tick reload must not yank you back to
    // the bottom.
    app.set_log_lines(numbered_lines(105));
    assert_eq!(app.log_scroll, 89, "a reload stole the scroll position");
}

#[test]
fn scrolling_back_to_the_bottom_resumes_following() {
    let mut app = log_app(100, 10);

    key(&mut app, Key::Char('k'));
    key(&mut app, Key::Char('j'));

    app.set_log_lines(numbered_lines(105));
    assert_eq!(app.log_scroll, 95, "returning to the tail should resume following");
}

#[test]
fn g_and_shift_g_jump_within_the_log() {
    let mut app = log_app(100, 10);

    key(&mut app, Key::Char('g'));
    assert_eq!(app.log_scroll, 0, "g should jump to the top");
    app.set_log_lines(numbered_lines(105));
    assert_eq!(app.log_scroll, 0, "reading the top must survive a reload");

    key(&mut app, Key::Char('G'));
    assert_eq!(app.log_scroll, 95, "G should jump back to the tail");
}

#[test]
fn page_keys_page_through_the_log() {
    let mut app = log_app(100, 10);

    key(&mut app, Key::PageUp);
    assert_eq!(app.log_scroll, 80, "PageUp should move a viewport up");

    key(&mut app, Key::PageDown);
    assert_eq!(app.log_scroll, 90, "PageDown should move a viewport down");
}

#[test]
fn arrows_browse_the_list_while_the_filter_is_open() {
    // `/` narrows the list as you type; the arrows walk the matches without
    // leaving the prompt, so filter-then-pick is one motion.
    let mut app = app_with_hosts(&["gpu-01", "gpu-02", "nas"]);
    app.mode = Mode::Filter;

    key(&mut app, Key::Down);
    assert_eq!(app.selected(), 1, "Down should move the selection");

    key(&mut app, Key::Up);
    assert_eq!(app.selected(), 0, "Up should move it back");

    // j/k stay literal: they are filter text, not motion.
    assert_eq!(key(&mut app, Key::Char('j')), Effect::Refresh);
    assert_eq!(app.filter, "j", "typed letters must keep filtering");
}

#[test]
fn esc_in_normal_mode_clears_an_applied_filter() {
    // The empty state promises "Esc clears the filter": that has to hold after
    // Enter applied it and returned to Normal mode, not only while still typing
    // in the filter prompt.
    let mut app = app_with_hosts(&["gpu-01", "nas"]);
    app.filter = "gpu".to_string();

    assert_eq!(key(&mut app, Key::Esc), Effect::Refresh);

    assert!(app.filter.is_empty(), "Esc should clear the applied filter");
    assert_eq!(app.mode, Mode::Normal);
}

#[test]
fn moving_wraps_around_one_row_at_a_time() {
    let mut app = app_with_n_hosts(3);
    key(&mut app, Key::Char('k'));
    assert_eq!(app.selected(), 2);
    key(&mut app, Key::Char('j'));
    assert_eq!(app.selected(), 0);
    app.select_by(-5);
    assert_eq!(app.selected(), 0);
    app.select_by(1);
    assert_eq!(app.sel, Some(Sel::Machine("host-01".to_string())));

    let mut empty = app_with_hosts(&[]);
    key(&mut empty, Key::Down);
    key(&mut empty, Key::End);
    assert_eq!(empty.selected(), 0);
    assert_eq!(empty.selected_sel(), None);
}

#[test]
fn folding_by_any_of_its_keys() {
    for k in [Key::Tab, Key::Enter, Key::Char(' ')] {
        let mut app = app_on_a_forward();
        key(&mut app, k);
        assert!(!app.expanded.contains("gpu-01"));
        assert_eq!(app.rows.len(), 1);
        // The forward is hidden, so the cursor is on its machine.
        assert_eq!(app.sel, Some(Sel::Machine("gpu-01".to_string())));
        key(&mut app, k);
        assert_eq!(app.rows.len(), 2);
    }
}

#[test]
fn left_goes_to_the_machine_and_then_folds_it() {
    let mut app = app_on_a_forward();
    key(&mut app, Key::Left);
    assert_eq!(app.selected(), 0);
    assert!(app.expanded.contains("gpu-01"));
    key(&mut app, Key::Left);
    assert!(!app.expanded.contains("gpu-01"));
    key(&mut app, Key::Right);
    assert!(app.expanded.contains("gpu-01"));
    app.select(1);
    key(&mut app, Key::Char('Z'));
    assert_eq!(app.rows.len(), 1);
    assert_eq!(app.selected(), 0);
}

#[test]
fn a_refresh_leaves_the_cursor_on_its_forward() {
    let mut app = app_on_a_forward();
    app.first_refresh = false;
    let mut other = gpu_session();
    other.host = "aaa".to_string();
    app.refresh(vec![other, gpu_session()]);
    assert_eq!(app.selected(), 3);
    assert_eq!(
        app.sel,
        Some(Sel::Forward("gpu-01".to_string(), "jupyter".to_string()))
    );
    // What has come up unfolded by itself.
    assert!(app.expanded.contains("aaa"));
}

#[test]
fn the_first_refresh_unfolds_what_is_live() {
    let mut app = app_with_hosts(&["nas"]);
    app.profiles = vec![(
        "dev".to_string(),
        Profile {
            host: "bastion".to_string(),
            local_port: 1,
            remote_port: 2,
            remote_host: "localhost".to_string(),
        },
    )];
    app.refresh(vec![gpu_session()]);
    let hosts: Vec<&str> = app.machines.iter().map(|m| m.host.as_str()).collect();
    assert_eq!(hosts, vec!["gpu-01", "bastion", "nas"]);
    assert!(app.expanded.contains("gpu-01"));
    assert!(!app.first_refresh);
}

#[test]
fn stopping_asks_first() {
    let mut app = app_on_a_forward();
    key(&mut app, Key::Char('x'));
    assert_eq!(
        app.mode,
        Mode::Confirm(ConfirmAction::StopForward("jupyter".to_string()))
    );
    assert_eq!(key(&mut app, Key::Char('n')), Effect::Nothing);
    assert_eq!(app.mode, Mode::Normal);
    assert_eq!(app.pending_actions, 0);

    app.select(0);
    key(&mut app, Key::Char('d'));
    assert_eq!(
        app.mode,
        Mode::Confirm(ConfirmAction::StopHost("gpu-01".to_string(), 1))
    );
    assert_eq!(
        key(&mut app, Key::Char('Y')),
        Effect::Run(Work::StopHost("gpu-01".to_string()), None)
    );
    assert_eq!(app.pending_label.as_deref(), Some("Stopping gpu-01…"));

    let mut idle = app_with_hosts(&["nas"]);
    key(&mut idle, Key::Char('x'));
    assert_eq!(idle.status_message.as_deref(), Some("nas has no forwards"));
}

#[test]
fn restarting_asks_first() {
    let mut app = app_on_a_forward();
    key(&mut app, Key::Char('r'));
    assert_eq!(
        app.mode,
        Mode::Confirm(ConfirmAction::RestartForward("jupyter".to_string()))
    );
    key(&mut app, Key::Esc);
    app.select(0);
    key(&mut app, Key::Char('r'));
    assert_eq!(
        app.mode,
        Mode::Confirm(ConfirmAction::RestartHost("gpu-01".to_string()))
    );
    assert_eq!(
        key(&mut app, Key::Char('y')),
        Effect::Run(Work::RestartHost("gpu-01".to_string()), None)
    );
    assert_eq!(app.pending_label.as_deref(), Some("Reconnecting gpu-01…"));

    let mut idle = app_with_hosts(&["nas"]);
    key(&mut idle, Key::Char('r'));
    assert_eq!(idle.status_message.as_deref(), Some("nas is not connected"));
}

#[test]
fn a_form_on_a_machine_asks_for_ports_only() {
    let mut app = app_on_a_forward();
    key(&mut app, Key::Char('a'));
    assert_eq!(app.mode, Mode::NewForward);
    assert_eq!(app.input_host, "gpu-01");
    assert_eq!(
        app.form_fields(),
        vec![InputField::LocalPort, InputField::RemotePort, InputField::Name]
    );
    for c in "90801".chars() {
        key(&mut app, Key::Char(c));
    }
    key(&mut app, Key::Backspace);
    assert_eq!(app.input_local_port, "9080");
    key(&mut app, Key::Enter);
    key(&mut app, Key::Tab);
    assert!(app.on_last_field());
    let effect = key(&mut app, Key::Enter);
    // An empty remote port mirrors the local one, and the name is generated.
    let name = "gpu-01-9080".to_string();
    assert_eq!(
        effect,
        Effect::Run(
            Work::Start("gpu-01".to_string(), name.clone(), 9080, 9080),
            Some(("gpu-01".to_string(), name))
        )
    );
    assert_eq!(app.mode, Mode::Normal);
    assert_eq!(app.pending_label.as_deref(), Some("Starting gpu-01-9080…"));
}

#[test]
fn a_form_for_a_new_machine_asks_for_its_host() {
    let mut app = app_with_hosts(&["nas"]);
    key(&mut app, Key::Char('A'));
    assert_eq!(app.input_field, InputField::Host);
    assert_eq!(app.form_fields().len(), 4);
    key(&mut app, Key::BackTab);
    assert_eq!(app.input_field, InputField::Name);
    assert_eq!(key(&mut app, Key::Enter), Effect::Nothing);
    assert_eq!(app.status_message.as_deref(), Some("Host is required"));
    assert_eq!(app.input_field, InputField::Host);

    for c in " me@box ".chars() {
        key(&mut app, Key::Char(c));
    }
    app.input_field = InputField::Name;
    key(&mut app, Key::Enter);
    assert_eq!(app.status_message.as_deref(), Some("Local port must be a number"));

    app.input_local_port = " 80 ".to_string();
    app.input_remote_port = "70000".to_string();
    key(&mut app, Key::Enter);
    assert_eq!(app.status_message.as_deref(), Some("Remote port must be a number"));

    app.input_remote_port = "8080".to_string();
    app.input_name = "web".to_string();
    assert_eq!(
        key(&mut app, Key::Enter),
        Effect::Run(
            Work::Start("me@box".to_string(), "web".to_string(), 80, 8080),
            Some(("me@box".to_string(), "web".to_string()))
        )
    );
}

#[test]
fn a_profile_starts_on_its_own_host() {
    let profile = |host: &str| Profile {
        host: host.to_string(),
        local_port: 8080,
        remote_port: 80,
        remote_host: "localhost".to_string(),
    };
    let mut app = app_with_hosts(&["nas"]);
    assert_eq!(key(&mut app, Key::Char('s')), Effect::LoadProfiles);
    pick_profile(&mut app, Some(Vec::new()));
    assert_eq!(app.status_message.as_deref(), Some("No saved profiles"));
    assert_eq!(app.mode, Mode::Normal);

    pick_profile(
        &mut app,
        Some(vec![
            ("dev".to_string(), profile("a")),
            ("prod".to_string(), profile("b")),
        ]),
    );
    assert_eq!(app.mode, Mode::ProfilePicker);
    key(&mut app, Key::Up);
    assert_eq!(app.profile_selected(), 1);
    assert_eq!(
        key(&mut app, Key::Enter),
        Effect::Run(
            Work::StartProfile("prod".to_string(), "b".to_string(), 8080, 80),
            Some(("b".to_string(), "prod".to_string()))
        )
    );
    key(&mut app, Key::Down);
    assert_eq!(app.mode, Mode::Normal);
}

#[test]
fn the_log_opens_at_its_tail() {
    let mut app = app_on_a_forward();
    app.log_follow = false;
    assert_eq!(
        key(&mut app, Key::Char('l')),
        Effect::LoadLogs("gpu-01".to_string())
    );
    assert_eq!(app.mode, Mode::Logs);
    assert_eq!(app.log_name, "gpu-01");
    assert!(app.log_follow);
}

#[test]
fn o_opens_the_url() {
    let mut app = app_on_a_forward();
    assert_eq!(
        selected_forward_url(&app).as_deref(),
        Some("http://localhost:8888")
    );
    assert_eq!(
        key(&mut app, Key::Char('o')),
        Effect::Open("http://localhost:8888".to_string())
    );
    assert_eq!(
        app.status_message.as_deref(),
        Some("Opened http://localhost:8888")
    );
    app.select(0);
    key(&mut app, Key::Char('o'));
    assert_eq!(
        app.status_message.as_deref(),
        Some("Select a forward to open its URL")
    );
    copied(&mut app, "x", Err("No clipboard tool found".to_string()));
    assert_eq!(
        app.status_message.as_deref(),
        Some("Failed to copy: No clipboard tool found")
    );
}

#[test]
fn m_cycles_the_list_and_says_so() {
    let mut app = app_with_hosts(&["nas"]);
    assert_eq!(key(&mut app, Key::Char('m')), Effect::SaveSource);
    assert_eq!(app.machine_source, MachineListMode::Configured);
    assert_eq!(app.status_message.as_deref(), Some("Showing configured"));
}

#[test]
fn a_key_press_clears_the_message_unless_a_filter_is_typed() {
    let mut app = app_with_hosts(&["nas"]);
    app.status_message = Some("old".to_string());
    press(&mut app, Key::Down, false);
    assert_eq!(app.status_message, None);

    app.status_message = Some("old".to_string());
    app.mode = Mode::Filter;
    press(&mut app, Key::Char('x'), false);
    assert_eq!(app.status_message.as_deref(), Some("old"));
    assert_eq!(press(&mut app, Key::Char('c'), true), Effect::Quit);
    assert_eq!(app.filter, "x");
    key(&mut app, Key::Enter);
    assert_eq!(app.mode, Mode::Normal);
    key(&mut app, Key::Char('q'));
    assert!(app.should_quit);
}

#[test]
fn keys_are_waited_for_until_the_next_refresh() {
    assert_eq!(key_timeout(0, 0), 1000);
    assert_eq!(key_timeout(400, 0), 600);
    assert_eq!(key_timeout(1500, 0), 0);
    // With work in flight, look more often.
    assert_eq!(key_timeout(400, 1), 100);
    assert_eq!(key_timeout(950, 1), 50);
}

#[test]
fn either_row_belongs_to_its_machine() {
    let mut app = app_on_a_forward();
    assert_eq!(app.selected_machine().unwrap().host, "gpu-01");
    app.select(0);
    assert_eq!(app.selected_machine().unwrap().host, "gpu-01");
    app.select(9);
    assert!(app.selected_machine().is_none());
}
