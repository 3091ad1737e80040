//! What each key does.
//!
//! A key changes the dashboard and may ask for work outside it: an [`Effect`].
//! Whoever carries that out hands the result back through the dashboard.

use crate::commands::default_name;
use crate::config::Profile;
use crate::names::{find_named, has_name, lemma_position, lookup, Named};
use crate::text::{
    chars_of, concat2, concat3, dec, decimal, law_a_number_is_read_back, parse_port, port_number,
    string_of, trim, trimmed,
};
use crate::tui::state::{
    all_collapsed, collapsed, field_after, field_before, field_place, fields_of, folded,
    form_opened, max_scroll, moved_by, moved_down, moved_to, moved_up, profile_moved,
    scrolled_down, scrolled_up, told, typed, under_cursor, unfolded, with_typed, AppState,
    ConfirmAction, InputField, Mode,
};
use crate::tui::tree::{
    law_the_cursor_follows_its_selection, sel_view, MachineListMode, Row, Sel, SelView,
};
use vstd::prelude::*;
use vstd::string::*;

verus! {

/// A key press.
#[derive(Debug, Clone, Copy, PartialEq, Eq, Structural)]
pub enum Key {
    Char(char),
    Up,
    Down,
    Left,
    Right,
    Home,
    End,
    PageUp,
    PageDown,
    Enter,
    Esc,
    Tab,
    BackTab,
    Backspace,
    /// A key that means nothing here.
    Other,
}

/// Work that runs in the background.
#[derive(Debug, PartialEq, Eq)]
pub enum Work {
    /// Start a forward by hand: host, name, local and remote port.
    Start(String, String, u16, u16),
    /// Start a saved profile: name, host, local and remote port.
    StartProfile(String, String, u16, u16),
    StopForward(String),
    StopHost(String),
    RestartForward(String),
    RestartHost(String),
}

/// What a key asks for outside the dashboard.
#[derive(Debug, PartialEq, Eq)]
pub enum Effect {
    Nothing,
    /// Leave at once.
    Quit,
    /// Refresh the tree from the sessions on disk.
    Refresh,
    /// Save which machines are listed, then refresh.
    SaveSource,
    /// Load the log of a host.
    LoadLogs(String),
    /// Load the profiles, then let one be picked.
    LoadProfiles,
    /// Open a URL.
    Open(String),
    /// Copy a text to the clipboard.
    Copy(String),
    /// Do some work, and then point the cursor at (host, forward).
    Run(Work, Option<(String, String)>),
}

/// Work, with its texts as sequences.
pub enum WorkView {
    Start(Seq<char>, Seq<char>, u16, u16),
    StartProfile(Seq<char>, Seq<char>, u16, u16),
    StopForward(Seq<char>),
    StopHost(Seq<char>),
    RestartForward(Seq<char>),
    RestartHost(Seq<char>),
}

impl View for Work {
    type V = WorkView;

    open spec fn view(&self) -> WorkView {
        match self {
            Work::Start(h, n, l, r) => WorkView::Start(h@, n@, *l, *r),
            Work::StartProfile(n, h, l, r) => WorkView::StartProfile(n@, h@, *l, *r),
            Work::StopForward(n) => WorkView::StopForward(n@),
            Work::StopHost(h) => WorkView::StopHost(h@),
            Work::RestartForward(n) => WorkView::RestartForward(n@),
            Work::RestartHost(h) => WorkView::RestartHost(h@),
        }
    }
}

/// An effect, with its texts as sequences.
pub enum EffectView {
    Nothing,
    Quit,
    Refresh,
    SaveSource,
    LoadLogs(Seq<char>),
    LoadProfiles,
    Open(Seq<char>),
    Copy(Seq<char>),
    Run(WorkView, Option<(Seq<char>, Seq<char>)>),
}

impl View for Effect {
    type V = EffectView;

    open spec fn view(&self) -> EffectView {
        match self {
            Effect::Nothing => EffectView::Nothing,
            Effect::Quit => EffectView::Quit,
            Effect::Refresh => EffectView::Refresh,
            Effect::SaveSource => EffectView::SaveSource,
            Effect::LoadLogs(h) => EffectView::LoadLogs(h@),
            Effect::LoadProfiles => EffectView::LoadProfiles,
            Effect::Open(u) => EffectView::Open(u@),
            Effect::Copy(t) => EffectView::Copy(t@),
            Effect::Run(w, follow) => EffectView::Run(
                w@,
                match follow {
                    Some((h, n)) => Some((h@, n@)),
                    None => None,
                },
            ),
        }
    }
}

/// An action to confirm, with its texts as sequences.
pub enum ConfirmView {
    StopForward(Seq<char>),
    StopHost(Seq<char>, usize),
    RestartForward(Seq<char>),
    RestartHost(Seq<char>),
}

impl View for ConfirmAction {
    type V = ConfirmView;

    open spec fn view(&self) -> ConfirmView {
        match self {
            ConfirmAction::StopForward(n) => ConfirmView::StopForward(n@),
            ConfirmAction::StopHost(h, n) => ConfirmView::StopHost(h@, *n),
            ConfirmAction::RestartForward(n) => ConfirmView::RestartForward(n@),
            ConfirmAction::RestartHost(h) => ConfirmView::RestartHost(h@),
        }
    }
}

/// `after` is `before`, waiting for `action` to be confirmed.
pub open spec fn asks(before: AppState, action: ConfirmView, after: AppState) -> bool {
    &&& after == (AppState { mode: after.mode, ..before })
    &&& after.mode is Confirm
    &&& after.mode->Confirm_0@ == action
}

/// `after` is `before` with one more action in flight, which `label` describes.
pub open spec fn went_off(before: AppState, label: Seq<char>, after: AppState) -> bool {
    &&& after == (AppState {
        pending_actions: (before.pending_actions + 1) as usize,
        pending_label: after.pending_label,
        ..before
    })
    &&& after.pending_label is Some
    &&& after.pending_label->0@ == label
}

/// The URL of the forward under the cursor, if the cursor is on one.
pub open spec fn forward_url(app: AppState) -> Option<Seq<char>> {
    match under_cursor(app) {
        Some(SelView::Forward(host, name)) => match lookup(app.machines@, host) {
            Some(machine) => match lookup(machine.forwards@, name) {
                Some(f) => Some("http://localhost:"@ + decimal(f.local_port as nat)),
                None => None,
            },
            None => None,
        },
        _ => None,
    }
}

/// `http://localhost:<port>` for the forward under the cursor, if the cursor is
/// on one.
pub fn selected_forward_url(app: &AppState) -> (r: Option<String>)
    ensures
        match (r, forward_url(*app)) {
            (Some(url), Some(want)) => url@ == want,
            (None, None) => true,
            _ => false,
        },
{
    match app.selected_sel() {
        Some(Sel::Forward(host, name)) => match find_named(app.machines.as_slice(), host.as_str()) {
            Some(mi) => {
                let machine = &app.machines[mi];
                match find_named(machine.forwards.as_slice(), name.as_str()) {
                    Some(fi) => Some(
                        concat2(
                            "http://localhost:",
                            dec(machine.forwards[fi].local_port as u64).as_str(),
                        ),
                    ),
                    None => None,
                }
            },
            None => None,
        },
        _ => None,
    }
}

/// How many forwards a machine of the tree has.
pub open spec fn forward_count(app: AppState, host: Seq<char>) -> nat {
    match lookup(app.machines@, host) {
        Some(m) => m.forwards@.len(),
        None => 0,
    }
}

/// Whether a machine of the tree has a session.
pub open spec fn is_up(app: AppState, host: Seq<char>) -> bool {
    match lookup(app.machines@, host) {
        Some(m) => m.session is Some,
        None => false,
    }
}

/// A page, and never nothing, so paging still moves on a tiny terminal.
pub open spec fn at_least_one(n: int) -> int {
    if n < 1 {
        1
    } else {
        n
    }
}

/// What stopping whatever is under the cursor leads to.
pub open spec fn stop_asked(before: AppState, after: AppState) -> bool {
    match under_cursor(before) {
        Some(SelView::Forward(_, name)) => asks(before, ConfirmView::StopForward(name), after),
        Some(SelView::Machine(host)) => if forward_count(before, host) > 0 {
            asks(
                before,
                ConfirmView::StopHost(host, forward_count(before, host) as usize),
                after,
            )
        } else {
            told(before, host + " has no forwards"@, after)
        },
        None => after == before,
    }
}

/// What restarting whatever is under the cursor leads to.
pub open spec fn restart_asked(before: AppState, after: AppState) -> bool {
    match under_cursor(before) {
        Some(SelView::Forward(_, name)) => asks(before, ConfirmView::RestartForward(name), after),
        Some(SelView::Machine(host)) => if is_up(before, host) {
            asks(before, ConfirmView::RestartHost(host), after)
        } else {
            told(before, host + " is not connected"@, after)
        },
        None => after == before,
    }
}

/// What a letter does in the tree.
pub open spec fn normal_char(
    before: AppState,
    c: char,
    after: AppState,
    effect: EffectView,
) -> bool {
    if c == 'q' {
        after == (AppState { should_quit: true, ..before }) && effect == EffectView::Nothing
    } else if c == 'j' {
        moved_down(before, after) && effect == EffectView::Nothing
    } else if c == 'k' {
        moved_up(before, after) && effect == EffectView::Nothing
    } else if c == 'g' {
        to_row(before, 0, after) && effect == EffectView::Nothing
    } else if c == 'G' {
        to_row(before, before.rows@.len() - 1, after) && effect == EffectView::Nothing
    } else if c == ' ' {
        folded(before, after) && effect == EffectView::Nothing
    } else if c == 'Z' {
        all_collapsed(before, after) && effect == EffectView::Nothing
    } else if c == '/' {
        &&& after == (AppState { mode: Mode::Filter, filter: after.filter, ..before })
        &&& after.filter@.len() == 0
        &&& effect == EffectView::Nothing
    } else if c == 'm' {
        &&& told(
            AppState { machine_source: before.machine_source.next(), ..before },
            "Showing "@ + before.machine_source.next().name(),
            after,
        )
        &&& effect == EffectView::SaveSource
    } else if c == '?' {
        after == (AppState { mode: Mode::Help, ..before }) && effect == EffectView::Nothing
    } else if c == 'a' || c == 'n' {
        &&& match under_cursor(before) {
            Some(sel) => exists|host: String|
                #![trigger host@]
                host@ == sel.host() && form_opened(before, Some(host), after),
            None => after == before,
        }
        &&& effect == EffectView::Nothing
    } else if c == 'A' || c == 'N' {
        form_opened(before, None, after) && effect == EffectView::Nothing
    } else if c == 'x' || c == 'd' {
        stop_asked(before, after) && effect == EffectView::Nothing
    } else if c == 'r' {
        restart_asked(before, after) && effect == EffectView::Nothing
    } else if c == 'l' {
        match under_cursor(before) {
            Some(sel) => {
                &&& after == (AppState {
                    log_follow: true,
                    log_name: after.log_name,
                    mode: Mode::Logs,
                    ..before
                })
                &&& after.log_name@ == sel.host()
                &&& effect == EffectView::LoadLogs(sel.host())
            },
            None => after == before && effect == EffectView::Nothing,
        }
    } else if c == 's' {
        after == before && effect == EffectView::LoadProfiles
    } else if c == 'o' {
        match forward_url(before) {
            Some(url) => told(before, "Opened "@ + url, after) && effect == EffectView::Open(url),
            None => told(before, "Select a forward to open its URL"@, after) && effect
                == EffectView::Nothing,
        }
    } else if c == 'y' {
        match forward_url(before) {
            Some(url) => after == before && effect == EffectView::Copy(url),
            None => told(before, "Select a forward to copy its URL"@, after) && effect
                == EffectView::Nothing,
        }
    } else {
        after == before && effect == EffectView::Nothing
    }
}

/// `after` is `before` with the cursor on row `idx`; nothing moves in an empty
/// list.
pub open spec fn to_row(before: AppState, idx: int, after: AppState) -> bool {
    if before.rows@.len() == 0 {
        after == before
    } else {
        moved_to(before, idx, after)
    }
}

/// What a key does in the tree.
pub open spec fn normal_key(
    before: AppState,
    key: Key,
    ctrl: bool,
    after: AppState,
    effect: EffectView,
) -> bool {
    let page = at_least_one(before.tree_visible as int);
    let half = at_least_one(before.tree_visible as int / 2);
    if ctrl {
        &&& effect == EffectView::Nothing
        &&& if key == Key::Char('d') {
            moved_by(before, half, after)
        } else if key == Key::Char('u') {
            moved_by(before, -half, after)
        } else {
            after == before
        }
    } else {
        match key {
            Key::Char(c) => normal_char(before, c, after, effect),
            Key::Esc => if before.filter@.len() > 0 {
                &&& after == (AppState { filter: after.filter, ..before })
                &&& after.filter@.len() == 0
                &&& effect == EffectView::Refresh
            } else {
                after == before && effect == EffectView::Nothing
            },
            _ => {
                &&& effect == EffectView::Nothing
                &&& match key {
                    Key::Down => moved_down(before, after),
                    Key::Up => moved_up(before, after),
                    Key::Home => to_row(before, 0, after),
                    Key::End => to_row(before, before.rows@.len() - 1, after),
                    Key::PageDown => moved_by(before, page, after),
                    Key::PageUp => moved_by(before, -page, after),
                    Key::Enter | Key::Tab => folded(before, after),
                    Key::Right => unfolded(before, after),
                    Key::Left => collapsed(before, after),
                    _ => after == before,
                }
            },
        }
    }
}

fn pages(n: usize) -> (r: usize)
    ensures
        r == at_least_one(n as int),
{
    if n < 1 {
        1
    } else {
        n
    }
}

fn ask_to_stop(app: &mut AppState)
    ensures
        stop_asked(*old(app), *final(app)),
{
    match app.selected_sel() {
        Some(Sel::Forward(_, name)) => {
            app.mode = Mode::Confirm(ConfirmAction::StopForward(name));
        },
        Some(Sel::Machine(host)) => {
            let count: usize = match app.selected_machine() {
                Some(m) => m.forwards.len(),
                None => 0,
            };
            if count > 0 {
                app.mode = Mode::Confirm(ConfirmAction::StopHost(host, count));
            } else {
                app.status_message = Some(concat2(host.as_str(), " has no forwards"));
            }
        },
        None => {},
    }
}

fn ask_to_restart(app: &mut AppState)
    ensures
        restart_asked(*old(app), *final(app)),
{
    match app.selected_sel() {
        Some(Sel::Forward(_, name)) => {
            app.mode = Mode::Confirm(ConfirmAction::RestartForward(name));
        },
        Some(Sel::Machine(host)) => {
            let live = match app.selected_machine() {
                Some(m) => m.is_live(),
                None => false,
            };
            if live {
                app.mode = Mode::Confirm(ConfirmAction::RestartHost(host));
            } else {
                app.status_message = Some(concat2(host.as_str(), " is not connected"));
            }
        },
        None => {},
    }
}

fn handle_normal_char(app: &mut AppState, c: char) -> (effect: Effect)
    ensures
        normal_char(*old(app), c, *final(app), effect@),
{
    match c {
        'q' => {
            app.should_quit = true;
            Effect::Nothing
        },
        'j' => {
            app.select_next();
            Effect::Nothing
        },
        'k' => {
            app.select_prev();
            Effect::Nothing
        },
        'g' => {
            app.select_first();
            Effect::Nothing
        },
        'G' => {
            app.select_last();
            Effect::Nothing
        },
        ' ' => {
            app.toggle_expand();
            Effect::Nothing
        },
        'Z' => {
            app.collapse_all();
            Effect::Nothing
        },
        '/' => {
            app.filter = String::new();
            app.mode = Mode::Filter;
            Effect::Nothing
        },
        'm' => {
            app.cycle_machine_source();
            Effect::SaveSource
        },
        '?' => {
            app.mode = Mode::Help;
            Effect::Nothing
        },
        // Add a forward under the selected machine. The host is already known,
        // which is why the form has no Host field.
        'a' | 'n' => {
            match app.selected_sel() {
                Some(sel) => {
                    let host = sel.host().to_owned();
                    let ghost h = host;
                    app.open_new_forward_form(host);
                    assert(h@ == sel@.host());
                },
                None => {},
            }
            Effect::Nothing
        },
        // Connect to a machine the list does not contain: an IP, a user@host, or
        // anything hidden behind a wildcard in ~/.ssh/config.
        'A' | 'N' => {
            app.open_new_machine_form();
            Effect::Nothing
        },
        'x' | 'd' => {
            ask_to_stop(app);
            Effect::Nothing
        },
        'r' => {
            ask_to_restart(app);
            Effect::Nothing
        },
        // One log per machine, so either row kind opens the same one.
        'l' => {
            match app.selected_sel() {
                Some(sel) => {
                    app.open_logs(sel.host());
                    Effect::LoadLogs(sel.host().to_owned())
                },
                None => Effect::Nothing,
            }
        },
        's' => Effect::LoadProfiles,
        'o' => match selected_forward_url(app) {
            Some(url) => {
                app.status_message = Some(concat2("Opened ", url.as_str()));
                Effect::Open(url)
            },
            None => {
                app.status_message = Some("Select a forward to open its URL".to_owned());
                Effect::Nothing
            },
        },
        // The URL as text, for the curl command or the terminal on the other
        // monitor: the other half of `o`.
        'y' => match selected_forward_url(app) {
            Some(url) => Effect::Copy(url),
            None => {
                app.status_message = Some("Select a forward to copy its URL".to_owned());
                Effect::Nothing
            },
        },
        _ => Effect::Nothing,
    }
}

/// A key in the tree.
pub fn handle_normal_key(app: &mut AppState, key: Key, ctrl: bool) -> (effect: Effect)
    ensures
        normal_key(*old(app), key, ctrl, *final(app), effect@),
{
    if ctrl {
        let half: usize = pages(app.tree_visible / 2);
        match key {
            Key::Char('d') => app.page_down(half),
            Key::Char('u') => app.page_up(half),
            _ => {},
        }
        return Effect::Nothing;
    }
    let page: usize = pages(app.tree_visible);
    match key {
        Key::Char(c) => {
            return handle_normal_char(app, c);
        },
        // The filter survives leaving Filter mode; Esc is the way back out.
        Key::Esc => {
            if !app.filter.as_str().is_empty() {
                app.filter = String::new();
                return Effect::Refresh;
            }
        },
        Key::Down => app.select_next(),
        Key::Up => app.select_prev(),
        Key::Home => app.select_first(),
        Key::End => app.select_last(),
        Key::PageDown => app.page_down(page),
        Key::PageUp => app.page_up(page),
        Key::Enter | Key::Tab => app.toggle_expand(),
        Key::Right => app.expand_selected(),
        Key::Left => app.collapse_selected(),
        _ => {},
    }
    Effect::Nothing
}

/// A text without its last character.
pub open spec fn popped(s: Seq<char>) -> Seq<char> {
    if s.len() == 0 {
        s
    } else {
        s.drop_last()
    }
}

fn pop(s: &str) -> (out: String)
    ensures
        out@ == popped(s@),
{
    let c = chars_of(s);
    if c.len() == 0 {
        return s.to_owned();
    }
    let out = string_of(&c, 0, c.len() - 1);
    assert(out@ =~= s@.drop_last());
    out
}

/// What a key does while the filter is typed.
pub open spec fn filter_key(
    before: AppState,
    key: Key,
    after: AppState,
    effect: EffectView,
) -> bool {
    match key {
        Key::Esc => {
            &&& after == (AppState { filter: after.filter, mode: Mode::Normal, ..before })
            &&& after.filter@.len() == 0
            &&& effect == EffectView::Refresh
        },
        Key::Enter => after == (AppState { mode: Mode::Normal, ..before }) && effect
            == EffectView::Nothing,
        Key::Down => moved_down(before, after) && effect == EffectView::Nothing,
        Key::Up => moved_up(before, after) && effect == EffectView::Nothing,
        Key::Backspace => {
            &&& after == (AppState { filter: after.filter, ..before })
            &&& after.filter@ == popped(before.filter@)
            &&& effect == EffectView::Refresh
        },
        Key::Char(c) => {
            &&& after == (AppState { filter: after.filter, ..before })
            &&& after.filter@ == before.filter@.push(c)
            &&& effect == EffectView::Refresh
        },
        _ => after == before && effect == EffectView::Nothing,
    }
}

/// A key while the filter is typed.
///
/// The arrows walk the narrowed list without leaving the prompt, so
/// filter-then-pick is one motion. Letters stay filter text.
pub fn handle_filter_key(app: &mut AppState, key: Key) -> (effect: Effect)
    ensures
        filter_key(*old(app), key, *final(app), effect@),
{
    match key {
        Key::Esc => {
            app.filter = String::new();
            app.mode = Mode::Normal;
            Effect::Refresh
        },
        Key::Enter => {
            app.mode = Mode::Normal;
            Effect::Nothing
        },
        Key::Down => {
            app.select_next();
            Effect::Nothing
        },
        Key::Up => {
            app.select_prev();
            Effect::Nothing
        },
        Key::Backspace => {
            app.filter = pop(app.filter.as_str());
            Effect::Refresh
        },
        Key::Char(c) => {
            app.filter.push(c);
            Effect::Refresh
        },
        _ => Effect::Nothing,
    }
}

/// What a key does in the log viewer.
pub open spec fn logs_key(before: AppState, key: Key) -> AppState {
    let page = at_least_one(before.log_visible as int);
    if key == Key::Esc {
        AppState { mode: Mode::Normal, ..before }
    } else if key == Key::Char('q') {
        AppState { should_quit: true, ..before }
    } else if key == Key::Char('j') || key == Key::Down {
        scrolled_down(before, 1)
    } else if key == Key::Char('k') || key == Key::Up {
        scrolled_up(before, 1)
    } else if key == Key::PageDown {
        scrolled_down(before, page)
    } else if key == Key::PageUp {
        scrolled_up(before, page)
    } else if key == Key::Char('g') || key == Key::Home {
        AppState { log_follow: false, log_scroll: 0, ..before }
    } else if key == Key::Char('G') || key == Key::End {
        AppState { log_follow: true, log_scroll: max_scroll(before) as usize, ..before }
    } else {
        before
    }
}

/// A key in the log viewer.
pub fn handle_logs_key(app: &mut AppState, key: Key)
    ensures
        *final(app) == logs_key(*old(app), key),
{
    let page: usize = pages(app.log_visible);
    match key {
        Key::Esc => {
            app.mode = Mode::Normal;
        },
        Key::Char('q') => {
            app.should_quit = true;
        },
        Key::Char('j') | Key::Down => app.log_scroll_down(1),
        Key::Char('k') | Key::Up => app.log_scroll_up(1),
        Key::PageDown => app.log_scroll_down(page),
        Key::PageUp => app.log_scroll_up(page),
        Key::Char('g') | Key::Home => app.log_to_top(),
        Key::Char('G') | Key::End => app.log_to_bottom(),
        _ => {},
    }
}

/// The name of the forward that a form describes.
pub open spec fn form_name(host: Seq<char>, local: u16, name: Seq<char>) -> Seq<char> {
    if trimmed(name).len() == 0 {
        default_name(host, local)
    } else {
        trimmed(name)
    }
}

/// The remote port that a form describes: an empty one mirrors the local one.
pub open spec fn form_remote(local: u16, remote: Seq<char>) -> Option<u16> {
    if trimmed(remote).len() == 0 {
        Some(local)
    } else {
        port_number(trimmed(remote))
    }
}

/// What submitting the form leads to.
pub open spec fn submitted(before: AppState, after: AppState, effect: EffectView) -> bool {
    let host = trimmed(before.input_host@);
    if host.len() == 0 {
        &&& told(
            AppState { input_field: InputField::Host, ..before },
            "Host is required"@,
            after,
        )
        &&& effect == EffectView::Nothing
    } else {
        match port_number(trimmed(before.input_local_port@)) {
            None => told(before, "Local port must be a number"@, after) && effect
                == EffectView::Nothing,
            Some(local) => match form_remote(local, before.input_remote_port@) {
                None => told(before, "Remote port must be a number"@, after) && effect
                    == EffectView::Nothing,
                Some(remote) => {
                    let name = form_name(host, local, before.input_name@);
                    &&& went_off(
                        AppState { mode: Mode::Normal, ..before },
                        "Starting "@ + name + "…"@,
                        after,
                    )
                    &&& effect == EffectView::Run(
                        WorkView::Start(host, name, local, remote),
                        Some((host, name)),
                    )
                },
            },
        }
    }
}

/// Submit the form.
pub fn submit_new_forward(app: &mut AppState) -> (effect: Effect)
    requires
        old(app).pending_actions < usize::MAX,
    ensures
        submitted(*old(app), *final(app), effect@),
{
    let host = trim(app.input_host.as_str());
    if host.as_str().is_empty() {
        app.status_message = Some("Host is required".to_owned());
        app.input_field = InputField::Host;
        return Effect::Nothing;
    }
    let local: u16 = match parse_port(trim(app.input_local_port.as_str()).as_str()) {
        Some(p) => p,
        None => {
            app.status_message = Some("Local port must be a number".to_owned());
            return Effect::Nothing;
        },
    };
    // Same port on both sides is the common case, so an empty remote port
    // mirrors the local one rather than being an error.
    let remote_raw = trim(app.input_remote_port.as_str());
    let remote: u16 = if remote_raw.as_str().is_empty() {
        local
    } else {
        match parse_port(remote_raw.as_str()) {
            Some(p) => p,
            None => {
                app.status_message = Some("Remote port must be a number".to_owned());
                return Effect::Nothing;
            },
        }
    };
    let typed_name = trim(app.input_name.as_str());
    let name = if typed_name.as_str().is_empty() {
        concat3(host.as_str(), "-", dec(local as u64).as_str())
    } else {
        typed_name
    };
    app.mode = Mode::Normal;
    app.run_action(concat3("Starting ", name.as_str(), "…"));
    let follow = Some((host.clone(), name.clone()));
    Effect::Run(Work::Start(host, name, local, remote), follow)
}

/// What a key does in the form.
pub open spec fn form_key(
    before: AppState,
    key: Key,
    after: AppState,
    effect: EffectView,
) -> bool {
    match key {
        Key::Enter => if before.input_field == fields_of(before.input_asks_host).last() {
            submitted(before, after, effect)
        } else {
            &&& after == (AppState {
                input_field: field_after(before.input_asks_host, before.input_field),
                ..before
            })
            &&& effect == EffectView::Nothing
        },
        _ => {
            &&& effect == EffectView::Nothing
            &&& match key {
                Key::Esc => after == (AppState { mode: Mode::Normal, ..before }),
                Key::Tab => after == (AppState {
                    input_field: field_after(before.input_asks_host, before.input_field),
                    ..before
                }),
                Key::BackTab => after == (AppState {
                    input_field: field_before(before.input_asks_host, before.input_field),
                    ..before
                }),
                Key::Backspace => after == with_typed(before, typed(after)) && typed(after)@
                    == popped(typed(before)@),
                Key::Char(c) => after == with_typed(before, typed(after)) && typed(after)@
                    == typed(before)@.push(c),
                _ => after == before,
            }
        },
    }
}

/// A key in the form.
pub fn handle_new_forward_key(app: &mut AppState, key: Key) -> (effect: Effect)
    requires
        old(app).pending_actions < usize::MAX,
    ensures
        form_key(*old(app), key, *final(app), effect@),
{
    match key {
        Key::Esc => {
            app.mode = Mode::Normal;
        },
        Key::Tab => app.next_field(),
        Key::BackTab => app.prev_field(),
        Key::Backspace => {
            let text = app.current_input();
            *text = pop(text.as_str());
        },
        Key::Char(c) => {
            let text = app.current_input();
            text.push(c);
        },
        Key::Enter => {
            if app.on_last_field() {
                return submit_new_forward(app);
            }
            app.next_field();
        },
        _ => {},
    }
    Effect::Nothing
}

/// What a key does in the list of profiles.
pub open spec fn picker_key(
    before: AppState,
    key: Key,
    after: AppState,
    effect: EffectView,
) -> bool {
    let at = match before.profile_cursor {
        Some(i) => i as int,
        None => 0,
    };
    if key == Key::Esc {
        after == (AppState { mode: Mode::Normal, ..before }) && effect == EffectView::Nothing
    } else if key == Key::Char('j') || key == Key::Down {
        profile_moved(before, 1, after) && effect == EffectView::Nothing
    } else if key == Key::Char('k') || key == Key::Up {
        profile_moved(before, -1, after) && effect == EffectView::Nothing
    } else if key == Key::Enter && at < before.profiles@.len() {
        let (name, profile) = before.profiles@[at];
        &&& went_off(
            AppState { mode: Mode::Normal, ..before },
            "Starting "@ + name@ + "…"@,
            after,
        )
        &&& effect == EffectView::Run(
            WorkView::StartProfile(
                name@,
                profile.host@,
                profile.local_port,
                profile.remote_port,
            ),
            Some((profile.host@, name@)),
        )
    } else {
        after == before && effect == EffectView::Nothing
    }
}

/// A key in the list of profiles.
///
/// A profile targets its own host, which may not be the machine the cursor was
/// on, so the cursor follows the forward that it makes.
pub fn handle_profile_picker_key(app: &mut AppState, key: Key) -> (effect: Effect)
    requires
        old(app).pending_actions < usize::MAX,
    ensures
        picker_key(*old(app), key, *final(app), effect@),
{
    match key {
        Key::Esc => {
            app.mode = Mode::Normal;
        },
        Key::Char('j') | Key::Down => app.select_next_profile(),
        Key::Char('k') | Key::Up => app.select_prev_profile(),
        Key::Enter => {
            let at: usize = app.profile_selected();
            if at < app.profiles.len() {
                let name = app.profiles[at].0.clone();
                let profile = app.profiles[at].1.clone();
                app.mode = Mode::Normal;
                app.run_action(concat3("Starting ", name.as_str(), "…"));
                let follow = Some((profile.host.clone(), name.clone()));
                return Effect::Run(
                    Work::StartProfile(
                        name,
                        profile.host,
                        profile.local_port,
                        profile.remote_port,
                    ),
                    follow,
                );
            }
        },
        _ => {},
    }
    Effect::Nothing
}

/// What confirming an action leads to: what the bar says, and the work.
pub open spec fn confirmed(action: ConfirmView) -> (Seq<char>, WorkView) {
    match action {
        ConfirmView::StopForward(name) => (
            "Stopping "@ + name + "…"@,
            WorkView::StopForward(name),
        ),
        ConfirmView::StopHost(host, _) => ("Stopping "@ + host + "…"@, WorkView::StopHost(host)),
        ConfirmView::RestartForward(name) => (
            "Restarting "@ + name + "…"@,
            WorkView::RestartForward(name),
        ),
        ConfirmView::RestartHost(host) => (
            "Reconnecting "@ + host + "…"@,
            WorkView::RestartHost(host),
        ),
    }
}

/// What a key does while an action waits to be confirmed.
pub open spec fn confirm_key(
    before: AppState,
    key: Key,
    after: AppState,
    effect: EffectView,
) -> bool {
    if before.mode is Confirm && (key == Key::Char('y') || key == Key::Char('Y')) {
        let (label, work) = confirmed(before.mode->Confirm_0@);
        &&& went_off(AppState { mode: Mode::Normal, ..before }, label, after)
        &&& effect == EffectView::Run(work, None)
    } else if key == Key::Char('n') || key == Key::Char('N') || key == Key::Esc {
        after == (AppState { mode: Mode::Normal, ..before }) && effect == EffectView::Nothing
    } else {
        after == before && effect == EffectView::Nothing
    }
}

/// A key while an action waits to be confirmed.
pub fn handle_confirm_key(app: &mut AppState, key: Key) -> (effect: Effect)
    requires
        old(app).pending_actions < usize::MAX,
    ensures
        confirm_key(*old(app), key, *final(app), effect@),
{
    match key {
        Key::Char('y') | Key::Char('Y') => {
            let (label, work) = match &app.mode {
                Mode::Confirm(action) => match action {
                    ConfirmAction::StopForward(name) => (
                        concat3("Stopping ", name.as_str(), "…"),
                        Work::StopForward(name.clone()),
                    ),
                    ConfirmAction::StopHost(host, _) => (
                        concat3("Stopping ", host.as_str(), "…"),
                        Work::StopHost(host.clone()),
                    ),
                    ConfirmAction::RestartForward(name) => (
                        concat3("Restarting ", name.as_str(), "…"),
                        Work::RestartForward(name.clone()),
                    ),
                    ConfirmAction::RestartHost(host) => (
                        concat3("Reconnecting ", host.as_str(), "…"),
                        Work::RestartHost(host.clone()),
                    ),
                },
                _ => {
                    return Effect::Nothing;
                },
            };
            app.run_action(label);
            app.mode = Mode::Normal;
            Effect::Run(work, None)
        },
        Key::Char('n') | Key::Char('N') | Key::Esc => {
            app.mode = Mode::Normal;
            Effect::Nothing
        },
        _ => Effect::Nothing,
    }
}

/// What a key does, whatever the mode.
pub open spec fn any_key(
    before: AppState,
    key: Key,
    ctrl: bool,
    after: AppState,
    effect: EffectView,
) -> bool {
    match before.mode {
        Mode::Normal => normal_key(before, key, ctrl, after, effect),
        Mode::Logs => after == logs_key(before, key) && effect == EffectView::Nothing,
        Mode::NewForward => form_key(before, key, after, effect),
        Mode::ProfilePicker => picker_key(before, key, after, effect),
        Mode::Filter => filter_key(before, key, after, effect),
        Mode::Confirm(_) => confirm_key(before, key, after, effect),
        Mode::Help => after == (AppState { mode: Mode::Normal, ..before }) && effect
            == EffectView::Nothing,
    }
}

/// A key, whatever the mode.
///
/// Any key closes help, and is swallowed, so a key you were reading about does
/// not fire the moment you dismiss the overlay.
pub fn handle_key(app: &mut AppState, key: Key, ctrl: bool) -> (effect: Effect)
    requires
        old(app).pending_actions < usize::MAX,
    ensures
        any_key(*old(app), key, ctrl, *final(app), effect@),
{
    match &app.mode {
        Mode::Normal => handle_normal_key(app, key, ctrl),
        Mode::Logs => {
            handle_logs_key(app, key);
            Effect::Nothing
        },
        Mode::NewForward => handle_new_forward_key(app, key),
        Mode::ProfilePicker => handle_profile_picker_key(app, key),
        Mode::Filter => handle_filter_key(app, key),
        Mode::Confirm(_) => handle_confirm_key(app, key),
        Mode::Help => {
            app.mode = Mode::Normal;
            Effect::Nothing
        },
    }
}

/// What a key does as the terminal reports it.
pub open spec fn pressed(
    before: AppState,
    key: Key,
    ctrl: bool,
    after: AppState,
    effect: EffectView,
) -> bool {
    if ctrl && key == Key::Char('c') {
        after == before && effect == EffectView::Quit
    } else {
        any_key(
            if before.mode is Filter {
                before
            } else {
                AppState { status_message: None, ..before }
            },
            key,
            ctrl,
            after,
            effect,
        )
    }
}

/// A key as the terminal reports it: ctrl-c leaves at once, and any other key
/// first clears the message in the bar, unless a filter is being typed.
pub fn press(app: &mut AppState, key: Key, ctrl: bool) -> (effect: Effect)
    requires
        old(app).pending_actions < usize::MAX,
    ensures
        pressed(*old(app), key, ctrl, *final(app), effect@),
{
    if ctrl && key == Key::Char('c') {
        return Effect::Quit;
    }
    if !matches!(app.mode, Mode::Filter) {
        app.status_message = None;
    }
    handle_key(app, key, ctrl)
}

/// How often the dashboard refreshes by itself, in milliseconds.
pub const TICK_MS: u64 = 1000;

/// How often it looks for finished work while some is in flight.
pub const PENDING_POLL_MS: u64 = 100;

/// How long to wait for a key, `since_tick` milliseconds after the last refresh.
/// With work in flight, wake often enough that its result shows the moment it
/// lands rather than at the next refresh.
pub fn key_timeout(since_tick: u64, pending_actions: usize) -> (ms: u64)
    ensures
        ({
            let left = if since_tick < TICK_MS {
                TICK_MS - since_tick
            } else {
                0
            };
            ms == (if pending_actions > 0 && left > PENDING_POLL_MS {
                PENDING_POLL_MS as int
            } else {
                left
            })
        }),
{
    let left: u64 = TICK_MS.saturating_sub(since_tick);
    if pending_actions > 0 && left > PENDING_POLL_MS {
        PENDING_POLL_MS
    } else {
        left
    }
}

/// `after` is `before` letting a profile be picked, where there are any.
pub open spec fn picking(
    before: AppState,
    profiles: Option<Vec<(String, Profile)>>,
    after: AppState,
) -> bool {
    let loaded = match profiles {
        Some(p) => AppState { profiles: p, ..before },
        None => before,
    };
    if loaded.profiles@.len() == 0 {
        told(loaded, "No saved profiles"@, after)
    } else {
        after == (AppState { profile_cursor: Some(0), mode: Mode::ProfilePicker, ..loaded })
    }
}

/// Let a profile be picked, from the profiles that were loaded.
pub fn pick_profile(app: &mut AppState, profiles: Option<Vec<(String, Profile)>>)
    ensures
        picking(*old(app), profiles, *final(app)),
{
    match profiles {
        Some(p) => app.refresh_profiles(p),
        None => {},
    }
    if app.profiles.len() == 0 {
        app.status_message = Some("No saved profiles".to_owned());
    } else {
        app.select_profile(0);
        app.mode = Mode::ProfilePicker;
    }
}

/// `after` is `before` saying what came of copying `text`.
pub open spec fn copy_told(
    before: AppState,
    text: Seq<char>,
    outcome: Result<(), String>,
    after: AppState,
) -> bool {
    told(
        before,
        match outcome {
            Ok(_) => "Copied "@ + text,
            Err(e) => "Failed to copy: "@ + e@,
        },
        after,
    )
}

/// Say what came of copying `text`.
pub fn copied(app: &mut AppState, text: &str, outcome: Result<(), String>)
    ensures
        copy_told(*old(app), text@, outcome, *final(app)),
{
    app.status_message = Some(
        match outcome {
            Ok(_) => concat2("Copied ", text),
            Err(e) => concat2("Failed to copy: ", e.as_str()),
        },
    );
}

/// Nothing is stopped or restarted without a yes to a question about it, and no
/// other mode sends off work but the form and the list of profiles.
pub proof fn law_only_a_confirmation_stops_or_restarts(
    before: AppState,
    key: Key,
    ctrl: bool,
    after: AppState,
    work: WorkView,
    follow: Option<(Seq<char>, Seq<char>)>,
)
    requires
        any_key(before, key, ctrl, after, EffectView::Run(work, follow)),
    ensures
        match work {
            WorkView::Start(..) => before.mode is NewForward && key == Key::Enter,
            WorkView::StartProfile(..) => before.mode is ProfilePicker && key == Key::Enter,
            _ => before.mode is Confirm && (key == Key::Char('y') || key == Key::Char('Y')) && work
                == confirmed(before.mode->Confirm_0@).1,
        },
        after.mode is Normal,
        after.pending_label is Some,
{
}

/// A key that closes help does nothing else.
pub proof fn law_help_swallows_the_key(
    before: AppState,
    key: Key,
    ctrl: bool,
    after: AppState,
    effect: EffectView,
)
    requires
        before.mode is Help,
        any_key(before, key, ctrl, after, effect),
    ensures
        after == (AppState { mode: Mode::Normal, ..before }),
        effect == EffectView::Nothing,
{
}

/// Whether the cursor is on the row of machine number `mi`.
pub open spec fn on_machine(app: AppState, mi: int) -> bool {
    &&& app.cursor is Some
    &&& app.cursor->0 < app.rows@.len()
    &&& app.rows@[app.cursor->0 as int] == Row::Machine(mi as usize)
    &&& 0 <= mi < app.machines@.len() <= usize::MAX
}

/// Whether the cursor is on the row of forward number `fi` of machine number
/// `mi`.
pub open spec fn on_forward(app: AppState, mi: int, fi: int) -> bool {
    &&& app.cursor is Some
    &&& app.cursor->0 < app.rows@.len()
    &&& app.rows@[app.cursor->0 as int] == Row::Forward(mi as usize, fi as usize)
    &&& 0 <= mi < app.machines@.len() <= usize::MAX
    &&& 0 <= fi < app.machines@[mi].forwards@.len() <= usize::MAX
}

/// Whether no machine before number `mi` has its host, as in any tree that was
/// built.
pub open spec fn first_of_host(app: AppState, mi: int) -> bool {
    forall|k: int|
        0 <= k < mi ==> (#[trigger] app.machines@[k]).host@ != app.machines@[mi].host@
}

/// Whether only the cursor differs, and with it what is selected.
pub open spec fn only_moved(before: AppState, after: AppState) -> bool {
    after == (AppState { cursor: after.cursor, sel: after.sel, ..before })
}

proof fn lemma_on_machine(app: AppState, mi: int)
    requires
        on_machine(app, mi),
    ensures
        under_cursor(app) == Some(SelView::Machine(app.machines@[mi].host@)),
        first_of_host(app, mi) ==> lookup(app.machines@, app.machines@[mi].host@) == Some(
            app.machines@[mi],
        ),
{
    if first_of_host(app, mi) {
        lemma_first_machine(app, mi);
    }
}

proof fn lemma_first_machine(app: AppState, mi: int)
    requires
        0 <= mi < app.machines@.len(),
        first_of_host(app, mi),
    ensures
        lookup(app.machines@, app.machines@[mi].host@) == Some(app.machines@[mi]),
{
    let host = app.machines@[mi].host@;
    assert forall|k: int| 0 <= k < mi implies #[trigger] app.machines@[k].named() != host by {
        assert(app.machines@[k].host@ != host);
    }
    lemma_position(app.machines@, host, mi);
}

proof fn lemma_on_forward(app: AppState, mi: int, fi: int)
    requires
        on_forward(app, mi, fi),
    ensures
        under_cursor(app) == Some(
            SelView::Forward(
                app.machines@[mi].host@,
                app.machines@[mi].forwards@[fi].name@,
            ),
        ),
{
}

/// The cursor goes one row down and up, round the ends; to the first and the
/// last row; and by a page or half a page, which stop at the ends. Nothing else
/// changes, and nothing is asked for.
pub proof fn law_how_the_cursor_moves(
    before: AppState,
    key: Key,
    ctrl: bool,
    after: AppState,
    effect: EffectView,
    at: int,
    n: int,
)
    requires
        before.mode is Normal,
        any_key(before, key, ctrl, after, effect),
        before.cursor is Some,
        before.cursor->0 == at,
        before.rows@.len() == n,
        at < n,
        ctrl ==> key == Key::Char('d') || key == Key::Char('u'),
        !ctrl ==> key == Key::Char('j') || key == Key::Down || key == Key::Char('k') || key
            == Key::Up || key == Key::Char('g') || key == Key::Home || key == Key::Char('G') || key
            == Key::End || key == Key::PageDown || key == Key::PageUp,
    ensures
        only_moved(before, after),
        effect == EffectView::Nothing,
        after.cursor is Some && after.cursor->0 < n,
        ({
            let to = after.cursor->0 as int;
            let page: int = if before.tree_visible == 0 {
                1
            } else {
                before.tree_visible as int
            };
            let half: int = if before.tree_visible < 2 {
                1
            } else {
                before.tree_visible as int / 2
            };
            &&& !ctrl && (key == Key::Char('j') || key == Key::Down) ==> to == (if at + 1 == n {
                0
            } else {
                at + 1
            })
            &&& !ctrl && (key == Key::Char('k') || key == Key::Up) ==> to == (if at == 0 {
                n - 1
            } else {
                at - 1
            })
            &&& !ctrl && (key == Key::Char('g') || key == Key::Home) ==> to == 0
            &&& !ctrl && (key == Key::Char('G') || key == Key::End) ==> to == n - 1
            &&& !ctrl && key == Key::PageDown ==> to == (if at + page >= n {
                n - 1
            } else {
                at + page
            })
            &&& !ctrl && key == Key::PageUp ==> to == (if at - page < 0 {
                0
            } else {
                at - page
            })
            &&& ctrl && key == Key::Char('d') ==> to == (if at + half >= n {
                n - 1
            } else {
                at + half
            })
            &&& ctrl && key == Key::Char('u') ==> to == (if at - half < 0 {
                0
            } else {
                at - half
            })
        }),
{
    vstd::arithmetic::div_mod::lemma_small_mod(at as nat, n as nat);
    if at + 1 < n {
        vstd::arithmetic::div_mod::lemma_small_mod((at + 1) as nat, n as nat);
    } else {
        vstd::arithmetic::div_mod::lemma_mod_self_0(n);
    }
}

/// What is selected after a move is what the row says.
pub proof fn law_the_selection_is_under_the_cursor(
    before: AppState,
    after: AppState,
    effect: EffectView,
    mi: int,
    fi: int,
)
    requires
        before.mode is Normal,
        any_key(before, Key::Down, false, after, effect) || any_key(
            before,
            Key::Up,
            false,
            after,
            effect,
        ) || any_key(before, Key::Home, false, after, effect),
        before.rows@.len() > 0,
    ensures
        on_machine(after, mi) ==> after.sel is Some && after.sel->0@ == SelView::Machine(
            after.machines@[mi].host@,
        ),
        on_forward(after, mi, fi) ==> after.sel is Some && after.sel->0@ == SelView::Forward(
            after.machines@[mi].host@,
            after.machines@[mi].forwards@[fi].name@,
        ),
{
}

/// Enter, Tab and space fold what is unfolded and unfold what is folded; Right
/// only unfolds, Left on a machine only folds. Each acts on the machine under
/// the cursor, or the one whose forward is, and leaves the others as they were.
pub proof fn law_folding_acts_on_one_machine(
    before: AppState,
    key: Key,
    after: AppState,
    effect: EffectView,
    mi: int,
    host: Seq<char>,
)
    requires
        before.mode is Normal,
        any_key(before, key, false, after, effect),
        on_machine(before, mi),
        key == Key::Enter || key == Key::Tab || key == Key::Char(' ') || key == Key::Right || key
            == Key::Left,
    ensures
        ({
            let mine = before.machines@[mi].host@;
            &&& after.machines == before.machines
            &&& effect == EffectView::Nothing
            &&& after.mode is Normal
            &&& host != mine ==> after.expanded@.contains(host) == before.expanded@.contains(host)
            &&& key == Key::Right ==> after.expanded@.contains(mine)
            &&& key == Key::Left ==> !after.expanded@.contains(mine)
            &&& key == Key::Enter || key == Key::Tab || key == Key::Char(' ')
                ==> after.expanded@.contains(mine) != before.expanded@.contains(mine)
        }),
{
    lemma_on_machine(before, mi);
}

/// The same keys on a forward fold and unfold its machine, but for Left, which
/// goes to the machine and folds nothing.
pub proof fn law_folding_from_a_forward(
    before: AppState,
    key: Key,
    after: AppState,
    effect: EffectView,
    mi: int,
    fi: int,
)
    requires
        before.mode is Normal,
        any_key(before, key, false, after, effect),
        on_forward(before, mi, fi),
        key == Key::Enter || key == Key::Tab || key == Key::Char(' ') || key == Key::Right || key
            == Key::Left,
    ensures
        ({
            let mine = before.machines@[mi].host@;
            &&& after.machines == before.machines
            &&& effect == EffectView::Nothing
            &&& key == Key::Right ==> after.expanded@.contains(mine)
            &&& key == Key::Left ==> after.expanded@ == before.expanded@
            &&& key == Key::Enter || key == Key::Tab || key == Key::Char(' ')
                ==> after.expanded@.contains(mine) != before.expanded@.contains(mine)
        }),
        key == Key::Left ==> sel_view(after.sel) == Some(
            SelView::Machine(before.machines@[mi].host@),
        ),
{
    lemma_on_forward(before, mi, fi);
    if key == Key::Left {
        let host = before.machines@[mi].host@;
        assert(before.machines@[mi].named() == host);
        assert(has_name(before.machines@, host));
        let machines = before.machines@;
        assert(before.machines.len() == machines.len());
        assert forall|k: int| 0 <= k < machines.len() implies (#[trigger] machines[k]).forwards@.len()
            <= usize::MAX by {
            assert(machines[k].forwards.len() == machines[k].forwards@.len());
        }
        law_the_cursor_follows_its_selection(
            machines,
            before.expanded@,
            SelView::Machine(host),
            after.cursor->0 as int,
        );
    }
}

/// `Z` folds everything.
pub proof fn law_everything_folds(
    before: AppState,
    after: AppState,
    effect: EffectView,
    host: Seq<char>,
)
    requires
        before.mode is Normal,
        any_key(before, Key::Char('Z'), false, after, effect),
    ensures
        !after.expanded@.contains(host),
        after.machines == before.machines,
        effect == EffectView::Nothing,
{
}

/// `a` opens an empty form for the machine under the cursor, whether on its own
/// row or on one of its forwards; `A` opens one that asks for the machine first.
pub proof fn law_the_form_knows_its_machine(
    before: AppState,
    key: Key,
    after: AppState,
    effect: EffectView,
    mi: int,
    fi: int,
)
    requires
        before.mode is Normal,
        any_key(before, key, false, after, effect),
        key == Key::Char('a') || key == Key::Char('n') || key == Key::Char('A') || key
            == Key::Char('N'),
    ensures
        key == Key::Char('A') || key == Key::Char('N') ==> after.mode is NewForward && after.input_asks_host
            && after.input_host@.len() == 0 && after.input_field == InputField::Host,
        (key == Key::Char('a') || key == Key::Char('n')) && (on_machine(before, mi) || on_forward(
            before,
            mi,
            fi,
        )) ==> after.mode is NewForward && !after.input_asks_host && after.input_host@
            == before.machines@[mi].host@ && after.input_field == InputField::LocalPort,
        after.mode is NewForward ==> after.input_local_port@.len() == 0
            && after.input_remote_port@.len() == 0 && after.input_name@.len() == 0,
        after.machines == before.machines && after.cursor == before.cursor && after.expanded
            == before.expanded,
        effect == EffectView::Nothing,
{
}

/// `x` and `d` ask before they stop: the forward under the cursor, or all of
/// those of the machine under it. On a machine that has none there is nothing to
/// ask.
pub proof fn law_stopping_asks_about_what_is_selected(
    before: AppState,
    key: Key,
    after: AppState,
    effect: EffectView,
    mi: int,
    fi: int,
)
    requires
        before.mode is Normal,
        any_key(before, key, false, after, effect),
        key == Key::Char('x') || key == Key::Char('d'),
    ensures
        effect == EffectView::Nothing,
        on_forward(before, mi, fi) ==> after.mode is Confirm && after.mode->Confirm_0@
            == ConfirmView::StopForward(before.machines@[mi].forwards@[fi].name@),
        on_machine(before, mi) && first_of_host(before, mi) ==> {
            let m = before.machines@[mi];
            &&& m.forwards@.len() > 0 ==> after.mode is Confirm && after.mode->Confirm_0@
                == ConfirmView::StopHost(m.host@, m.forwards@.len() as usize)
            &&& m.forwards@.len() == 0 ==> after.mode is Normal && after.status_message is Some
                && after.status_message->0@ == m.host@ + " has no forwards"@
        },
{
    if on_machine(before, mi) {
        lemma_on_machine(before, mi);
    }
}

/// `r` asks before it restarts the forward under the cursor, or reconnects the
/// machine under it. A machine without a session is not connected.
pub proof fn law_restarting_asks_about_what_is_selected(
    before: AppState,
    after: AppState,
    effect: EffectView,
    mi: int,
    fi: int,
)
    requires
        before.mode is Normal,
        any_key(before, Key::Char('r'), false, after, effect),
    ensures
        effect == EffectView::Nothing,
        on_forward(before, mi, fi) ==> after.mode is Confirm && after.mode->Confirm_0@
            == ConfirmView::RestartForward(before.machines@[mi].forwards@[fi].name@),
        on_machine(before, mi) && first_of_host(before, mi) ==> {
            let m = before.machines@[mi];
            &&& m.session is Some ==> after.mode is Confirm && after.mode->Confirm_0@
                == ConfirmView::RestartHost(m.host@)
            &&& m.session is None ==> after.mode is Normal && after.status_message is Some
                && after.status_message->0@ == m.host@ + " is not connected"@
        },
{
    if on_machine(before, mi) {
        lemma_on_machine(before, mi);
    }
}

/// A yes does what was asked about and nothing else; a no, or leaving, does
/// nothing.
pub proof fn law_a_yes_does_what_was_asked(
    before: AppState,
    key: Key,
    ctrl: bool,
    after: AppState,
    effect: EffectView,
)
    requires
        before.mode is Confirm,
        before.pending_actions < usize::MAX,
        any_key(before, key, ctrl, after, effect),
    ensures
        key == Key::Char('y') || key == Key::Char('Y') ==> {
            &&& after.mode is Normal
            &&& after.pending_actions == before.pending_actions + 1
            &&& after.machines == before.machines
            &&& match before.mode->Confirm_0 {
                ConfirmAction::StopForward(name) => effect == EffectView::Run(
                    WorkView::StopForward(name@),
                    None,
                ),
                ConfirmAction::StopHost(host, _) => effect == EffectView::Run(
                    WorkView::StopHost(host@),
                    None,
                ),
                ConfirmAction::RestartForward(name) => effect == EffectView::Run(
                    WorkView::RestartForward(name@),
                    None,
                ),
                ConfirmAction::RestartHost(host) => effect == EffectView::Run(
                    WorkView::RestartHost(host@),
                    None,
                ),
            }
        },
        key == Key::Char('n') || key == Key::Char('N') || key == Key::Esc ==> after == (AppState {
            mode: Mode::Normal,
            ..before
        }) && effect == EffectView::Nothing,
        key != Key::Char('y') && key != Key::Char('Y') ==> effect == EffectView::Nothing
            && after.pending_actions == before.pending_actions,
{
}

/// `l` shows the log of the machine under the cursor, or of the one whose
/// forward is, from its tail.
pub proof fn law_the_log_is_the_machines(
    before: AppState,
    after: AppState,
    effect: EffectView,
    mi: int,
    fi: int,
)
    requires
        before.mode is Normal,
        any_key(before, Key::Char('l'), false, after, effect),
        on_machine(before, mi) || on_forward(before, mi, fi),
    ensures
        after.mode is Logs,
        after.log_follow,
        after.log_name@ == before.machines@[mi].host@,
        effect == EffectView::LoadLogs(before.machines@[mi].host@),
{
}

/// `o` and `y` take the URL of the forward under the cursor: its local port on
/// this machine. On anything else there is none.
pub proof fn law_the_url_is_the_local_port(
    before: AppState,
    key: Key,
    after: AppState,
    effect: EffectView,
    mi: int,
    fi: int,
)
    requires
        before.mode is Normal,
        any_key(before, key, false, after, effect),
        key == Key::Char('o') || key == Key::Char('y'),
    ensures
        on_machine(before, mi) ==> effect == EffectView::Nothing && after.status_message is Some,
        on_forward(before, mi, fi) && first_of_host(before, mi) && (forall|k: int|
            0 <= k < fi ==> (#[trigger] before.machines@[mi].forwards@[k]).name@
                != before.machines@[mi].forwards@[fi].name@) ==> {
            let url = "http://localhost:"@ + decimal(
                before.machines@[mi].forwards@[fi].local_port as nat,
            );
            &&& key == Key::Char('o') ==> effect == EffectView::Open(url)
            &&& key == Key::Char('y') ==> effect == EffectView::Copy(url)
        },
        after.mode is Normal && after.machines == before.machines && after.cursor
            == before.cursor,
{
    if on_forward(before, mi, fi) && first_of_host(before, mi) && (forall|k: int|
        0 <= k < fi ==> (#[trigger] before.machines@[mi].forwards@[k]).name@
            != before.machines@[mi].forwards@[fi].name@) {
        lemma_on_forward(before, mi, fi);
        lemma_first_machine(before, mi);
        let fs = before.machines@[mi].forwards@;
        assert forall|k: int| 0 <= k < fi implies #[trigger] fs[k].named() != fs[fi].name@ by {
            assert(fs[k].name@ != fs[fi].name@);
        }
        lemma_position(fs, fs[fi].name@, fi);
    }
}

/// The remaining keys of the tree: `q` quits, `/` starts a filter, Esc drops
/// one, `m` lists the next kind of machines and saves that, `s` asks for the
/// profiles, and `?` shows help.
pub proof fn law_the_other_keys_of_the_tree(
    before: AppState,
    key: Key,
    after: AppState,
    effect: EffectView,
)
    requires
        before.mode is Normal,
        any_key(before, key, false, after, effect),
    ensures
        key == Key::Char('q') ==> after == (AppState { should_quit: true, ..before }) && effect
            == EffectView::Nothing,
        key == Key::Char('/') ==> after.mode is Filter && after.filter@.len() == 0 && effect
            == EffectView::Nothing,
        key == Key::Esc && before.filter@.len() > 0 ==> after.filter@.len() == 0 && after.mode
            is Normal && effect == EffectView::Refresh,
        key == Key::Esc && before.filter@.len() == 0 ==> after == before && effect
            == EffectView::Nothing,
        key == Key::Char('m') ==> effect == EffectView::SaveSource && match before.machine_source {
            MachineListMode::AllHosts => after.machine_source == MachineListMode::Configured,
            MachineListMode::Configured => after.machine_source == MachineListMode::Live,
            MachineListMode::Live => after.machine_source == MachineListMode::AllHosts,
        },
        key == Key::Char('s') ==> after == before && effect == EffectView::LoadProfiles,
        key == Key::Char('?') ==> after == (AppState { mode: Mode::Help, ..before }) && effect
            == EffectView::Nothing,
        after.should_quit && !before.should_quit ==> key == Key::Char('q'),
        key != Key::Char('m') ==> after.machine_source == before.machine_source,
        key != Key::Char('/') && key != Key::Esc ==> after.filter == before.filter,
{
}

/// A forward that was typed in starts on the machine of the form, between the
/// ports of the form. An empty remote port mirrors the local one, and an empty
/// name is made of machine and port. The cursor will follow it.
pub proof fn law_a_form_starts_what_it_says(
    before: AppState,
    after: AppState,
    effect: EffectView,
    host: Seq<char>,
    local: u16,
    remote: u16,
    name: Seq<char>,
)
    requires
        before.mode is NewForward,
        before.input_field == InputField::Name,
        before.pending_actions < usize::MAX,
        any_key(before, Key::Enter, false, after, effect),
        host.len() > 0,
        trimmed(before.input_host@) == host,
        trimmed(before.input_local_port@) == decimal(local as nat),
        trimmed(before.input_remote_port@) == decimal(remote as nat) || (trimmed(
            before.input_remote_port@,
        ).len() == 0 && remote == local),
        name.len() > 0,
        trimmed(before.input_name@) == name || (trimmed(before.input_name@).len() == 0 && name
            == host + "-"@ + decimal(local as nat)),
    ensures
        effect == EffectView::Run(WorkView::Start(host, name, local, remote), Some((host, name))),
        after.mode is Normal,
        after.pending_actions == before.pending_actions + 1,
        after.pending_label is Some && after.pending_label->0@ == "Starting "@ + name + "…"@,
        after.machines == before.machines,
{
    law_a_number_is_read_back(local as nat);
    law_a_number_is_read_back(remote as nat);
}

/// A form without a machine, or with a port that is no number, starts nothing,
/// stays open, and says what is wrong.
pub proof fn law_a_bad_form_starts_nothing(
    before: AppState,
    after: AppState,
    effect: EffectView,
)
    requires
        before.mode is NewForward,
        before.input_field == InputField::Name,
        any_key(before, Key::Enter, false, after, effect),
        trimmed(before.input_host@).len() == 0 || port_number(
            trimmed(before.input_local_port@),
        ) is None || (trimmed(before.input_remote_port@).len() > 0 && port_number(
            trimmed(before.input_remote_port@),
        ) is None),
    ensures
        effect == EffectView::Nothing,
        after.mode is NewForward,
        after.status_message is Some,
        after.pending_actions == before.pending_actions,
        trimmed(before.input_host@).len() == 0 ==> after.input_field == InputField::Host
            && after.status_message->0@ == "Host is required"@,
{
}

/// What is typed into a form goes into the field that is active, and into no
/// other; Backspace takes its last character away; Esc leaves the form.
pub proof fn law_typing_goes_into_the_active_field(
    before: AppState,
    key: Key,
    ctrl: bool,
    after: AppState,
    effect: EffectView,
)
    requires
        before.mode is NewForward,
        any_key(before, key, ctrl, after, effect),
        key is Char || key == Key::Backspace || key == Key::Esc,
    ensures
        effect == EffectView::Nothing,
        key == Key::Esc ==> after == (AppState { mode: Mode::Normal, ..before }),
        key != Key::Esc ==> after.mode is NewForward && after.input_field == before.input_field,
        before.input_field != InputField::Host ==> after.input_host == before.input_host,
        before.input_field != InputField::LocalPort ==> after.input_local_port
            == before.input_local_port,
        before.input_field != InputField::RemotePort ==> after.input_remote_port
            == before.input_remote_port,
        before.input_field != InputField::Name ==> after.input_name == before.input_name,
        ({
            let was = match before.input_field {
                InputField::Host => before.input_host@,
                InputField::LocalPort => before.input_local_port@,
                InputField::RemotePort => before.input_remote_port@,
                InputField::Name => before.input_name@,
            };
            let is = match before.input_field {
                InputField::Host => after.input_host@,
                InputField::LocalPort => after.input_local_port@,
                InputField::RemotePort => after.input_remote_port@,
                InputField::Name => after.input_name@,
            };
            &&& key is Char ==> is == was.push(key->Char_0)
            &&& key == Key::Backspace && was.len() > 0 ==> is == was.drop_last()
            &&& key == Key::Backspace && was.len() == 0 ==> is.len() == 0
        }),
{
}

/// Tab and Enter go from the host, where it is asked for, to the local port, the
/// remote port and the name; Tab goes on to the first again, and BackTab the
/// other way round.
pub proof fn law_the_order_of_the_fields(
    before: AppState,
    key: Key,
    after: AppState,
    effect: EffectView,
)
    requires
        before.mode is NewForward,
        any_key(before, key, false, after, effect),
        key == Key::Tab || key == Key::BackTab || (key == Key::Enter && before.input_field
            != InputField::Name),
        before.input_field == InputField::Host ==> before.input_asks_host,
    ensures
        effect == EffectView::Nothing,
        after == (AppState { input_field: after.input_field, ..before }),
        key != Key::BackTab ==> after.input_field == (match before.input_field {
            InputField::Host => InputField::LocalPort,
            InputField::LocalPort => InputField::RemotePort,
            InputField::RemotePort => InputField::Name,
            InputField::Name => if before.input_asks_host {
                InputField::Host
            } else {
                InputField::LocalPort
            },
        }),
        key == Key::BackTab ==> after.input_field == (match before.input_field {
            InputField::Host => InputField::Name,
            InputField::LocalPort => if before.input_asks_host {
                InputField::Host
            } else {
                InputField::Name
            },
            InputField::RemotePort => InputField::LocalPort,
            InputField::Name => InputField::RemotePort,
        }),
{
    let fields = fields_of(before.input_asks_host);
    let place = field_place(before.input_asks_host, before.input_field);
    if before.input_asks_host {
        assert(fields.len() == 4);
        assert((place + 1) % 4 == (if place == 3 {
            0
        } else {
            place + 1
        }));
        assert((place + 3) % 4 == (if place == 0 {
            3
        } else {
            place - 1
        }));
    } else {
        assert(fields.len() == 3);
        assert((place + 1) % 3 == (if place == 2 {
            0
        } else {
            place + 1
        }));
        assert((place + 2) % 3 == (if place == 0 {
            2
        } else {
            place - 1
        }));
    }
}

/// Letters go into the filter, Backspace takes the last one away, and either
/// narrows or widens the list at once. The arrows walk the matches, Enter keeps
/// the filter, and Esc drops it.
pub proof fn law_typing_a_filter(
    before: AppState,
    key: Key,
    ctrl: bool,
    after: AppState,
    effect: EffectView,
)
    requires
        before.mode is Filter,
        any_key(before, key, ctrl, after, effect),
    ensures
        key is Char ==> after.filter@ == before.filter@.push(key->Char_0) && effect
            == EffectView::Refresh && after.mode is Filter,
        key == Key::Backspace && before.filter@.len() > 0 ==> after.filter@
            == before.filter@.drop_last() && effect == EffectView::Refresh && after.mode is Filter,
        key == Key::Enter ==> after == (AppState { mode: Mode::Normal, ..before }) && effect
            == EffectView::Nothing,
        key == Key::Esc ==> after.filter@.len() == 0 && after.mode is Normal && effect
            == EffectView::Refresh,
        key == Key::Down || key == Key::Up ==> only_moved(before, after) && effect
            == EffectView::Nothing,
        after.machines == before.machines && after.expanded == before.expanded
            && after.machine_source == before.machine_source,
{
}

/// In the log, going up by a line or a page stops following it, and going down
/// to the tail follows it again. The top and the tail are one key away. Esc
/// closes it.
pub proof fn law_reading_the_log(before: AppState, key: Key, after: AppState, effect: EffectView)
    requires
        before.mode is Logs,
        any_key(before, key, false, after, effect),
    ensures
        effect == EffectView::Nothing,
        after.log_lines == before.log_lines && after.machines == before.machines,
        ({
            let page: int = if before.log_visible == 0 {
                1
            } else {
                before.log_visible as int
            };
            let tail: int = if before.log_lines@.len() > before.log_visible {
                before.log_lines@.len() - before.log_visible
            } else {
                0
            };
            let up = |n: int|
                if before.log_scroll > n {
                    before.log_scroll - n
                } else {
                    0
                };
            let down = |n: int|
                if before.log_scroll + n > tail {
                    tail
                } else {
                    before.log_scroll + n
                };
            &&& key == Key::Esc ==> after == (AppState { mode: Mode::Normal, ..before })
            &&& key == Key::Char('q') ==> after == (AppState { should_quit: true, ..before })
            &&& key == Key::Char('k') || key == Key::Up ==> after.log_scroll == up(1)
                && !after.log_follow
            &&& key == Key::PageUp ==> after.log_scroll == up(page) && !after.log_follow
            &&& before.log_lines@.len() <= usize::MAX && (key == Key::Char('j') || key == Key::Down)
                ==> after.log_scroll == down(1) && (after.log_scroll == tail ==> after.log_follow)
            &&& before.log_lines@.len() <= usize::MAX && key == Key::PageDown ==> after.log_scroll
                == down(page) && (after.log_scroll == tail ==> after.log_follow)
            &&& key == Key::Char('g') || key == Key::Home ==> after.log_scroll == 0
                && !after.log_follow
            &&& before.log_lines@.len() <= usize::MAX && (key == Key::Char('G') || key == Key::End)
                ==> after.log_scroll == tail && after.log_follow
        }),
{
}

/// Picking a profile starts it as it was saved, on its own machine and between
/// its own ports, and the cursor will follow it there.
pub proof fn law_a_picked_profile_is_started(
    before: AppState,
    key: Key,
    ctrl: bool,
    after: AppState,
    effect: EffectView,
    at: int,
)
    requires
        before.mode is ProfilePicker,
        before.pending_actions < usize::MAX,
        any_key(before, key, ctrl, after, effect),
        before.profile_cursor is Some,
        before.profile_cursor->0 == at,
        at < before.profiles@.len(),
    ensures
        key == Key::Enter ==> {
            let (name, profile) = before.profiles@[at];
            &&& effect == EffectView::Run(
                WorkView::StartProfile(
                    name@,
                    profile.host@,
                    profile.local_port,
                    profile.remote_port,
                ),
                Some((profile.host@, name@)),
            )
            &&& after.mode is Normal
            &&& after.pending_actions == before.pending_actions + 1
        },
        key == Key::Esc ==> after == (AppState { mode: Mode::Normal, ..before }) && effect
            == EffectView::Nothing,
        key == Key::Char('j') || key == Key::Down ==> after.profile_cursor is Some
            && after.profile_cursor->0 == (if at + 1 == before.profiles@.len() {
            0
        } else {
            at + 1
        }) && effect == EffectView::Nothing,
        key == Key::Char('k') || key == Key::Up ==> after.profile_cursor is Some
            && after.profile_cursor->0 == (if at == 0 {
            before.profiles@.len() - 1
        } else {
            at - 1
        }) && effect == EffectView::Nothing,
        after.profiles == before.profiles,
{
    let n = before.profiles@.len() as int;
    if at + 1 < n {
        vstd::arithmetic::div_mod::lemma_small_mod((at + 1) as nat, n as nat);
    } else {
        vstd::arithmetic::div_mod::lemma_mod_self_0(n);
    }
}

/// Profiles that were loaded are offered from the first one on; where there are
/// none, that is said, and the tree stays.
pub proof fn law_profiles_are_offered(
    before: AppState,
    profiles: Vec<(String, Profile)>,
    after: AppState,
)
    requires
        picking(before, Some(profiles), after),
    ensures
        after.profiles == profiles,
        profiles@.len() > 0 ==> after.mode is ProfilePicker && after.profile_cursor == Some(0usize),
        profiles@.len() == 0 ==> after.mode == before.mode && after.status_message is Some
            && after.status_message->0@ == "No saved profiles"@,
        after.machines == before.machines && after.cursor == before.cursor,
{
}

/// ctrl-c leaves at once from wherever it is pressed, and nothing else does.
/// Any other key first clears the message in the bar, unless a filter is typed.
pub proof fn law_ctrl_c_leaves(
    before: AppState,
    key: Key,
    ctrl: bool,
    after: AppState,
    effect: EffectView,
)
    requires
        pressed(before, key, ctrl, after, effect),
    ensures
        effect == EffectView::Quit <==> ctrl && key == Key::Char('c'),
        effect == EffectView::Quit ==> after == before,
        before.mode is Help && effect != EffectView::Quit ==> after == (AppState {
            mode: Mode::Normal,
            status_message: None,
            ..before
        }),
        before.mode is Filter && key is Char && effect != EffectView::Quit ==> after.status_message
            == before.status_message,
{
}

/// The dashboard waits for a key until its second is over, and looks ten times
/// as often while work is in flight.
pub proof fn law_how_long_a_key_is_waited_for(since_tick: u64, pending: usize, ms: u64)
    requires
        call_ensures(key_timeout, (since_tick, pending), ms),
    ensures
        since_tick >= 1000 ==> ms == 0,
        since_tick < 1000 && pending == 0 ==> ms == 1000 - since_tick,
        since_tick < 1000 && pending > 0 ==> ms == (if 1000 - since_tick > 100 {
            100
        } else {
            1000 - since_tick
        }),
{
}

/// Work, effects and questions are seen as what they are.
pub proof fn law_effects_are_seen_as_what_they_are(w: Work, e: Effect, a: ConfirmAction)
    ensures
        match w {
            Work::Start(h, n, l, r) => w@ == WorkView::Start(h@, n@, l, r),
            Work::StartProfile(n, h, l, r) => w@ == WorkView::StartProfile(n@, h@, l, r),
            Work::StopForward(n) => w@ == WorkView::StopForward(n@),
            Work::StopHost(h) => w@ == WorkView::StopHost(h@),
            Work::RestartForward(n) => w@ == WorkView::RestartForward(n@),
            Work::RestartHost(h) => w@ == WorkView::RestartHost(h@),
        },
        match e {
            Effect::Nothing => e@ == EffectView::Nothing,
            Effect::Quit => e@ == EffectView::Quit,
            Effect::Refresh => e@ == EffectView::Refresh,
            Effect::SaveSource => e@ == EffectView::SaveSource,
            Effect::LoadLogs(h) => e@ == EffectView::LoadLogs(h@),
            Effect::LoadProfiles => e@ == EffectView::LoadProfiles,
            Effect::Open(u) => e@ == EffectView::Open(u@),
            Effect::Copy(t) => e@ == EffectView::Copy(t@),
            Effect::Run(x, follow) => e@ is Run && e@->Run_0 == x@ && (follow is Some) == (
            e@->Run_1 is Some) && (follow is Some ==> e@->Run_1->0 == (
                (follow->0).0@,
                (follow->0).1@,
            )),
        },
        match a {
            ConfirmAction::StopForward(n) => a@ == ConfirmView::StopForward(n@),
            ConfirmAction::StopHost(h, n) => a@ == ConfirmView::StopHost(h@, n),
            ConfirmAction::RestartForward(n) => a@ == ConfirmView::RestartForward(n@),
            ConfirmAction::RestartHost(h) => a@ == ConfirmView::RestartHost(h@),
        },
{
}

/// Copying changes nothing but the message, which says what was copied, or why
/// nothing was.
pub proof fn law_copying_is_told_of(
    before: AppState,
    text: Seq<char>,
    outcome: Result<(), String>,
    after: AppState,
)
    requires
        copy_told(before, text, outcome, after),
    ensures
        after.status_message is Some,
        outcome is Ok ==> after.status_message->0@ == "Copied "@ + text,
        outcome is Err ==> after.status_message->0@ == "Failed to copy: "@ + outcome->Err_0@,
        after.mode == before.mode && after.machines == before.machines && after.cursor
            == before.cursor && after.pending_actions == before.pending_actions,
{
}

/// Keys that mean nothing do nothing, whatever is shown.
pub proof fn law_other_keys_do_nothing(
    before: AppState,
    key: Key,
    ctrl: bool,
    after: AppState,
    effect: EffectView,
)
    requires
        any_key(before, key, ctrl, after, effect),
        match before.mode {
            Mode::Normal => if ctrl {
                key != Key::Char('d') && key != Key::Char('u')
            } else {
                key == Key::Other || key == Key::BackTab || key == Key::Backspace || (key is Char
                    && key->Char_0 != 'q' && key->Char_0 != 'j' && key->Char_0 != 'k'
                    && key->Char_0 != 'g' && key->Char_0 != 'G' && key->Char_0 != ' '
                    && key->Char_0 != 'Z' && key->Char_0 != '/' && key->Char_0 != 'm'
                    && key->Char_0 != '?' && key->Char_0 != 'a' && key->Char_0 != 'n'
                    && key->Char_0 != 'A' && key->Char_0 != 'N' && key->Char_0 != 'x'
                    && key->Char_0 != 'd' && key->Char_0 != 'r' && key->Char_0 != 'l'
                    && key->Char_0 != 's' && key->Char_0 != 'o' && key->Char_0 != 'y')
            },
            Mode::Confirm(_) => key != Key::Char('y') && key != Key::Char('Y') && key
                != Key::Char('n') && key != Key::Char('N') && key != Key::Esc,
            Mode::Logs => key == Key::Other || key == Key::Left || key == Key::Right || key
                == Key::Enter || key == Key::Tab,
            Mode::ProfilePicker => key == Key::Other || key == Key::Left || key == Key::Right || key
                == Key::Tab,
            Mode::Filter => key == Key::Other || key == Key::Left || key == Key::Right || key
                == Key::Tab,
            Mode::NewForward => key == Key::Other || key == Key::Left || key == Key::Right || key
                == Key::Up || key == Key::Down,
            Mode::Help => false,
        },
    ensures
        after == before,
        effect == EffectView::Nothing,
{
}

}
