//! What the dashboard holds: the tree and its cursor, the log viewer, the form,
//! and the actions in flight.

use crate::config::Profile;
use crate::hosts::HostSet;
use crate::names::{distinct_names, find_named, has_name, lookup, Named};
use crate::order::{sort_stably, sorted};
use crate::session::types::SessionState;
use crate::ssh_hosts::lemma_sorted_set;
use crate::text::{concat2, views};
use crate::tui::tree::{
    build_machines, default_expanded, flatten, gathered, law_a_host_is_listed_once,
    law_the_cursor_follows_its_selection, lemma_kept_is_out, lists, live_hosts, resolve,
    resolves_to, sel_at, sel_view, selected_at, session_rows, tree_of, tree_rows, visible,
    MachineListMode, MachineRow, Row, Sel, SelView,
};
use vstd::prelude::*;
use vstd::string::*;

verus! {

/// What keys mean at the moment.
#[derive(Debug, PartialEq, Eq)]
pub enum Mode {
    Normal,
    Logs,
    NewForward,
    ProfilePicker,
    Filter,
    Confirm(ConfirmAction),
    /// The full key list; the one-line menu only has room for the essentials.
    Help,
}

/// An action that waits for a yes or a no.
#[derive(Debug, PartialEq, Eq)]
pub enum ConfirmAction {
    /// Stop one forward.
    StopForward(String),
    /// Stop every forward on a host, taking the session down.
    StopHost(String, usize),
    RestartForward(String),
    /// Drop the master and let it reconnect.
    RestartHost(String),
}

impl Clone for ConfirmAction {
    fn clone(&self) -> (r: Self)
        ensures
            r == *self,
    {
        match self {
            ConfirmAction::StopForward(name) => ConfirmAction::StopForward(name.clone()),
            ConfirmAction::StopHost(host, n) => ConfirmAction::StopHost(host.clone(), *n),
            ConfirmAction::RestartForward(name) => ConfirmAction::RestartForward(name.clone()),
            ConfirmAction::RestartHost(host) => ConfirmAction::RestartHost(host.clone()),
        }
    }
}

impl Clone for Mode {
    fn clone(&self) -> (r: Self)
        ensures
            r == *self,
    {
        match self {
            Mode::Normal => Mode::Normal,
            Mode::Logs => Mode::Logs,
            Mode::NewForward => Mode::NewForward,
            Mode::ProfilePicker => Mode::ProfilePicker,
            Mode::Filter => Mode::Filter,
            Mode::Confirm(action) => Mode::Confirm(action.clone()),
            Mode::Help => Mode::Help,
        }
    }
}

/// A field of the form. `a` on a machine row already knows the host, so the form
/// skips that field; `A` connects to a machine that is not listed, and then it
/// is the field that matters most.
#[derive(Debug, Clone, Copy, PartialEq, Eq, Structural)]
pub enum InputField {
    Host,
    LocalPort,
    RemotePort,
    Name,
}

impl InputField {
    /// What the form calls the field.
    pub open spec fn name(self) -> Seq<char> {
        match self {
            InputField::Host => "Host"@,
            InputField::LocalPort => "Local Port"@,
            InputField::RemotePort => "Remote Port"@,
            InputField::Name => "Name"@,
        }
    }

    /// What the form calls the field.
    pub fn label(&self) -> (out: &'static str)
        ensures
            out@ == self.name(),
    {
        match self {
            InputField::Host => "Host",
            InputField::LocalPort => "Local Port",
            InputField::RemotePort => "Remote Port",
            InputField::Name => "Name",
        }
    }
}

/// Everything the dashboard knows.
#[derive(Debug)]
pub struct AppState {
    pub mode: Mode,
    pub machines: Vec<MachineRow>,
    pub rows: Vec<Row>,
    /// Hosts whose forwards are shown.
    pub expanded: HostSet,
    /// The row under the cursor.
    pub cursor: Option<usize>,
    /// Identity-keyed selection, so a refresh cannot fling the cursor around.
    pub sel: Option<Sel>,
    pub machine_source: MachineListMode,
    pub filter: String,
    /// Rows the tree viewport held at the last render; the paging distance.
    pub tree_visible: usize,
    /// True until the first refresh, which seeds the fold state.
    pub first_refresh: bool,
    pub profiles: Vec<(String, Profile)>,
    pub profile_cursor: Option<usize>,
    pub should_quit: bool,
    pub log_lines: Vec<String>,
    pub log_scroll: usize,
    pub log_name: String,
    /// Pinned to the tail, `tail -f` style, until the user scrolls up.
    pub log_follow: bool,
    /// Lines the log viewport held at the last render.
    pub log_visible: usize,
    pub input_field: InputField,
    /// The machine `a` was pressed on, or free text when `A` asked for one.
    pub input_host: String,
    /// Whether the form includes the Host field at all.
    pub input_asks_host: bool,
    pub input_local_port: String,
    pub input_remote_port: String,
    pub input_name: String,
    pub ssh_hosts: Vec<String>,
    pub status_message: Option<String>,
    /// Actions that run in the background and have not reported back.
    pub pending_actions: usize,
    /// What the most recent action in flight is doing.
    pub pending_label: Option<String>,
}

/// The row under the cursor, or the first.
pub open spec fn cursor_row(app: AppState) -> int {
    match app.cursor {
        Some(i) => i as int,
        None => 0,
    }
}

/// What the cursor stands on.
pub open spec fn under_cursor(app: AppState) -> Option<SelView> {
    selected_at(app.rows@, app.machines@, cursor_row(app))
}

/// `after` is `before` with the cursor on row `idx`.
pub open spec fn moved_to(before: AppState, idx: int, after: AppState) -> bool {
    &&& after == (AppState { cursor: after.cursor, sel: after.sel, ..before })
    &&& after.cursor is Some
    &&& after.cursor->0 == idx
    &&& sel_view(after.sel) == selected_at(before.rows@, before.machines@, idx)
}

/// `after` is `before` with the cursor moved by `delta` rows, pinned to the ends
/// of the list; nothing moves in an empty list.
pub open spec fn moved_by(before: AppState, delta: int, after: AppState) -> bool {
    let last = before.rows@.len() - 1;
    let target = cursor_row(before) + delta;
    if before.rows@.len() == 0 {
        after == before
    } else {
        moved_to(
            before,
            if target < 0 {
                0
            } else if target > last {
                last
            } else {
                target
            },
            after,
        )
    }
}

/// One row down, from the last to the first.
pub open spec fn moved_down(before: AppState, after: AppState) -> bool {
    if before.rows@.len() == 0 {
        after == before
    } else {
        moved_to(before, (cursor_row(before) + 1) % (before.rows@.len() as int), after)
    }
}

/// One row up, from the first to the last.
pub open spec fn moved_up(before: AppState, after: AppState) -> bool {
    if before.rows@.len() == 0 {
        after == before
    } else if cursor_row(before) == 0 {
        moved_to(before, before.rows@.len() - 1, after)
    } else {
        moved_to(before, cursor_row(before) - 1, after)
    }
}

/// `after` is `before` with its rows derived anew, and the cursor on what was
/// selected.
pub open spec fn rebuilt(before: AppState, after: AppState) -> bool {
    &&& after == (AppState { rows: after.rows, cursor: after.cursor, sel: after.sel, ..before })
    &&& after.rows@ == tree_rows(before.machines@, before.expanded@)
    &&& after.cursor is Some
    &&& match before.sel {
        Some(sel) => resolves_to(
            after.rows@,
            before.machines@,
            sel@,
            after.cursor->0 as int,
        ),
        None => after.cursor->0 == 0,
    }
    &&& sel_view(after.sel) == selected_at(
        after.rows@,
        before.machines@,
        after.cursor->0 as int,
    )
}

/// The set with `host` in it if it was not, and without it if it was.
pub open spec fn toggled(set: Set<Seq<char>>, host: Seq<char>) -> Set<Seq<char>> {
    if set.contains(host) {
        set.remove(host)
    } else {
        set.insert(host)
    }
}

/// `after` is `before` with the machine under the cursor folded or unfolded.
pub open spec fn folded(before: AppState, after: AppState) -> bool {
    match under_cursor(before) {
        None => after == before,
        Some(sel) => {
            &&& after.expanded@ == toggled(before.expanded@, sel.host())
            &&& rebuilt(AppState { expanded: after.expanded, ..before }, after)
        },
    }
}

/// `after` is `before` with the machine under the cursor unfolded.
pub open spec fn unfolded(before: AppState, after: AppState) -> bool {
    match under_cursor(before) {
        None => after == before,
        Some(sel) => {
            &&& after.expanded@ == before.expanded@.insert(sel.host())
            &&& rebuilt(AppState { expanded: after.expanded, ..before }, after)
        },
    }
}

/// `after` is `before` with the machine under the cursor folded, or with the
/// cursor on the machine of the forward under it.
pub open spec fn collapsed(before: AppState, after: AppState) -> bool {
    match under_cursor(before) {
        None => after == before,
        Some(SelView::Forward(host, _)) => exists|sel: Sel|
            #![trigger sel@]
            sel@ == SelView::Machine(host) && rebuilt(
                AppState { sel: Some(sel), ..before },
                after,
            ),
        Some(SelView::Machine(host)) => {
            &&& after.expanded@ == before.expanded@.remove(host)
            &&& rebuilt(AppState { expanded: after.expanded, ..before }, after)
        },
    }
}

/// `after` is `before` with everything folded, and the cursor on the machine it
/// was at.
pub open spec fn all_collapsed(before: AppState, after: AppState) -> bool {
    &&& after.expanded@ == Set::<Seq<char>>::empty()
    &&& match under_cursor(before) {
        None => rebuilt(AppState { expanded: after.expanded, ..before }, after),
        Some(at) => exists|sel: Sel|
            #![trigger sel@]
            sel@ == SelView::Machine(at.host()) && rebuilt(
                AppState { expanded: after.expanded, sel: Some(sel), ..before },
                after,
            ),
    }
}

/// `hosts` are the hosts of the profiles, in order and each once.
pub open spec fn hosts_of(profiles: Seq<(String, Profile)>, hosts: Seq<String>) -> bool {
    &&& sorted(hosts)
    &&& distinct_names(hosts)
    &&& forall|h: Seq<char>| #[trigger]
        has_name(hosts, h) == exists|i: int|
            0 <= i < profiles.len() && (#[trigger] profiles[i]).1.host@ == h
}

/// The hosts that have come up: a session, and something to show.
pub open spec fn busy_hosts(machines: Seq<MachineRow>) -> Set<Seq<char>> {
    Set::new(
        |h: Seq<char>|
            exists|i: int|
                0 <= i < machines.len() && (#[trigger] machines[i]).session is Some
                    && machines[i].forwards@.len() > 0 && machines[i].host@ == h,
    )
}

/// `after` is `before` with its tree built anew from `sessions`. The first time
/// everything live is unfolded; later, what has come up unfolds by itself.
pub open spec fn refreshed(
    before: AppState,
    sessions: Seq<SessionState>,
    after: AppState,
) -> bool {
    &&& exists|hosts: Seq<String>|
        #[trigger] hosts_of(before.profiles@, hosts) && tree_of(
            views(sessions),
            views(hosts),
            views(before.ssh_hosts@),
            before.machine_source,
            before.filter@,
            after.machines@,
        )
    &&& after.expanded@ == (if before.first_refresh {
        live_hosts(after.machines@)
    } else {
        before.expanded@.union(busy_hosts(after.machines@))
    })
    &&& rebuilt(
        AppState {
            machines: after.machines,
            expanded: after.expanded,
            first_refresh: false,
            ..before
        },
        after,
    )
}

/// `after` is `before` with the selection on a forward, wherever it landed.
pub open spec fn followed(
    before: AppState,
    host: Seq<char>,
    name: Seq<char>,
    after: AppState,
) -> bool {
    &&& after.expanded@ == before.expanded@.insert(host)
    &&& exists|sel: Sel|
        #![trigger sel@]
        sel@ == SelView::Forward(host, name) && rebuilt(
            AppState { expanded: after.expanded, sel: Some(sel), ..before },
            after,
        )
}

/// The furthest the log can scroll: tail line at the bottom of the view.
pub open spec fn max_scroll(app: AppState) -> int {
    if app.log_lines@.len() > app.log_visible {
        app.log_lines@.len() - app.log_visible
    } else {
        0
    }
}

/// Where the log stands once it shows `lines`: at the tail while following, and
/// where the reader was otherwise, as far as there are lines.
pub open spec fn reloaded(before: AppState, lines: Vec<String>, after: AppState) -> bool {
    let loaded = AppState { log_lines: lines, ..before };
    let most = max_scroll(loaded);
    &&& after == (AppState { log_scroll: after.log_scroll, ..loaded })
    &&& after.log_scroll == (if before.log_follow || before.log_scroll > most {
        most
    } else {
        before.log_scroll as int
    })
}

/// Scrolling up is what breaks tail-following.
pub open spec fn scrolled_up(before: AppState, n: int) -> AppState {
    AppState {
        log_follow: false,
        log_scroll: (if before.log_scroll > n {
            before.log_scroll - n
        } else {
            0
        }) as usize,
        ..before
    }
}

/// Reaching the bottom resumes it.
pub open spec fn scrolled_down(before: AppState, n: int) -> AppState {
    let most = max_scroll(before);
    let at = if before.log_scroll + n > most {
        most
    } else {
        before.log_scroll + n
    };
    AppState { log_scroll: at as usize, log_follow: before.log_follow || at == most, ..before }
}

/// The fields a form shows, in tab order.
pub open spec fn fields_of(asks_host: bool) -> Seq<InputField> {
    if asks_host {
        seq![
            InputField::Host,
            InputField::LocalPort,
            InputField::RemotePort,
            InputField::Name,
        ]
    } else {
        seq![InputField::LocalPort, InputField::RemotePort, InputField::Name]
    }
}

/// Place of a field in the tab order, or the first one's.
pub open spec fn field_place(asks_host: bool, field: InputField) -> int {
    let skipped: int = if asks_host {
        0
    } else {
        1
    };
    match field {
        InputField::Host => 0,
        InputField::LocalPort => 1 - skipped,
        InputField::RemotePort => 2 - skipped,
        InputField::Name => 3 - skipped,
    }
}

/// The field after `field`, from the last to the first.
pub open spec fn field_after(asks_host: bool, field: InputField) -> InputField {
    let fields = fields_of(asks_host);
    fields[(field_place(asks_host, field) + 1) % (fields.len() as int)]
}

/// The field before `field`, from the first to the last.
pub open spec fn field_before(asks_host: bool, field: InputField) -> InputField {
    let fields = fields_of(asks_host);
    fields[(field_place(asks_host, field) + fields.len() - 1) % (fields.len() as int)]
}

/// The text of the field that is being typed into.
pub open spec fn typed(app: AppState) -> String {
    match app.input_field {
        InputField::Host => app.input_host,
        InputField::LocalPort => app.input_local_port,
        InputField::RemotePort => app.input_remote_port,
        InputField::Name => app.input_name,
    }
}

/// `app` with `text` in the field that is being typed into.
pub open spec fn with_typed(app: AppState, text: String) -> AppState {
    match app.input_field {
        InputField::Host => AppState { input_host: text, ..app },
        InputField::LocalPort => AppState { input_local_port: text, ..app },
        InputField::RemotePort => AppState { input_remote_port: text, ..app },
        InputField::Name => AppState { input_name: text, ..app },
    }
}

/// `after` is `before` with an empty form for `host`, or one that asks for it.
pub open spec fn form_opened(before: AppState, host: Option<String>, after: AppState) -> bool {
    &&& after == (AppState {
        mode: Mode::NewForward,
        input_host: after.input_host,
        input_asks_host: host is None,
        input_field: if host is None {
            InputField::Host
        } else {
            InputField::LocalPort
        },
        input_local_port: after.input_local_port,
        input_remote_port: after.input_remote_port,
        input_name: after.input_name,
        ..before
    })
    &&& match host {
        Some(h) => after.input_host == h,
        None => after.input_host@.len() == 0,
    }
    &&& after.input_local_port@.len() == 0
    &&& after.input_remote_port@.len() == 0
    &&& after.input_name@.len() == 0
}

/// `after` is `before` with `message` in the status bar.
pub open spec fn told(before: AppState, message: Seq<char>, after: AppState) -> bool {
    &&& after == (AppState { status_message: after.status_message, ..before })
    &&& after.status_message is Some
    &&& after.status_message->0@ == message
}

/// `after` is `before` once an action reported back with `message`: the tree is
/// built anew, and the cursor is on the forward that the action made.
pub open spec fn heard(
    before: AppState,
    message: String,
    follow: Option<(String, String)>,
    sessions: Seq<SessionState>,
    after: AppState,
) -> bool {
    let done = AppState {
        pending_actions: (if before.pending_actions > 0 {
            before.pending_actions - 1
        } else {
            0
        }) as usize,
        status_message: Some(message),
        ..before
    };
    match follow {
        None => refreshed(done, sessions, after),
        Some((host, name)) => exists|mid: AppState|
            refreshed(done, sessions, mid) && #[trigger] followed(mid, host@, name@, after),
    }
}

/// The dashboard after it looked for finished work, and found `any` or none.
pub open spec fn polled(before: AppState, any: bool) -> AppState {
    if any && before.pending_actions == 0 {
        AppState { pending_label: None, ..before }
    } else {
        before
    }
}

impl AppState {
    /// A dashboard that has not read anything yet.
    pub fn new(ssh_hosts: Vec<String>, machine_source: MachineListMode) -> (app: Self)
        ensures
            app.mode == Mode::Normal,
            app.machines@.len() == 0,
            app.rows@.len() == 0,
            app.expanded@ == Set::<Seq<char>>::empty(),
            app.cursor == Some(0usize),
            app.sel is None,
            app.machine_source == machine_source,
            app.filter@.len() == 0,
            app.tree_visible == 20,
            app.first_refresh,
            app.profiles@.len() == 0,
            app.profile_cursor == Some(0usize),
            !app.should_quit,
            app.log_lines@.len() == 0,
            app.log_scroll == 0,
            app.log_name@.len() == 0,
            app.log_follow,
            app.log_visible == 20,
            app.input_field == InputField::LocalPort,
            !app.input_asks_host,
            app.input_host@.len() == 0,
            app.input_local_port@.len() == 0,
            app.input_remote_port@.len() == 0,
            app.input_name@.len() == 0,
            app.ssh_hosts == ssh_hosts,
            app.status_message is None,
            app.pending_actions == 0,
            app.pending_label is None,
    {
        AppState {
            mode: Mode::Normal,
            machines: Vec::new(),
            rows: Vec::new(),
            expanded: HostSet::new(),
            cursor: Some(0),
            sel: None,
            machine_source,
            filter: String::new(),
            tree_visible: 20,
            first_refresh: true,
            profiles: Vec::new(),
            profile_cursor: Some(0),
            should_quit: false,
            log_lines: Vec::new(),
            log_scroll: 0,
            log_name: String::new(),
            log_follow: true,
            log_visible: 20,
            input_field: InputField::LocalPort,
            input_host: String::new(),
            input_asks_host: false,
            input_local_port: String::new(),
            input_remote_port: String::new(),
            input_name: String::new(),
            ssh_hosts,
            status_message: None,
            pending_actions: 0,
            pending_label: None,
        }
    }

    /// Note that an action went off, which `label` describes.
    pub fn run_action(&mut self, label: String)
        requires
            old(self).pending_actions < usize::MAX,
        ensures
            *final(self) == (AppState {
                pending_actions: (old(self).pending_actions + 1) as usize,
                pending_label: Some(label),
                ..*old(self)
            }),
    {
        self.pending_actions = self.pending_actions + 1;
        self.pending_label = Some(label);
    }

    /// Take in the outcome of an action, with the sessions as they are now, and
    /// point the cursor at the forward that it made, if it made one.
    pub fn action_done(
        &mut self,
        message: String,
        follow: Option<(String, String)>,
        sessions: Vec<SessionState>,
    )
        ensures
            heard(*old(self), message, follow, sessions@, *final(self)),
    {
        self.pending_actions = self.pending_actions.saturating_sub(1);
        self.status_message = Some(message);
        self.refresh(sessions);
        let ghost mid = *self;
        match follow {
            Some((host, name)) => {
                self.select_forward(host.as_str(), name.as_str());
                assert(followed(mid, host@, name@, *self));
            },
            None => {},
        }
    }

    /// Once nothing is in flight any more, say so.
    pub fn actions_polled(&mut self, any: bool)
        ensures
            *final(self) == polled(*old(self), any),
    {
        if any && self.pending_actions == 0 {
            self.pending_label = None;
        }
    }

    /// The row under the cursor.
    pub fn selected(&self) -> (i: usize)
        ensures
            i == cursor_row(*self),
    {
        match self.cursor {
            Some(i) => i,
            None => 0,
        }
    }

    /// Put the cursor on a row.
    pub fn select(&mut self, idx: usize)
        ensures
            moved_to(*old(self), idx as int, *final(self)),
    {
        self.cursor = Some(idx);
        self.sel = sel_at(self.rows.as_slice(), self.machines.as_slice(), idx);
    }

    /// One row down, from the last to the first.
    pub fn select_next(&mut self)
        ensures
            moved_down(*old(self), *final(self)),
    {
        let n: usize = self.rows.len();
        if n == 0 {
            return;
        }
        let at: usize = self.selected();
        let next: usize = if at % n == n - 1 {
            0
        } else {
            at % n + 1
        };
        proof {
            lemma_next(at as int, n as int);
        }
        self.select(next);
    }

    /// One row up, from the first to the last.
    pub fn select_prev(&mut self)
        ensures
            moved_up(*old(self), *final(self)),
    {
        let n: usize = self.rows.len();
        if n == 0 {
            return;
        }
        let at: usize = self.selected();
        let prev: usize = if at == 0 {
            n - 1
        } else {
            at - 1
        };
        self.select(prev);
    }

    /// Page down, pinned to the end. Wrap-around is fine one row at a time but
    /// disorienting on a page jump.
    pub fn page_down(&mut self, rows: usize)
        ensures
            moved_by(*old(self), rows as int, *final(self)),
    {
        let n: usize = self.rows.len();
        if n == 0 {
            return;
        }
        let target: usize = self.selected().saturating_add(rows);
        let last: usize = n - 1;
        self.select(
            if target > last {
                last
            } else {
                target
            },
        );
    }

    /// Page up, pinned to the top.
    pub fn page_up(&mut self, rows: usize)
        ensures
            moved_by(*old(self), -(rows as int), *final(self)),
    {
        let n: usize = self.rows.len();
        if n == 0 {
            return;
        }
        let target: usize = self.selected().saturating_sub(rows);
        let last: usize = n - 1;
        self.select(
            if target > last {
                last
            } else {
                target
            },
        );
    }

    /// Jump or page by `delta` rows, pinning to the ends.
    pub fn select_by(&mut self, delta: isize)
        ensures
            moved_by(*old(self), delta as int, *final(self)),
    {
        if delta >= 0 {
            self.page_down(delta as usize);
        } else {
            let back: usize = (-(delta + 1)) as usize;
            self.page_up(back + 1);
        }
    }

    /// To the first row.
    pub fn select_first(&mut self)
        ensures
            if old(self).rows@.len() == 0 {
                *final(self) == *old(self)
            } else {
                moved_to(*old(self), 0, *final(self))
            },
    {
        if self.rows.len() > 0 {
            self.select(0);
        }
    }

    /// To the last row.
    pub fn select_last(&mut self)
        ensures
            if old(self).rows@.len() == 0 {
                *final(self) == *old(self)
            } else {
                moved_to(*old(self), old(self).rows@.len() - 1, *final(self))
            },
    {
        if self.rows.len() > 0 {
            let last: usize = self.rows.len() - 1;
            self.select(last);
        }
    }

    /// What the cursor stands on.
    pub fn selected_sel(&self) -> (r: Option<Sel>)
        ensures
            sel_view(r) == under_cursor(*self),
    {
        sel_at(self.rows.as_slice(), self.machines.as_slice(), self.selected())
    }

    /// The machine under the cursor, whichever row kind is selected.
    pub fn selected_machine(&self) -> (r: Option<&MachineRow>)
        ensures
            match under_cursor(*self) {
                None => r is None,
                Some(sel) => match r {
                    Some(m) => lookup(self.machines@, sel.host()) == Some(*m),
                    None => !has_name(self.machines@, sel.host()),
                },
            },
    {
        match self.selected_sel() {
            None => None,
            Some(sel) => match find_named(self.machines.as_slice(), sel.host()) {
                Some(i) => Some(&self.machines[i]),
                None => None,
            },
        }
    }

    /// Re-derive the flat rows and re-find the selection by identity.
    pub fn rebuild_rows(&mut self)
        ensures
            rebuilt(*old(self), *final(self)),
    {
        self.rows = flatten(self.machines.as_slice(), &self.expanded);
        let idx: usize = match &self.sel {
            Some(sel) => resolve(self.rows.as_slice(), self.machines.as_slice(), sel),
            None => 0,
        };
        self.cursor = Some(idx);
        self.sel = sel_at(self.rows.as_slice(), self.machines.as_slice(), idx);
    }

    /// Fold or unfold the machine under the cursor.
    pub fn toggle_expand(&mut self)
        ensures
            folded(*old(self), *final(self)),
    {
        match self.selected_sel() {
            None => {},
            Some(sel) => {
                if self.expanded.contains(sel.host()) {
                    self.expanded.remove(sel.host());
                } else {
                    self.expanded.insert(sel.host().to_owned());
                }
                self.rebuild_rows();
            },
        }
    }

    /// Unfold the machine under the cursor.
    pub fn expand_selected(&mut self)
        ensures
            unfolded(*old(self), *final(self)),
    {
        match self.selected_sel() {
            None => {},
            Some(sel) => {
                self.expanded.insert(sel.host().to_owned());
                self.rebuild_rows();
            },
        }
    }

    /// Collapse the machine, or jump to the parent machine from a forward row.
    pub fn collapse_selected(&mut self)
        ensures
            collapsed(*old(self), *final(self)),
    {
        match self.selected_sel() {
            None => {},
            Some(Sel::Forward(host, _)) => {
                let sel = Sel::Machine(host);
                let ghost at = sel;
                self.sel = Some(sel);
                self.rebuild_rows();
                assert(at@ == SelView::Machine(host@));
            },
            Some(Sel::Machine(host)) => {
                self.expanded.remove(host.as_str());
                self.rebuild_rows();
            },
        }
    }

    /// Collapse every machine.
    pub fn collapse_all(&mut self)
        ensures
            all_collapsed(*old(self), *final(self)),
    {
        let at = self.selected_sel();
        self.expanded.clear();
        match at {
            Some(found) => {
                let sel = Sel::Machine(found.host().to_owned());
                let ghost to = sel;
                self.sel = Some(sel);
                self.rebuild_rows();
                assert(to@ == SelView::Machine(found@.host()));
            },
            None => {
                self.rebuild_rows();
            },
        }
    }

    /// Cycle which machines are listed. The tree is refreshed afterwards.
    pub fn cycle_machine_source(&mut self)
        ensures
            told(
                AppState { machine_source: old(self).machine_source.next(), ..*old(self) },
                "Showing "@ + old(self).machine_source.next().name(),
                *final(self),
            ),
    {
        self.machine_source = self.machine_source.cycle();
        self.status_message = Some(concat2("Showing ", self.machine_source.label()));
    }

    /// Rebuild the whole tree from the sessions that were found.
    pub fn refresh(&mut self, sessions: Vec<SessionState>)
        ensures
            refreshed(*old(self), sessions@, *final(self)),
    {
        let ghost given = sessions@;
        let hosts = profile_hosts(&self.profiles);
        self.machines = build_machines(
            sessions,
            hosts.as_slice(),
            self.ssh_hosts.as_slice(),
            self.machine_source,
            self.filter.as_str(),
        );
        if self.first_refresh {
            self.expanded = default_expanded(self.machines.as_slice());
            self.first_refresh = false;
        } else {
            // A machine that has come up since the last refresh opens itself, so
            // starting a forward shows it rather than hiding it in a fold.
            unfold_busy(&self.machines, &mut self.expanded);
        }
        assert(hosts_of(old(self).profiles@, hosts@));
        self.rebuild_rows();
    }

    /// Take in the saved profiles.
    pub fn refresh_profiles(&mut self, profiles: Vec<(String, Profile)>)
        ensures
            *final(self) == (AppState { profiles, ..*old(self) }),
    {
        self.profiles = profiles;
    }

    /// The profile under the cursor.
    pub fn profile_selected(&self) -> (i: usize)
        ensures
            i == (match self.profile_cursor {
                Some(i) => i as int,
                None => 0,
            }),
    {
        match self.profile_cursor {
            Some(i) => i,
            None => 0,
        }
    }

    /// Put the cursor on a profile.
    pub fn select_profile(&mut self, idx: usize)
        ensures
            *final(self) == (AppState { profile_cursor: Some(idx), ..*old(self) }),
    {
        self.profile_cursor = Some(idx);
    }

    /// The next profile, from the last to the first.
    pub fn select_next_profile(&mut self)
        ensures
            profile_moved(*old(self), 1, *final(self)),
    {
        let n: usize = self.profiles.len();
        if n == 0 {
            return;
        }
        let at: usize = self.profile_selected();
        let next: usize = if at % n == n - 1 {
            0
        } else {
            at % n + 1
        };
        proof {
            lemma_next(at as int, n as int);
        }
        self.select_profile(next);
    }

    /// The profile before, from the first to the last.
    pub fn select_prev_profile(&mut self)
        ensures
            profile_moved(*old(self), -1, *final(self)),
    {
        let n: usize = self.profiles.len();
        if n == 0 {
            return;
        }
        let at: usize = self.profile_selected();
        let prev: usize = if at == 0 {
            n - 1
        } else {
            at - 1
        };
        self.select_profile(prev);
    }

    /// Point the selection at a forward by name, wherever it landed.
    pub fn select_forward(&mut self, host: &str, name: &str)
        ensures
            followed(*old(self), host@, name@, *final(self)),
    {
        self.expanded.insert(host.to_owned());
        let sel = Sel::Forward(host.to_owned(), name.to_owned());
        let ghost at = sel;
        self.sel = Some(sel);
        self.rebuild_rows();
        assert(at@ == SelView::Forward(host@, name@));
    }

    /// `a`: add a forward to the machine under the cursor.
    pub fn open_new_forward_form(&mut self, host: String)
        ensures
            form_opened(*old(self), Some(host), *final(self)),
    {
        self.input_host = host;
        self.input_asks_host = false;
        self.input_field = InputField::LocalPort;
        self.clear_form();
    }

    /// `A`: connect to a machine that is not in the list. Free text, because the
    /// whole point is that this host is outside the set we could complete
    /// against.
    pub fn open_new_machine_form(&mut self)
        ensures
            form_opened(*old(self), None, *final(self)),
    {
        self.input_host = String::new();
        self.input_asks_host = true;
        self.input_field = InputField::Host;
        self.clear_form();
    }

    fn clear_form(&mut self)
        ensures
            *final(self) == (AppState {
                mode: Mode::NewForward,
                input_local_port: final(self).input_local_port,
                input_remote_port: final(self).input_remote_port,
                input_name: final(self).input_name,
                ..*old(self)
            }),
            final(self).input_local_port@.len() == 0,
            final(self).input_remote_port@.len() == 0,
            final(self).input_name@.len() == 0,
    {
        self.input_local_port = String::new();
        self.input_remote_port = String::new();
        self.input_name = String::new();
        self.mode = Mode::NewForward;
    }

    /// The fields this form actually shows, in tab order.
    pub fn form_fields(&self) -> (fields: Vec<InputField>)
        ensures
            fields@ == fields_of(self.input_asks_host),
    {
        let mut fields: Vec<InputField> = Vec::new();
        if self.input_asks_host {
            fields.push(InputField::Host);
        }
        fields.push(InputField::LocalPort);
        fields.push(InputField::RemotePort);
        fields.push(InputField::Name);
        assert(fields@ =~= fields_of(self.input_asks_host));
        fields
    }

    fn field_index(&self) -> (i: usize)
        ensures
            i == field_place(self.input_asks_host, self.input_field),
            i < fields_of(self.input_asks_host).len(),
    {
        let skipped: usize = if self.input_asks_host {
            0
        } else {
            1
        };
        match self.input_field {
            InputField::Host => 0,
            InputField::LocalPort => 1 - skipped,
            InputField::RemotePort => 2 - skipped,
            InputField::Name => 3 - skipped,
        }
    }

    /// To the next field, from the last to the first.
    pub fn next_field(&mut self)
        ensures
            *final(self) == (AppState {
                input_field: field_after(old(self).input_asks_host, old(self).input_field),
                ..*old(self)
            }),
    {
        let fields = self.form_fields();
        let i: usize = self.field_index();
        self.input_field = fields[(i + 1) % fields.len()];
    }

    /// To the field before, from the first to the last.
    pub fn prev_field(&mut self)
        ensures
            *final(self) == (AppState {
                input_field: field_before(old(self).input_asks_host, old(self).input_field),
                ..*old(self)
            }),
    {
        let fields = self.form_fields();
        let i: usize = self.field_index();
        self.input_field = fields[(i + fields.len() - 1) % fields.len()];
    }

    /// True when the cursor is on the last field, so Enter submits.
    pub fn on_last_field(&self) -> (r: bool)
        ensures
            r == (self.input_field == fields_of(self.input_asks_host).last()),
    {
        matches!(self.input_field, InputField::Name)
    }

    /// The text of the field that is being typed into.
    pub fn current_input(&mut self) -> (r: &mut String)
        ensures
            *r == typed(*old(self)),
            *final(self) == with_typed(*old(self), *final(r)),
    {
        match self.input_field {
            InputField::Host => &mut self.input_host,
            InputField::LocalPort => &mut self.input_local_port,
            InputField::RemotePort => &mut self.input_remote_port,
            InputField::Name => &mut self.input_name,
        }
    }

    fn log_max_scroll(&self) -> (n: usize)
        ensures
            n == max_scroll(*self),
    {
        self.log_lines.len().saturating_sub(self.log_visible)
    }

    /// Replace the log content, `tail -f` style: pinned to the tail while
    /// following, and holding the reader's place once they have scrolled up.
    pub fn set_log_lines(&mut self, lines: Vec<String>)
        ensures
            reloaded(*old(self), lines, *final(self)),
    {
        self.log_lines = lines;
        let most: usize = self.log_max_scroll();
        if self.log_follow || self.log_scroll > most {
            self.log_scroll = most;
        }
    }

    /// Scrolling up is what breaks tail-following.
    pub fn log_scroll_up(&mut self, n: usize)
        ensures
            *final(self) == scrolled_up(*old(self), n as int),
    {
        self.log_follow = false;
        self.log_scroll = self.log_scroll.saturating_sub(n);
    }

    /// Reaching the bottom resumes it.
    pub fn log_scroll_down(&mut self, n: usize)
        ensures
            *final(self) == scrolled_down(*old(self), n as int),
    {
        let most: usize = self.log_max_scroll();
        let at: usize = self.log_scroll.saturating_add(n);
        self.log_scroll = if at > most {
            most
        } else {
            at
        };
        if self.log_scroll == most {
            self.log_follow = true;
        }
    }

    /// To the first line of the log.
    pub fn log_to_top(&mut self)
        ensures
            *final(self) == (AppState { log_follow: false, log_scroll: 0, ..*old(self) }),
    {
        self.log_follow = false;
        self.log_scroll = 0;
    }

    /// To the tail of the log.
    pub fn log_to_bottom(&mut self)
        ensures
            *final(self) == (AppState {
                log_follow: true,
                log_scroll: max_scroll(*old(self)) as usize,
                ..*old(self)
            }),
    {
        self.log_follow = true;
        self.log_scroll = self.log_max_scroll();
    }

    /// `l`: enter the log viewer at the tail. The log of `host` is loaded
    /// afterwards.
    pub fn open_logs(&mut self, host: &str)
        ensures
            *final(self) == (AppState {
                log_follow: true,
                log_name: final(self).log_name,
                mode: Mode::Logs,
                ..*old(self)
            }),
            final(self).log_name@ == host@,
    {
        self.log_follow = true;
        self.log_name = host.to_owned();
        self.mode = Mode::Logs;
    }
}

/// The cursor over profiles, one step up or down.
pub open spec fn profile_moved(before: AppState, step: int, after: AppState) -> bool {
    let n = before.profiles@.len() as int;
    let at = match before.profile_cursor {
        Some(i) => i as int,
        None => 0,
    };
    if n == 0 {
        after == before
    } else {
        &&& after == (AppState { profile_cursor: after.profile_cursor, ..before })
        &&& after.profile_cursor is Some
        &&& after.profile_cursor->0 == (if step > 0 {
            (at + 1) % n
        } else if at == 0 {
            n - 1
        } else {
            at - 1
        })
    }
}

proof fn lemma_next(at: int, n: int)
    requires
        at >= 0,
        n > 0,
    ensures
        (at + 1) % n == (if at % n == n - 1 {
            0
        } else {
            at % n + 1
        }),
{
    vstd::arithmetic::div_mod::lemma_add_mod_noop(at, 1, n);
    if n == 1 {
    } else if at % n == n - 1 {
        assert((at % n + 1int % n) % n == 0) by {
            vstd::arithmetic::div_mod::lemma_mod_self_0(n);
            vstd::arithmetic::div_mod::lemma_small_mod(1, n as nat);
        }
    } else {
        vstd::arithmetic::div_mod::lemma_small_mod(1, n as nat);
        vstd::arithmetic::div_mod::lemma_small_mod((at % n + 1) as nat, n as nat);
    }
}

/// Steps to either side of a place in a ring.
proof fn lemma_wrap(i: int, n: int)
    requires
        0 <= i < n,
    ensures
        (i + 1) % n == (if i == n - 1 {
            0
        } else {
            i + 1
        }),
        (i + n - 1) % n == (if i == 0 {
            n - 1
        } else {
            i - 1
        }),
{
    vstd::arithmetic::div_mod::lemma_small_mod(i as nat, n as nat);
    lemma_next(i, n);
    if i == 0 {
        vstd::arithmetic::div_mod::lemma_small_mod((n - 1) as nat, n as nat);
    } else {
        vstd::arithmetic::div_mod::lemma_small_mod((i - 1) as nat, n as nat);
        vstd::arithmetic::div_mod::lemma_mod_add_multiples_vanish(i - 1, n);
    }
}

/// The hosts of the profiles, in order and each once.
fn profile_hosts(profiles: &Vec<(String, Profile)>) -> (out: Vec<String>)
    ensures
        hosts_of(profiles@, out@),
{
    let mut hosts = HostSet::new();
    let mut i: usize = 0;
    while i < profiles.len()
        invariant
            i <= profiles@.len(),
            hosts.well_formed(),
            forall|h: Seq<char>| #[trigger]
                hosts@.contains(h) == exists|k: int|
                    0 <= k < i && (#[trigger] profiles@[k]).1.host@ == h,
        decreases profiles@.len() - i,
    {
        let ghost before = hosts@;
        hosts.insert(profiles[i].1.host.clone());
        proof {
            assert forall|h: Seq<char>| #[trigger]
                hosts@.contains(h) == exists|k: int|
                    0 <= k < i + 1 && (#[trigger] profiles@[k]).1.host@ == h by {
                assert(before.contains(h) == exists|k: int|
                    0 <= k < i && (#[trigger] profiles@[k]).1.host@ == h);
                if hosts@.contains(h) {
                    if before.contains(h) {
                        let k = choose|k: int|
                            0 <= k < i && (#[trigger] profiles@[k]).1.host@ == h;
                        assert(profiles@[k].1.host@ == h);
                    } else {
                        assert(profiles@[i as int].1.host@ == h);
                    }
                }
            }
        }
        i += 1;
    }
    let mut out = hosts.hosts;
    let ghost list = out@;
    proof {
        assert forall|h: Seq<char>| #[trigger]
            has_name(list, h) == exists|k: int|
                0 <= k < profiles@.len() && (#[trigger] profiles@[k]).1.host@ == h by {
            assert(hosts@.contains(h) == has_name(list, h));
        }
    }
    sort_stably(&mut out);
    proof {
        lemma_sorted_set(list, out@);
    }
    out
}

/// Unfold every machine that has come up.
fn unfold_busy(machines: &Vec<MachineRow>, expanded: &mut HostSet)
    ensures
        final(expanded)@ == old(expanded)@.union(busy_hosts(machines@)),
{
    let mut i: usize = 0;
    assert(expanded@ =~= old(expanded)@.union(busy_hosts(machines@.take(0))));
    while i < machines.len()
        invariant
            i <= machines@.len(),
            expanded@ == old(expanded)@.union(busy_hosts(machines@.take(i as int))),
        decreases machines@.len() - i,
    {
        let ghost before = expanded@;
        let machine = &machines[i];
        if machine.is_live() && machine.forwards.len() > 0 {
            expanded.insert(machine.host.clone());
        }
        proof {
            let (a, b) = (machines@.take(i as int), machines@.take(i + 1));
            assert forall|h: Seq<char>| #[trigger]
                busy_hosts(b).contains(h) == (busy_hosts(a).contains(h) || (machine.session is Some
                    && machine.forwards@.len() > 0 && machine.host@ == h)) by {
                if busy_hosts(b).contains(h) {
                    let k = choose|k: int|
                        0 <= k < b.len() && (#[trigger] b[k]).session is Some
                            && b[k].forwards@.len() > 0 && b[k].host@ == h;
                    if k < i {
                        assert(a[k].session is Some);
                    }
                }
                if busy_hosts(a).contains(h) {
                    let k = choose|k: int|
                        0 <= k < a.len() && (#[trigger] a[k]).session is Some
                            && a[k].forwards@.len() > 0 && a[k].host@ == h;
                    assert(b[k].session is Some);
                }
                assert(b[i as int] == *machine);
            }
            assert(expanded@ =~= old(expanded)@.union(busy_hosts(b)));
        }
        i += 1;
    }
    assert(machines@.take(i as int) =~= machines@);
}

/// A log that is followed stays at its tail however it grows or shrinks.
pub proof fn law_a_followed_log_shows_its_tail(
    before: AppState,
    lines: Vec<String>,
    after: AppState,
)
    requires
        before.log_follow,
        reloaded(before, lines, after),
    ensures
        after.log_scroll == max_scroll(after),
        after.log_follow,
{
}

/// Once a reader has scrolled up, a reload does not move them, as long as the
/// line they are at still exists.
pub proof fn law_a_reload_keeps_the_readers_place(
    before: AppState,
    n: int,
    lines: Vec<String>,
    after: AppState,
)
    requires
        0 <= n,
        reloaded(scrolled_up(before, n), lines, after),
        scrolled_up(before, n).log_scroll <= max_scroll(after),
    ensures
        after.log_scroll == scrolled_up(before, n).log_scroll,
        !after.log_follow,
{
}

/// Scrolling back down to the tail resumes following it.
pub proof fn law_returning_to_the_tail_resumes_following(before: AppState, n: int)
    requires
        before.log_scroll == max_scroll(before),
        0 <= n,
    ensures
        scrolled_down(scrolled_up(before, n), n).log_follow,
        scrolled_down(scrolled_up(before, n), n).log_scroll == max_scroll(before),
{
}

/// Tabbing forward and back again ends where it started.
pub proof fn law_tabbing_back_undoes_tabbing(asks_host: bool, field: InputField)
    requires
        fields_of(asks_host).contains(field),
    ensures
        field_before(asks_host, field_after(asks_host, field)) == field,
        field_after(asks_host, field_before(asks_host, field)) == field,
{
    let fields = fields_of(asks_host);
    let i = choose|i: int| 0 <= i < fields.len() && fields[i] == field;
    assert(field_place(asks_host, field) == i);
    let n = fields.len() as int;
    lemma_wrap(i, n);
    let after = if i == n - 1 {
        0
    } else {
        i + 1
    };
    let before = if i == 0 {
        n - 1
    } else {
        i - 1
    };
    assert(field_place(asks_host, fields[after]) == after);
    assert(field_place(asks_host, fields[before]) == before);
    lemma_wrap(after, n);
    lemma_wrap(before, n);
}

/// Going down and up again ends on the same row, also across the ends.
pub proof fn law_moving_up_undoes_moving_down(before: AppState, down: AppState, up: AppState)
    requires
        cursor_row(before) < before.rows@.len(),
        moved_down(before, down),
        moved_up(down, up),
    ensures
        cursor_row(up) == cursor_row(before),
{
    let (at, n) = (cursor_row(before), before.rows@.len() as int);
    lemma_next(at, n);
    vstd::arithmetic::div_mod::lemma_small_mod(at as nat, n as nat);
}

/// A refresh leaves the cursor on what it stood on, wherever that has moved, for
/// as long as the tree still shows it; otherwise it goes to its machine.
pub proof fn law_a_refresh_keeps_the_selection(
    before: AppState,
    sessions: Seq<SessionState>,
    after: AppState,
)
    requires
        before.sel is Some,
        refreshed(before, sessions, after),
    ensures
        visible(after.machines@, after.expanded@, before.sel->0@) ==> sel_view(after.sel) == Some(
            before.sel->0@,
        ),
        !visible(after.machines@, after.expanded@, before.sel->0@) && has_name(
            after.machines@,
            before.sel->0@.host(),
        ) ==> sel_view(after.sel) == Some(SelView::Machine(before.sel->0@.host())),
{
    let machines = after.machines@;
    assert(after.machines.len() == machines.len());
    assert forall|mi: int| 0 <= mi < machines.len() implies (#[trigger] machines[mi]).forwards@.len()
        <= usize::MAX by {
        assert(machines[mi].forwards.len() == machines[mi].forwards@.len());
    }
    law_the_cursor_follows_its_selection(
        machines,
        after.expanded@,
        before.sel->0@,
        after.cursor->0 as int,
    );
}

/// A forward that was just started is unfolded and under the cursor, if its
/// session shows it.
pub proof fn law_a_started_forward_is_selected(
    before: AppState,
    host: Seq<char>,
    name: Seq<char>,
    after: AppState,
)
    requires
        followed(before, host, name, after),
    ensures
        after.expanded@.contains(host),
        visible(after.machines@, after.expanded@, SelView::Forward(host, name)) ==> sel_view(
            after.sel,
        ) == Some(SelView::Forward(host, name)),
{
    let machines = after.machines@;
    assert(after.machines.len() == machines.len());
    assert forall|mi: int| 0 <= mi < machines.len() implies (#[trigger] machines[mi]).forwards@.len()
        <= usize::MAX by {
        assert(machines[mi].forwards.len() == machines[mi].forwards@.len());
    }
    law_the_cursor_follows_its_selection(
        machines,
        after.expanded@,
        SelView::Forward(host, name),
        after.cursor->0 as int,
    );
}

/// A refresh builds the tree anew and leaves everything else as it was, what is
/// typed and shown included. A machine that was unfolded stays so.
pub proof fn law_a_refresh_rebuilds_only_the_tree(
    before: AppState,
    sessions: Seq<SessionState>,
    after: AppState,
    host: Seq<char>,
)
    requires
        refreshed(before, sessions, after),
    ensures
        after.mode == before.mode,
        after.filter == before.filter,
        after.machine_source == before.machine_source,
        after.profiles == before.profiles,
        after.log_lines == before.log_lines && after.log_scroll == before.log_scroll
            && after.log_follow == before.log_follow,
        after.input_host == before.input_host && after.input_name == before.input_name
            && after.input_local_port == before.input_local_port && after.input_remote_port
            == before.input_remote_port && after.input_field == before.input_field,
        after.status_message == before.status_message,
        after.pending_actions == before.pending_actions,
        !after.first_refresh,
        !before.first_refresh && before.expanded@.contains(host) ==> after.expanded@.contains(host),
        after.rows@ == tree_rows(after.machines@, after.expanded@),
{
}

/// What has come up unfolds by itself: a machine with a session and a forward.
/// The first time every machine with a session does, and no other; later one
/// that was folded and has nothing to show stays folded.
pub proof fn law_what_comes_up_unfolds(
    before: AppState,
    sessions: Seq<SessionState>,
    after: AppState,
    mi: int,
)
    requires
        refreshed(before, sessions, after),
        0 <= mi < after.machines@.len(),
        forall|k: int|
            0 <= k < after.machines@.len() && k != mi ==> (#[trigger] after.machines@[k]).host@
                != after.machines@[mi].host@,
    ensures
        ({
            let m = after.machines@[mi];
            &&& before.first_refresh ==> (after.expanded@.contains(m.host@) <==> m.session is Some)
            &&& !before.first_refresh ==> (after.expanded@.contains(m.host@)
                <==> before.expanded@.contains(m.host@) || (m.session is Some
                && m.forwards@.len() > 0))
        }),
{
    let h = after.machines@[mi].host@;
    if live_hosts(after.machines@).contains(h) {
        let k = choose|k: int|
            0 <= k < after.machines@.len() && (#[trigger] after.machines@[k]).session is Some
                && after.machines@[k].host@ == h;
        assert(k == mi);
    }
    if busy_hosts(after.machines@).contains(h) {
        let k = choose|k: int|
            0 <= k < after.machines@.len() && (#[trigger] after.machines@[k]).session is Some
                && after.machines@[k].forwards@.len() > 0 && after.machines@[k].host@ == h;
        assert(k == mi);
    }
    assert(after.machines@[mi].session is Some || after.machines@[mi].session is None);
}

/// Work that reports back is no longer in flight, its message is shown, and the
/// forward that it made is under the cursor, on an unfolded machine, where the
/// tree shows it.
pub proof fn law_finished_work_is_told_of(
    before: AppState,
    message: String,
    follow: Option<(String, String)>,
    sessions: Seq<SessionState>,
    after: AppState,
)
    requires
        heard(before, message, follow, sessions, after),
    ensures
        after.status_message == Some(message),
        before.pending_actions > 0 ==> after.pending_actions == before.pending_actions - 1,
        before.pending_actions == 0 ==> after.pending_actions == 0,
        after.mode == before.mode,
        after.pending_label == before.pending_label,
        follow is Some ==> after.expanded@.contains((follow->0).0@) && (visible(
            after.machines@,
            after.expanded@,
            SelView::Forward((follow->0).0@, (follow->0).1@),
        ) ==> sel_view(after.sel) == Some(
            SelView::Forward((follow->0).0@, (follow->0).1@),
        )),
{
    if follow is Some {
        let (host, name) = follow->0;
        let done = AppState {
            pending_actions: (if before.pending_actions > 0 {
                before.pending_actions - 1
            } else {
                0
            }) as usize,
            status_message: Some(message),
            ..before
        };
        let mid = choose|mid: AppState|
            refreshed(done, sessions, mid) && #[trigger] followed(mid, host@, name@, after);
        law_a_started_forward_is_selected(mid, host@, name@, after);
    }
}

/// The bar stops telling of work in flight exactly when the last of it has
/// reported back.
pub proof fn law_the_bar_forgets_finished_work(before: AppState, any: bool)
    ensures
        any && before.pending_actions == 0 ==> polled(before, any).pending_label is None,
        !any || before.pending_actions > 0 ==> polled(before, any) == before,
        polled(before, any).pending_actions == before.pending_actions,
        polled(before, any).status_message == before.status_message,
        polled(before, any).machines == before.machines,
{
}

/// A reload shows the lines that were read. While the log is followed its last
/// line is at the bottom; otherwise the reader stays, as far as there are lines.
pub proof fn law_a_reload_shows_what_was_read(
    before: AppState,
    lines: Vec<String>,
    after: AppState,
)
    requires
        reloaded(before, lines, after),
    ensures
        after.log_lines == lines,
        after.log_follow == before.log_follow,
        after.mode == before.mode,
        ({
            let tail: int = if lines@.len() > before.log_visible {
                lines@.len() - before.log_visible
            } else {
                0
            };
            after.log_scroll == (if before.log_follow || before.log_scroll > tail {
                tail
            } else {
                before.log_scroll as int
            })
        }),
{
}

/// A dashboard opens on the tree, with nothing read, typed, filtered or in
/// flight, for the hosts and the kind of list that it was given.
pub proof fn law_how_a_dashboard_opens(
    hosts: Vec<String>,
    source: MachineListMode,
    app: AppState,
)
    requires
        call_ensures(AppState::new, (hosts, source), app),
    ensures
        app.mode is Normal,
        app.ssh_hosts == hosts,
        app.machine_source == source,
        app.first_refresh,
        app.filter@.len() == 0,
        app.machines@.len() == 0 && app.rows@.len() == 0,
        app.pending_actions == 0 && app.pending_label is None && app.status_message is None,
        !app.should_quit,
        app.log_follow,
{
}

/// What the fields of the form are called.
pub proof fn law_the_fields_have_names(field: InputField, out: &'static str)
    requires
        call_ensures(InputField::label, (&field,), out),
    ensures
        field == InputField::Host ==> out@ == "Host"@,
        field == InputField::LocalPort ==> out@ == "Local Port"@,
        field == InputField::RemotePort ==> out@ == "Remote Port"@,
        field == InputField::Name ==> out@ == "Name"@,
{
}

/// A refresh lists every machine that the mode asks for, when no filter hides
/// any: those with a session, those of profiles, and those of ssh's
/// configuration.
pub proof fn law_a_refresh_lists_every_machine(
    before: AppState,
    sessions: Seq<SessionState>,
    after: AppState,
    i: int,
)
    requires
        refreshed(before, sessions, after),
        before.filter@.len() == 0,
    ensures
        0 <= i < sessions.len() ==> exists|k: int|
            0 <= k < after.machines@.len() && (#[trigger] after.machines@[k]).host@
                == sessions[i].host@,
        before.machine_source != MachineListMode::Live && 0 <= i < before.profiles@.len()
            ==> exists|k: int|
            0 <= k < after.machines@.len() && (#[trigger] after.machines@[k]).host@
                == before.profiles@[i].1.host@,
        before.machine_source == MachineListMode::AllHosts && 0 <= i < before.ssh_hosts@.len()
            ==> exists|k: int|
            0 <= k < after.machines@.len() && (#[trigger] after.machines@[k]).host@
                == before.ssh_hosts@[i]@,
{
    let hosts = choose|hosts: Seq<String>|
        #[trigger] hosts_of(before.profiles@, hosts) && tree_of(
            views(sessions),
            views(hosts),
            views(before.ssh_hosts@),
            before.machine_source,
            before.filter@,
            after.machines@,
        );
    let (sv, pv, hv) = (views(sessions), views(hosts), views(before.ssh_hosts@));
    let mode = before.machine_source;
    assert(before.filter@ =~= seq![]);
    law_a_host_is_listed_once(sv, pv, hv, mode);
    let all = gathered(sv, pv, hv, mode);
    if 0 <= i < sessions.len() {
        let h = sessions[i].host@;
        assert(sv[i].host@ == h);
        let live = session_rows(sv);
        let k = choose|k: int| 0 <= k < live.len() && (#[trigger] live[k]).host == h;
        assert(all.subrange(0, live.len() as int)[k] == all[k]);
        assert(all[k].host == h);
        assert(lists(all, h));
        lemma_kept_is_out(sv, pv, hv, mode, after.machines@, h);
    }
    if mode != MachineListMode::Live && 0 <= i < before.profiles@.len() {
        let h = before.profiles@[i].1.host@;
        assert(has_name(hosts, h));
        let k = choose|k: int| 0 <= k < hosts.len() && #[trigger] hosts[k].named() == h;
        assert(pv[k] == h);
        lemma_kept_is_out(sv, pv, hv, mode, after.machines@, h);
    }
    if mode == MachineListMode::AllHosts && 0 <= i < before.ssh_hosts@.len() {
        assert(hv[i] == before.ssh_hosts@[i]@);
        lemma_kept_is_out(sv, pv, hv, mode, after.machines@, hv[i]);
    }
}

}
