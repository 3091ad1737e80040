//! What the dashboard shows, as text. How it is laid out and coloured is left to
//! the terminal.

use crate::commands::default_name;
use crate::config::Profile;
use crate::process::{answers, ask_all, questions, Processes};
use crate::session::types::{AttachStatus, ForwardObs, SessionStatus, SessionView};
use crate::text::{
    chars_of, concat2, concat3, concat4, concat5, dec, decimal, lines, parse_port, port_number,
    split_lines, string_of, trim, trimmed, views,
};
use crate::time::{age_text, clock_read, format_age, Timestamp};
use crate::tui::keys::{submitted, ConfirmView, EffectView};
use crate::tui::state::{fields_of, AppState, ConfirmAction, InputField, Mode};
use crate::tui::tree::{
    law_rows_point_into_the_tree, machine_rows, tree_rows, MachineListMode, MachineRow, MachineView,
    Row,
};
use vstd::prelude::*;
use vstd::string::*;
use vstd::utf8::*;

verus! {

/// How a row is doing. Lamps carry it by shape, and the terminal by colour.
#[derive(Debug, Clone, Copy, PartialEq, Eq, Structural)]
pub enum Tone {
    Good,
    Busy,
    Bad,
    Idle,
}

/// The lamp of a row in one frame of the dashboard. That of a busy row turns, a
/// quarter with every frame.
pub open spec fn lamp_of(tone: Tone, frame: nat) -> Seq<char> {
    match tone {
        Tone::Good => "●"@,
        Tone::Busy => if frame % 4 == 0 {
            "◐"@
        } else if frame % 4 == 1 {
            "◓"@
        } else if frame % 4 == 2 {
            "◑"@
        } else {
            "◒"@
        },
        Tone::Bad => "✕"@,
        Tone::Idle => "○"@,
    }
}

/// The lamp of a row in one frame of the dashboard.
pub fn lamp(tone: Tone, frame: u64) -> (out: &'static str)
    ensures
        out@ == lamp_of(tone, frame as nat),
{
    match tone {
        Tone::Good => "●",
        Tone::Busy => match frame % 4 {
            0 => "◐",
            1 => "◓",
            2 => "◑",
            _ => "◒",
        },
        Tone::Bad => "✕",
        Tone::Idle => "○",
    }
}

/// The cells of one row of the tree.
#[derive(Debug)]
pub struct RowCells {
    pub label: String,
    pub status: String,
    pub tone: Tone,
    pub detail: String,
    pub reconnects: String,
    pub is_machine: bool,
}

/// The cells of one row, as sequences.
pub struct RowCellsView {
    pub label: Seq<char>,
    pub status: Seq<char>,
    pub tone: Tone,
    pub detail: Seq<char>,
    pub reconnects: Seq<char>,
    pub is_machine: bool,
}

impl View for RowCells {
    type V = RowCellsView;

    open spec fn view(&self) -> RowCellsView {
        RowCellsView {
            label: self.label@,
            status: self.status@,
            tone: self.tone,
            detail: self.detail@,
            reconnects: self.reconnects@,
            is_machine: self.is_machine,
        }
    }
}

/// Uptime of a machine: how long the *current* master has held.
pub open spec fn uptime_text(session: Option<SessionView>, now: Timestamp) -> Seq<char> {
    match session {
        Some(s) => match s.connected_at {
            Some(at) => age_text(now, at),
            None => "-"@,
        },
        None => "-"@,
    }
}

/// What the status cell of a machine says, given whether its watcher is alive: a
/// session that nobody watches has failed.
pub open spec fn machine_status(session: Option<SessionView>, alive: bool) -> (Seq<char>, Tone) {
    match session {
        None => ("idle"@, Tone::Idle),
        Some(s) => if !alive {
            ("failed"@, Tone::Bad)
        } else {
            match s.status {
                SessionStatus::Connected => ("connected"@, Tone::Good),
                SessionStatus::Connecting => ("connecting"@, Tone::Busy),
                SessionStatus::Reconnecting => ("reconnecting"@, Tone::Busy),
                SessionStatus::Failed => ("failed"@, Tone::Bad),
            }
        },
    }
}

/// The reconnect count of a machine, shown only once it stops being zero.
pub open spec fn reconnects_text(session: Option<SessionView>) -> Seq<char> {
    match session {
        Some(s) => if s.reconnect_count > 0 {
            "↻"@ + decimal(s.reconnect_count as nat)
        } else {
            seq![]
        },
        None => "-"@,
    }
}

/// The label of a machine. The forward count rides along so a collapsed machine
/// still shows it: folding must not cost information.
pub open spec fn machine_label(machine: MachineView, expanded: bool) -> Seq<char> {
    if machine.forwards.len() == 0 {
        "  "@ + machine.host
    } else {
        (if expanded {
            "▾ "@
        } else {
            "▸ "@
        }) + machine.host + " ("@ + decimal(machine.forwards.len()) + ")"@
    }
}

/// The row of a machine.
pub open spec fn machine_cells(
    machine: MachineView,
    expanded: bool,
    alive: bool,
    now: Timestamp,
) -> RowCellsView {
    RowCellsView {
        label: machine_label(machine, expanded),
        status: machine_status(machine.session, alive).0,
        tone: machine_status(machine.session, alive).1,
        detail: uptime_text(machine.session, now),
        reconnects: reconnects_text(machine.session),
        is_machine: true,
    }
}

/// The row of a machine, seen at `now`.
pub fn machine_row(machine: &MachineRow, expanded: bool, alive: bool, now: Timestamp) -> (cells:
    RowCells)
    ensures
        cells@ == machine_cells(machine@, expanded, alive, now),
{
    let count: usize = machine.forwards.len();
    let label = if count == 0 {
        concat2("  ", machine.host.as_str())
    } else {
        let marker = if expanded {
            "▾ "
        } else {
            "▸ "
        };
        concat5(marker, machine.host.as_str(), " (", dec(count as u64).as_str(), ")")
    };
    let (status, tone) = match &machine.session {
        None => ("idle", Tone::Idle),
        Some(s) => if !alive {
            ("failed", Tone::Bad)
        } else {
            match s.status {
                SessionStatus::Connected => ("connected", Tone::Good),
                SessionStatus::Connecting => ("connecting", Tone::Busy),
                SessionStatus::Reconnecting => ("reconnecting", Tone::Busy),
                SessionStatus::Failed => ("failed", Tone::Bad),
            }
        },
    };
    let reconnects = match &machine.session {
        Some(s) => if s.reconnect_count > 0 {
            concat2("↻", dec(s.reconnect_count as u64).as_str())
        } else {
            String::new()
        },
        None => "-".to_owned(),
    };
    let detail = match &machine.session {
        Some(s) => match s.connected_at {
            Some(at) => format_age(now, at),
            None => "-".to_owned(),
        },
        None => "-".to_owned(),
    };
    let cells = RowCells {
        label,
        status: status.to_owned(),
        tone,
        detail,
        reconnects,
        is_machine: true,
    };
    assert(cells@.reconnects =~= reconnects_text(machine@.session));
    cells
}

/// The longest start of `s` whose encoding takes at most `limit` bytes.
pub open spec fn fitting(s: Seq<char>, limit: nat) -> Seq<char>
    decreases s.len(),
{
    if encode_utf8(s).len() <= limit || s.len() == 0 {
        s
    } else {
        fitting(s.drop_last(), limit)
    }
}

/// The first line of a text, or all of it where it has none.
pub open spec fn first_line(s: Seq<char>) -> Seq<char> {
    if lines(s).len() > 0 {
        lines(s)[0]
    } else {
        s
    }
}

/// An error for one narrow cell: its first line, cut off where it takes more
/// than twenty-four bytes.
pub open spec fn short(err: Seq<char>) -> Seq<char> {
    let first = trimmed(first_line(err));
    if encode_utf8(first).len() > 24 {
        fitting(first, 23) + "…"@
    } else {
        first
    }
}

fn fit(s: String, limit: usize) -> (out: String)
    ensures
        out@ == fitting(s@, limit as nat),
{
    let mut out = s;
    let ghost want = fitting(s@, limit as nat);
    while out.as_str().as_bytes().len() > limit && !out.as_str().is_empty()
        invariant
            fitting(out@, limit as nat) == want,
        decreases out@.len(),
    {
        let c = chars_of(out.as_str());
        out = string_of(&c, 0, c.len() - 1);
        assert(out@ =~= c@.drop_last());
    }
    out
}

/// ssh's stderr can be several lines; the table has one narrow cell.
pub fn short_error(err: &str) -> (out: String)
    ensures
        out@ == short(err@),
{
    let all = split_lines(err);
    let first = if all.len() > 0 {
        trim(all[0].as_str())
    } else {
        trim(err)
    };
    if first.as_str().as_bytes().len() > 24 {
        let cut = fit(first, 23);
        concat2(cut.as_str(), "…")
    } else {
        first
    }
}

/// The row of a forward. The last one of its machine closes the branch.
pub open spec fn forward_cells(f: ForwardObs, last: bool, now: Timestamp) -> RowCellsView {
    let uptime = match f.attached_at {
        Some(at) => age_text(now, at),
        None => "-"@,
    };
    RowCellsView {
        label: (if last {
            "  └─ "@
        } else {
            "  ├─ "@
        }) + decimal(f.local_port as nat) + " → "@ + f.remote_host@ + ":"@ + decimal(
            f.remote_port as nat,
        ),
        status: match f.status {
            AttachStatus::Forwarded => "attached"@,
            AttachStatus::Pending => "pending"@,
            AttachStatus::Failed => "failed"@,
        },
        tone: match f.status {
            AttachStatus::Forwarded => Tone::Good,
            AttachStatus::Pending => Tone::Busy,
            AttachStatus::Failed => Tone::Bad,
        },
        detail: match (f.status, f.error) {
            (AttachStatus::Failed, Some(e)) => short(e@),
            _ => uptime,
        },
        reconnects: seq![],
        is_machine: false,
    }
}

/// The row of a forward, seen at `now`. A failed attach has an error worth
/// surfacing; it replaces the uptime.
pub fn forward_row(f: &ForwardObs, last: bool, now: Timestamp) -> (cells: RowCells)
    ensures
        cells@ == forward_cells(*f, last, now),
{
    let branch = if last {
        "  └─ "
    } else {
        "  ├─ "
    };
    let ports = concat5(
        branch,
        dec(f.local_port as u64).as_str(),
        " → ",
        f.remote_host.as_str(),
        ":",
    );
    let label = concat2(ports.as_str(), dec(f.remote_port as u64).as_str());
    let uptime = match f.attached_at {
        Some(at) => format_age(now, at),
        None => "-".to_owned(),
    };
    let (status, tone) = match f.status {
        AttachStatus::Forwarded => ("attached", Tone::Good),
        AttachStatus::Pending => ("pending", Tone::Busy),
        AttachStatus::Failed => ("failed", Tone::Bad),
    };
    let detail = match (f.status, &f.error) {
        (AttachStatus::Failed, Some(e)) => short_error(e.as_str()),
        _ => uptime,
    };
    let cells = RowCells {
        label,
        status: status.to_owned(),
        tone,
        detail,
        reconnects: String::new(),
        is_machine: false,
    };
    assert(cells@.reconnects =~= seq![]);
    cells
}

/// The cells of one row of the tree, given whether the watcher of its machine is
/// alive. A row that points nowhere has none.
pub open spec fn cells_of(app: AppState, row: Row, alive: bool, now: Timestamp) -> Option<
    RowCellsView,
> {
    match row {
        Row::Machine(mi) => if mi < app.machines@.len() {
            let machine = app.machines@[mi as int]@;
            Some(machine_cells(machine, app.expanded@.contains(machine.host), alive, now))
        } else {
            None
        },
        Row::Forward(mi, fi) => if mi < app.machines@.len() && fi
            < app.machines@[mi as int].forwards@.len() {
            let forwards = app.machines@[mi as int].forwards@;
            Some(forward_cells(forwards[fi as int], fi + 1 == forwards.len(), now))
        } else {
            None
        },
    }
}

/// The cells of one row of the tree.
pub fn row_cells(app: &AppState, row: Row, alive: bool, now: Timestamp) -> (r: Option<RowCells>)
    ensures
        match (r, cells_of(*app, row, alive, now)) {
            (Some(c), Some(want)) => c@ == want,
            (None, None) => true,
            _ => false,
        },
{
    match row {
        Row::Machine(mi) => {
            if mi >= app.machines.len() {
                return None;
            }
            let machine = &app.machines[mi];
            let expanded = app.expanded.contains(machine.host.as_str());
            Some(machine_row(machine, expanded, alive, now))
        },
        Row::Forward(mi, fi) => {
            if mi >= app.machines.len() || fi >= app.machines[mi].forwards.len() {
                return None;
            }
            let forwards = &app.machines[mi].forwards;
            Some(forward_row(&forwards[fi], fi == forwards.len() - 1, now))
        },
    }
}

/// The cells of the first rows of the tree, top to bottom.
pub open spec fn table_of(
    app: AppState,
    rows: Seq<Row>,
    alive: Seq<bool>,
    now: Timestamp,
) -> Seq<RowCellsView>
    decreases rows.len(),
{
    if rows.len() == 0 {
        seq![]
    } else {
        let above = table_of(app, rows.drop_last(), alive.drop_last(), now);
        match cells_of(app, rows.last(), alive.last(), now) {
            Some(c) => above.push(c),
            None => above,
        }
    }
}

/// The watcher that a row tells of: that of its machine's session.
pub open spec fn watcher_of(app: AppState, row: Row) -> Option<u32> {
    match row {
        Row::Machine(mi) => if mi < app.machines@.len() {
            match app.machines@[mi as int].session {
                Some(s) => Some(s.watcher_pid),
                None => None,
            }
        } else {
            None
        },
        Row::Forward(_, _) => None,
    }
}

/// The watchers that the rows of the tree tell of.
pub open spec fn watchers_of(app: AppState) -> Seq<Option<u32>> {
    Seq::new(app.rows@.len(), |i: int| watcher_of(app, app.rows@[i]))
}

/// The watchers that the rows of the tree tell of.
fn watchers(app: &AppState) -> (pids: Vec<Option<u32>>)
    ensures
        pids@ == watchers_of(*app),
{
    let mut pids: Vec<Option<u32>> = Vec::new();
    let mut i: usize = 0;
    while i < app.rows.len()
        invariant
            i <= app.rows@.len(),
            pids@ == watchers_of(*app).take(i as int),
        decreases app.rows@.len() - i,
    {
        let pid: Option<u32> = match app.rows[i] {
            Row::Machine(mi) => if mi < app.machines.len() {
                match &app.machines[mi].session {
                    Some(s) => Some(s.watcher_pid),
                    None => None,
                }
            } else {
                None
            },
            Row::Forward(_, _) => None,
        };
        pids.push(pid);
        assert(pids@ =~= watchers_of(*app).take(i + 1));
        i += 1;
    }
    assert(pids@ =~= watchers_of(*app));
    pids
}

/// Whether `out` are the cells of the tree's rows, going by what was answered
/// about the watcher of each machine.
pub open spec fn draws<P: Processes>(
    app: AppState,
    out: Seq<RowCellsView>,
    asked: Seq<(u32, bool)>,
    asked_after: Seq<(u32, bool)>,
) -> bool {
    exists|alive: Seq<bool>, now: Timestamp|
        answers::<P>(watchers_of(app), alive) && asked_after == asked + questions(
            watchers_of(app),
            alive,
        ) && clock_read(now) && out == #[trigger] table_of(app, app.rows@, alive, now)
}

/// The cells of every row of the tree, as things stand.
pub fn tree_table<P: Processes>(app: &AppState, procs: &mut P) -> (out: Vec<RowCells>)
    ensures
        draws::<P>(*app, views(out@), old(procs).asked(), final(procs).asked()),
{
    let now = crate::time::now();
    let alive = ask_all(&watchers(app), procs);
    let mut out: Vec<RowCells> = Vec::new();
    let mut i: usize = 0;
    proof {
        assert(app.rows@.take(0) =~= seq![]);
        assert(views(out@) =~= seq![]);
    }
    while i < app.rows.len()
        invariant
            i <= app.rows@.len(),
            alive@.len() == app.rows@.len(),
            views(out@) == table_of(*app, app.rows@.take(i as int), alive@.take(i as int), now),
        decreases app.rows@.len() - i,
    {
        let ghost before = out@;
        proof {
            assert(app.rows@.take(i + 1).drop_last() =~= app.rows@.take(i as int));
            assert(alive@.take(i + 1).drop_last() =~= alive@.take(i as int));
        }
        match row_cells(app, app.rows[i], alive[i], now) {
            Some(c) => {
                let ghost cells = c@;
                out.push(c);
                assert(views(out@) =~= views(before).push(cells));
            },
            None => {},
        }
        i += 1;
    }
    proof {
        assert(app.rows@.take(i as int) =~= app.rows@);
        assert(alive@.take(i as int) =~= alive@);
        assert(views(out@) == table_of(*app, app.rows@, alive@, now));
    }
    out
}

/// The line above the tree: which machines are listed, and the filter.
pub open spec fn header_text(app: AppState) -> Seq<char> {
    if app.filter@.len() == 0 {
        " pf  ·  "@ + app.machine_source.name()
    } else {
        " pf  ·  "@ + app.machine_source.name() + "  ·  filter: "@ + app.filter@
    }
}

/// The line above the tree.
pub fn tree_title(app: &AppState) -> (out: String)
    ensures
        out@ == header_text(*app),
{
    if app.filter.as_str().is_empty() {
        concat2(" pf  ·  ", app.machine_source.label())
    } else {
        concat4(
            " pf  ·  ",
            app.machine_source.label(),
            "  ·  filter: ",
            app.filter.as_str(),
        )
    }
}

/// The machine that a row belongs to.
pub open spec fn row_machine(row: Row) -> int {
    match row {
        Row::Machine(mi) => mi as int,
        Row::Forward(mi, _) => mi as int,
    }
}

/// Whether a row belongs to a machine with a session.
pub open spec fn row_is_live(app: AppState, row: Row) -> bool {
    row_machine(row) < app.machines@.len() && app.machines@[row_machine(row)].session is Some
}

/// How many rows from the top belong to machines with a session.
pub open spec fn live_rows(app: AppState, rows: Seq<Row>) -> nat
    decreases rows.len(),
{
    if rows.len() == 0 || !row_is_live(app, rows[0]) {
        0
    } else {
        1 + live_rows(app, rows.drop_first())
    }
}

/// How many of the rows are those of machines.
pub open spec fn machine_count(rows: Seq<Row>) -> nat
    decreases rows.len(),
{
    if rows.len() == 0 {
        0
    } else {
        machine_count(rows.drop_last()) + if rows.last() is Machine {
            1nat
        } else {
            0nat
        }
    }
}

/// A box of the dashboard: its title, and the rows in it, from the first up to
/// but not including the second.
#[derive(Debug)]
pub struct TreeBox {
    pub title: String,
    pub from: usize,
    pub to: usize,
}

/// `b` holds the rows `from..to` under a title that counts its machines.
pub open spec fn holds(app: AppState, b: TreeBox, name: Seq<char>, from: int, to: int) -> bool {
    &&& b.from == from
    &&& b.to == to
    &&& b.title@ == " "@ + name + " · "@ + decimal(machine_count(app.rows@.subrange(from, to)))
        + " "@
}

proof fn lemma_live_rows(app: AppState, rows: Seq<Row>, n: int)
    requires
        0 <= n <= rows.len(),
        forall|k: int| 0 <= k < n ==> row_is_live(app, #[trigger] rows[k]),
        n < rows.len() ==> !row_is_live(app, rows[n]),
    ensures
        live_rows(app, rows) == n,
    decreases rows.len(),
{
    if n > 0 {
        let rest = rows.drop_first();
        assert forall|k: int| 0 <= k < n - 1 implies row_is_live(app, #[trigger] rest[k]) by {
            assert(rest[k] == rows[k + 1]);
        }
        lemma_live_rows(app, rest, n - 1);
    }
}

fn session_rows(app: &AppState) -> (n: usize)
    ensures
        n == live_rows(*app, app.rows@),
        n <= app.rows@.len(),
{
    let mut i: usize = 0;
    while i < app.rows.len()
        invariant
            i <= app.rows@.len(),
            forall|k: int| 0 <= k < i ==> row_is_live(*app, #[trigger] app.rows@[k]),
        decreases app.rows@.len() - i,
    {
        let mi: usize = match app.rows[i] {
            Row::Machine(mi) => mi,
            Row::Forward(mi, _) => mi,
        };
        if mi >= app.machines.len() || !app.machines[mi].is_live() {
            proof {
                lemma_live_rows(*app, app.rows@, i as int);
            }
            return i;
        }
        i += 1;
    }
    proof {
        lemma_live_rows(*app, app.rows@, i as int);
    }
    i
}

fn tree_box(app: &AppState, name: &str, from: usize, to: usize) -> (b: TreeBox)
    requires
        from <= to <= app.rows@.len(),
    ensures
        holds(*app, b, name@, from as int, to as int),
{
    let mut count: usize = 0;
    let mut i: usize = from;
    let ghost mine = app.rows@.subrange(from as int, to as int);
    assert(mine.take(0) =~= seq![]);
    while i < to
        invariant
            from <= i <= to <= app.rows@.len(),
            mine == app.rows@.subrange(from as int, to as int),
            count <= i - from,
            count == machine_count(mine.take(i - from)),
        decreases to - i,
    {
        proof {
            assert(mine.take(i + 1 - from).drop_last() =~= mine.take(i - from));
            assert(mine.take(i + 1 - from).last() == app.rows@[i as int]);
        }
        if matches!(app.rows[i], Row::Machine(_)) {
            count += 1;
        }
        i += 1;
    }
    assert(mine.take(i - from) =~= mine);
    TreeBox {
        title: concat5(" ", name, " · ", dec(count as u64).as_str(), " "),
        from,
        to,
    }
}

/// The boxes of the dashboard: the machines you have a session with, and those
/// you could connect to. A list that is all one kind stays a single box.
pub fn boxes(app: &AppState) -> (out: Vec<TreeBox>)
    ensures
        ({
            let n = live_rows(*app, app.rows@) as int;
            let all = app.rows@.len() as int;
            if n == all && n > 0 {
                out@.len() == 1 && holds(*app, out@[0], "sessions"@, 0, all)
            } else if n == 0 {
                out@.len() == 1 && holds(*app, out@[0], "hosts"@, 0, all)
            } else {
                &&& out@.len() == 2
                &&& holds(*app, out@[0], "sessions"@, 0, n)
                &&& holds(*app, out@[1], "hosts"@, n, all)
            }
        }),
{
    let n: usize = session_rows(app);
    let all: usize = app.rows.len();
    let mut out: Vec<TreeBox> = Vec::new();
    if n > 0 {
        out.push(tree_box(app, "sessions", 0, n));
    }
    if n < all || n == 0 {
        out.push(tree_box(app, "hosts", n, all));
    }
    out
}

/// The lines of the log that a viewport of `visible` lines shows: from the first
/// up to but not including the second.
pub fn log_window(app: &AppState, visible: usize) -> (w: (usize, usize))
    ensures
        w.0 <= w.1 <= app.log_lines@.len(),
        w.1 == (if app.log_scroll + visible > app.log_lines@.len() {
            app.log_lines@.len() as int
        } else {
            app.log_scroll + visible
        }),
        w.0 == (if app.log_scroll < w.1 {
            app.log_scroll
        } else {
            w.1
        }),
{
    let n: usize = app.log_lines.len();
    let reach: usize = app.log_scroll.saturating_add(visible);
    let end: usize = if reach > n {
        n
    } else {
        reach
    };
    let start: usize = if app.log_scroll < end {
        app.log_scroll
    } else {
        end
    };
    (start, end)
}

/// How many lines the panel below the tree takes.
pub fn panel_height(mode: &Mode) -> (h: u16)
    ensures
        h == (if mode is Normal || mode is Filter {
            0u16
        } else {
            15u16
        }),
{
    match mode {
        Mode::Normal | Mode::Filter => 0,
        _ => 15,
    }
}

/// One line of the form.
#[derive(Debug)]
pub struct FormLine {
    pub label: String,
    /// What was typed, with a cursor behind it where it is typed.
    pub value: String,
    pub active: bool,
    /// What an empty field stands for.
    pub preview: Option<String>,
}

/// The text of a field of the form.
pub open spec fn field_text(app: AppState, field: InputField) -> Seq<char> {
    match field {
        InputField::Host => app.input_host@,
        InputField::LocalPort => app.input_local_port@,
        InputField::RemotePort => app.input_remote_port@,
        InputField::Name => app.input_name@,
    }
}

/// What an empty field stands for: an empty remote port mirrors the local one,
/// and an empty name is generated.
pub open spec fn preview_text(app: AppState, field: InputField) -> Option<Seq<char>> {
    let host = trimmed(app.input_host@);
    match port_number(trimmed(app.input_local_port@)) {
        None => None,
        Some(local) => match field {
            InputField::RemotePort => if trimmed(app.input_remote_port@).len() == 0 {
                Some(decimal(local as nat))
            } else {
                None
            },
            InputField::Name => if trimmed(app.input_name@).len() == 0 && host.len() > 0 {
                Some(default_name(host, local))
            } else {
                None
            },
            _ => None,
        },
    }
}

/// `line` shows `field` of the form.
pub open spec fn shows_field(app: AppState, field: InputField, line: FormLine) -> bool {
    &&& line.label@ == right_aligned(field.name(), 12) + ": "@
    &&& line.active == (field == app.input_field)
    &&& line.value@ == (if line.active {
        field_text(app, field) + "_"@
    } else {
        field_text(app, field)
    })
    &&& match (line.preview, preview_text(app, field)) {
        (Some(p), Some(want)) => p@ == want,
        (None, None) => true,
        _ => false,
    }
}

/// A text with spaces before it, `width` characters long in all where it is not
/// longer itself.
pub open spec fn right_aligned(s: Seq<char>, width: int) -> Seq<char>
    decreases width - s.len(),
{
    if s.len() >= width {
        s
    } else {
        right_aligned(seq![' '] + s, width)
    }
}

fn align_right(s: &str, width: usize) -> (out: String)
    ensures
        out@ == right_aligned(s@, width as int),
{
    let mut out = s.to_owned();
    let ghost want = right_aligned(s@, width as int);
    let mut n: usize = chars_of(s).len();
    while n < width
        invariant
            n == out@.len(),
            right_aligned(out@, width as int) == want,
        decreases width - n,
    {
        let ghost before = out@;
        out = concat2(" ", out.as_str());
        n += 1;
        proof {
            reveal_strlit(" ");
            assert(out@ =~= seq![' '] + before);
        }
    }
    out
}

fn field_preview(app: &AppState, field: InputField) -> (r: Option<String>)
    ensures
        match (r, preview_text(*app, field)) {
            (Some(p), Some(want)) => p@ == want,
            (None, None) => true,
            _ => false,
        },
{
    let host = trim(app.input_host.as_str());
    match parse_port(trim(app.input_local_port.as_str()).as_str()) {
        None => None,
        Some(local) => match field {
            InputField::RemotePort => if trim(app.input_remote_port.as_str()).as_str().is_empty() {
                Some(dec(local as u64))
            } else {
                None
            },
            InputField::Name => if trim(app.input_name.as_str()).as_str().is_empty()
                && !host.as_str().is_empty() {
                Some(concat3(host.as_str(), "-", dec(local as u64).as_str()))
            } else {
                None
            },
            _ => None,
        },
    }
}

/// The lines of the form: the fields it asks for, in tab order.
pub fn form_lines(app: &AppState) -> (out: Vec<FormLine>)
    ensures
        out@.len() == fields_of(app.input_asks_host).len(),
        forall|i: int|
            0 <= i < out@.len() ==> shows_field(
                *app,
                fields_of(app.input_asks_host)[i],
                #[trigger] out@[i],
            ),
{
    let fields = app.form_fields();
    let mut out: Vec<FormLine> = Vec::new();
    let mut i: usize = 0;
    while i < fields.len()
        invariant
            i <= fields@.len(),
            fields@ == fields_of(app.input_asks_host),
            out@.len() == i,
            forall|k: int| 0 <= k < i ==> shows_field(*app, fields@[k], #[trigger] out@[k]),
        decreases fields@.len() - i,
    {
        let field = fields[i];
        let text = match field {
            InputField::Host => app.input_host.as_str(),
            InputField::LocalPort => app.input_local_port.as_str(),
            InputField::RemotePort => app.input_remote_port.as_str(),
            InputField::Name => app.input_name.as_str(),
        };
        let active = field == app.input_field;
        let line = FormLine {
            label: concat2(align_right(field.label(), 12).as_str(), ": "),
            value: if active {
                concat2(text, "_")
            } else {
                text.to_owned()
            },
            active,
            preview: field_preview(app, field),
        };
        assert(shows_field(*app, field, line));
        out.push(line);
        i += 1;
    }
    out
}

/// The hint below the form.
pub fn form_hint(app: &AppState) -> (out: &'static str)
    ensures
        out@ == (if app.input_field == fields_of(app.input_asks_host).last() {
            "  Tab: next field | Enter: submit | Esc: cancel"@
        } else {
            "  Tab: next field | Enter: next field | Esc: cancel"@
        }),
{
    if app.on_last_field() {
        "  Tab: next field | Enter: submit | Esc: cancel"
    } else {
        "  Tab: next field | Enter: next field | Esc: cancel"
    }
}

/// The title of the form.
pub fn form_title(app: &AppState) -> (out: String)
    ensures
        out@ == " New forward on "@ + app.input_host@ + " "@,
{
    concat3(" New forward on ", app.input_host.as_str(), " ")
}

/// The line for a profile in the list of profiles.
pub fn profile_item(name: &str, profile: &Profile) -> (out: String)
    ensures
        out@ == name@ + ": "@ + profile.host@ + " ("@ + decimal(profile.local_port as nat) + ":"@
            + decimal(profile.remote_port as nat) + ")"@,
{
    let first = concat5(
        name,
        ": ",
        profile.host.as_str(),
        " (",
        dec(profile.local_port as u64).as_str(),
    );
    concat4(first.as_str(), ":", dec(profile.remote_port as u64).as_str(), ")")
}

/// The question that an action waits for.
pub open spec fn question(action: ConfirmView) -> Seq<char> {
    match action {
        ConfirmView::StopForward(name) => "Stop '"@ + name + "'? (y/n)"@,
        ConfirmView::StopHost(host, n) => "Stop all "@ + decimal(n as nat) + " forward(s) on '"@
            + host + "'? (y/n)"@,
        ConfirmView::RestartForward(name) => "Restart '"@ + name + "'? (y/n)"@,
        ConfirmView::RestartHost(host) => "Reconnect '"@ + host
            + "'? All its forwards drop briefly. (y/n)"@,
    }
}

/// The question that an action waits for.
pub fn confirm_text(action: &ConfirmAction) -> (out: String)
    ensures
        out@ == question(action@),
{
    match action {
        ConfirmAction::StopForward(name) => concat3("Stop '", name.as_str(), "'? (y/n)"),
        ConfirmAction::StopHost(host, n) => concat5(
            "Stop all ",
            dec(*n as u64).as_str(),
            " forward(s) on '",
            host.as_str(),
            "'? (y/n)",
        ),
        ConfirmAction::RestartForward(name) => concat3("Restart '", name.as_str(), "'? (y/n)"),
        ConfirmAction::RestartHost(host) => concat3(
            "Reconnect '",
            host.as_str(),
            "'? All its forwards drop briefly. (y/n)",
        ),
    }
}

/// The essential keys of a mode.
pub open spec fn hint_of(mode: Mode) -> Seq<char> {
    match mode {
        Mode::Normal =>
            "j/k:nav  ↵:fold  a:add  x:stop  r:restart  l:logs  /:filter  m:mode  s:profile  q:quit"@,
        Mode::Logs => "j/k:scroll  Esc:back  q:quit"@,
        Mode::NewForward => "Tab:next  Enter:next/submit  Esc:cancel"@,
        Mode::ProfilePicker => "j/k:nav  Enter:start  Esc:cancel"@,
        Mode::Filter => "type to filter  Enter:apply  Esc:clear"@,
        Mode::Confirm(_) => "y:confirm  n/Esc:cancel"@,
        Mode::Help => "any key:close"@,
    }
}

fn hint(mode: &Mode) -> (out: &'static str)
    ensures
        out@ == hint_of(*mode),
{
    match mode {
        Mode::Normal =>
            "j/k:nav  ↵:fold  a:add  x:stop  r:restart  l:logs  /:filter  m:mode  s:profile  q:quit",
        Mode::Logs => "j/k:scroll  Esc:back  q:quit",
        Mode::NewForward => "Tab:next  Enter:next/submit  Esc:cancel",
        Mode::ProfilePicker => "j/k:nav  Enter:start  Esc:cancel",
        Mode::Filter => "type to filter  Enter:apply  Esc:clear",
        Mode::Confirm(_) => "y:confirm  n/Esc:cancel",
        Mode::Help => "any key:close",
    }
}

/// The bar along the bottom: the filter while it is typed; else what is in
/// flight, or the last message; and in any case the essential keys.
pub open spec fn bar_text(app: AppState) -> Seq<char> {
    let keys = hint_of(app.mode);
    if app.mode is Filter {
        "/"@ + app.filter@ + "_  |  "@ + keys
    } else {
        match (app.pending_label, app.status_message) {
            (Some(label), _) => label@ + "  |  "@ + keys,
            (None, Some(message)) => message@ + "  |  "@ + keys,
            (None, None) => keys,
        }
    }
}

/// The bar along the bottom.
pub fn status_bar(app: &AppState) -> (out: String)
    ensures
        out@ == bar_text(*app),
{
    let keys = hint(&app.mode);
    if matches!(app.mode, Mode::Filter) {
        return concat4("/", app.filter.as_str(), "_  |  ", keys);
    }
    match (&app.pending_label, &app.status_message) {
        (Some(label), _) => concat3(label.as_str(), "  |  ", keys),
        (None, Some(message)) => concat3(message.as_str(), "  |  ", keys),
        (None, None) => keys.to_owned(),
    }
}

/// Folding a machine changes its marker and nothing else: what it is doing, for
/// how long, and how many forwards it has all stay in sight.
pub proof fn law_folding_costs_no_information(
    machine: MachineView,
    alive: bool,
    now: Timestamp,
)
    ensures
        machine_cells(machine, true, alive, now).label.skip(2) == machine_cells(
            machine,
            false,
            alive,
            now,
        ).label.skip(2),
        machine_cells(machine, false, alive, now) == (RowCellsView {
            label: machine_label(machine, false),
            ..machine_cells(machine, true, alive, now)
        }),
{
    reveal_strlit("▾ ");
    reveal_strlit("▸ ");
    let tail = machine.host + " ("@ + decimal(machine.forwards.len()) + ")"@;
    if machine.forwards.len() > 0 {
        assert(machine_label(machine, true) =~= "▾ "@ + tail);
        assert(machine_label(machine, false) =~= "▸ "@ + tail);
        assert(("▾ "@ + tail).skip(2) =~= tail);
        assert(("▸ "@ + tail).skip(2) =~= tail);
    }
}

/// A short error stands in its cell as it is; of a longer one a start is kept
/// that takes at most twenty-three bytes.
pub proof fn law_short_errors_fit_their_cell(err: Seq<char>)
    ensures
        encode_utf8(trimmed(first_line(err))).len() <= 24 ==> short(err) == trimmed(
            first_line(err),
        ),
        encode_utf8(trimmed(first_line(err))).len() > 24 ==> encode_utf8(
            fitting(trimmed(first_line(err)), 23),
        ).len() <= 23 && fitting(trimmed(first_line(err)), 23).is_prefix_of(
            trimmed(first_line(err)),
        ),
{
    lemma_fitting(trimmed(first_line(err)), 23);
}

proof fn lemma_fitting(s: Seq<char>, limit: nat)
    ensures
        encode_utf8(fitting(s, limit)).len() <= limit,
        fitting(s, limit).is_prefix_of(s),
    decreases s.len(),
{
    if encode_utf8(s).len() <= limit {
    } else if s.len() == 0 {
        assert(encode_utf8(s).len() == 0);
    } else {
        lemma_fitting(s.drop_last(), limit);
        let f = fitting(s.drop_last(), limit);
        assert(f =~= s.take(f.len() as int));
    }
}

proof fn lemma_rows_go_down_the_list(
    machines: Seq<MachineRow>,
    expanded: Set<Seq<char>>,
    i: int,
    j: int,
)
    requires
        machines.len() <= usize::MAX,
        0 <= i <= j < tree_rows(machines, expanded).len(),
    ensures
        0 <= row_machine(tree_rows(machines, expanded)[i]),
        row_machine(tree_rows(machines, expanded)[i]) <= row_machine(
            tree_rows(machines, expanded)[j],
        ) < machines.len(),
    decreases machines.len(),
{
    let rest = machines.drop_last();
    let above = tree_rows(rest, expanded);
    let all = tree_rows(machines, expanded);
    let mine = machine_rows(machines.last(), machines.len() - 1, expanded);
    if j < above.len() {
        lemma_rows_go_down_the_list(rest, expanded, i, j);
        assert(all[i] == above[i] && all[j] == above[j]);
    } else {
        assert(all[j] == mine[j - above.len()]);
        if i < above.len() {
            lemma_rows_go_down_the_list(rest, expanded, i, i);
            assert(all[i] == above[i]);
        } else {
            assert(all[i] == mine[i - above.len()]);
        }
    }
}

/// Where live machines are listed first, every row of a session stands above
/// every row of a host without one, so each box holds one kind only.
pub proof fn law_each_box_holds_one_kind(app: AppState, i: int)
    requires
        app.rows@ == tree_rows(app.machines@, app.expanded@),
        forall|a: int, b: int|
            0 <= a < b < app.machines@.len() && (#[trigger] app.machines@[b]).session is Some
                ==> (#[trigger] app.machines@[a]).session is Some,
        0 <= i < app.rows@.len(),
    ensures
        row_is_live(app, app.rows@[i]) <==> i < live_rows(app, app.rows@),
{
    assert(app.machines.len() == app.machines@.len());
    lemma_split(app, app.rows@);
    let n = live_rows(app, app.rows@) as int;
    if i >= n {
        lemma_rows_go_down_the_list(app.machines@, app.expanded@, n, i);
    }
}

proof fn lemma_split(app: AppState, rows: Seq<Row>)
    ensures
        live_rows(app, rows) <= rows.len(),
        forall|k: int| 0 <= k < live_rows(app, rows) ==> row_is_live(app, #[trigger] rows[k]),
        live_rows(app, rows) < rows.len() ==> !row_is_live(
            app,
            rows[live_rows(app, rows) as int],
        ),
    decreases rows.len(),
{
    if rows.len() > 0 && row_is_live(app, rows[0]) {
        let rest = rows.drop_first();
        lemma_split(app, rest);
        assert forall|k: int| 0 <= k < live_rows(app, rows) implies row_is_live(
            app,
            #[trigger] rows[k],
        ) by {
            if k > 0 {
                assert(rest[k - 1] == rows[k]);
            }
        }
    }
}

/// A lamp turns exactly while it works: that of a busy row differs from one
/// frame to the next and is back after four, and the others stand still.
pub proof fn law_only_a_busy_lamp_turns(tone: Tone, frame: nat)
    ensures
        (lamp_of(tone, frame) != lamp_of(tone, frame + 1)) == (tone == Tone::Busy),
        lamp_of(tone, frame + 4) == lamp_of(tone, frame),
{
    reveal_strlit("◐");
    reveal_strlit("◓");
    reveal_strlit("◑");
    reveal_strlit("◒");
    assert("◐"@[0] == '◐' && "◓"@[0] == '◓' && "◑"@[0] == '◑' && "◒"@[0] == '◒');
}

/// Lamps tell by their shape how a row is doing.
pub proof fn law_lamps_have_shapes(tone: Tone, frame: u64, out: &'static str)
    requires
        call_ensures(lamp, (tone, frame), out),
    ensures
        tone == Tone::Good ==> out@ == "●"@,
        tone == Tone::Bad ==> out@ == "✕"@,
        tone == Tone::Idle ==> out@ == "○"@,
        tone == Tone::Busy && frame % 4 == 0 ==> out@ == "◐"@,
        tone == Tone::Busy && frame % 4 == 1 ==> out@ == "◓"@,
        tone == Tone::Busy && frame % 4 == 2 ==> out@ == "◑"@,
        tone == Tone::Busy && frame % 4 == 3 ==> out@ == "◒"@,
{
}

/// A machine's row names its host, counts its forwards, and tells how its
/// connection does and since when. Without a session it is idle; with one that
/// nobody watches it has failed. Reconnects show only once there were any.
pub proof fn law_a_machines_row(
    machine: MachineRow,
    expanded: bool,
    alive: bool,
    now: Timestamp,
    cells: RowCells,
)
    requires
        call_ensures(machine_row, (&machine, expanded, alive, now), cells),
    ensures
        cells.is_machine,
        machine.forwards@.len() == 0 ==> cells.label@ == "  "@ + machine.host@,
        machine.forwards@.len() > 0 && expanded ==> cells.label@ == "▾ "@ + machine.host@ + " ("@
            + decimal(machine.forwards@.len()) + ")"@,
        machine.forwards@.len() > 0 && !expanded ==> cells.label@ == "▸ "@ + machine.host@ + " ("@
            + decimal(machine.forwards@.len()) + ")"@,
        machine.session is None ==> cells.status@ == "idle"@ && cells.tone == Tone::Idle
            && cells.detail@ == "-"@,
        machine.session is Some && !alive ==> cells.status@ == "failed"@ && cells.tone == Tone::Bad,
        machine.session is Some && alive ==> match (machine.session->0).status {
            SessionStatus::Connected => cells.status@ == "connected"@ && cells.tone == Tone::Good,
            SessionStatus::Connecting => cells.status@ == "connecting"@ && cells.tone == Tone::Busy,
            SessionStatus::Reconnecting => cells.status@ == "reconnecting"@ && cells.tone
                == Tone::Busy,
            SessionStatus::Failed => cells.status@ == "failed"@ && cells.tone == Tone::Bad,
        },
        machine.session is Some && (machine.session->0).connected_at is Some ==> cells.detail@
            == age_text(now, (machine.session->0).connected_at->0),
        machine.session is Some && (machine.session->0).connected_at is None ==> cells.detail@
            == "-"@,
        machine.session is Some && (machine.session->0).reconnect_count == 0
            ==> cells.reconnects@.len() == 0,
        machine.session is Some && (machine.session->0).reconnect_count > 0 ==> cells.reconnects@
            == "↻"@ + decimal((machine.session->0).reconnect_count as nat),
{
}

/// A forward's row tells its ports and remote host, and how its attach does: a
/// failed one says why in place of since when.
pub proof fn law_a_forwards_row(f: ForwardObs, last: bool, now: Timestamp, cells: RowCells)
    requires
        call_ensures(forward_row, (&f, last, now), cells),
    ensures
        !cells.is_machine,
        cells.label@ == (if last {
            "  └─ "@
        } else {
            "  ├─ "@
        }) + decimal(f.local_port as nat) + " → "@ + f.remote_host@ + ":"@ + decimal(
            f.remote_port as nat,
        ),
        f.status == AttachStatus::Forwarded ==> cells.status@ == "attached"@ && cells.tone
            == Tone::Good,
        f.status == AttachStatus::Pending ==> cells.status@ == "pending"@ && cells.tone
            == Tone::Busy,
        f.status == AttachStatus::Failed ==> cells.status@ == "failed"@ && cells.tone == Tone::Bad,
        f.status == AttachStatus::Failed && f.error is Some ==> cells.detail@ == short(
            f.error->0@,
        ),
        (f.status != AttachStatus::Failed || f.error is None) && f.attached_at is Some
            ==> cells.detail@ == age_text(now, f.attached_at->0),
        (f.status != AttachStatus::Failed || f.error is None) && f.attached_at is None
            ==> cells.detail@ == "-"@,
        cells.reconnects@.len() == 0,
{
}

/// An error in its cell is its first line without the white space around it, as
/// it is when that takes no more than twenty-four bytes, and else a start of it
/// that takes no more than twenty-three, with an ellipsis behind it.
pub proof fn law_an_error_in_its_cell(err: &str, out: String, line: Seq<char>)
    requires
        call_ensures(short_error, (err,), out),
        line == (if lines(err@).len() > 0 {
            trimmed(lines(err@)[0])
        } else {
            trimmed(err@)
        }),
    ensures
        encode_utf8(line).len() <= 24 ==> out@ == line,
        encode_utf8(line).len() > 24 ==> out@.len() > 0 && out@.last() == '…' && encode_utf8(
            out@.drop_last(),
        ).len() <= 23 && out@.drop_last().is_prefix_of(line),
{
    reveal_strlit("…");
    lemma_fitting(line, 23);
    if encode_utf8(line).len() > 24 {
        assert(out@.drop_last() =~= fitting(line, 23));
    }
}

/// A row of the tree shows the machine or the forward that it points at; a
/// forward is the last of its machine exactly when none follows it.
pub proof fn law_a_row_shows_what_it_points_at(
    app: AppState,
    row: Row,
    alive: bool,
    now: Timestamp,
    r: Option<RowCells>,
    m: RowCells,
    f: RowCells,
)
    requires
        call_ensures(row_cells, (&app, row, alive, now), r),
        row is Machine && row->Machine_0 < app.machines@.len() ==> call_ensures(
            machine_row,
            (
                &app.machines@[row->Machine_0 as int],
                app.expanded@.contains(app.machines@[row->Machine_0 as int].host@),
                alive,
                now,
            ),
            m,
        ),
        row is Forward && row->Forward_0 < app.machines@.len() && row->Forward_1
            < app.machines@[row->Forward_0 as int].forwards@.len() ==> call_ensures(
            forward_row,
            (
                &app.machines@[row->Forward_0 as int].forwards@[row->Forward_1 as int],
                row->Forward_1 == app.machines@[row->Forward_0 as int].forwards@.len() - 1,
                now,
            ),
            f,
        ),
    ensures
        row is Machine && row->Machine_0 < app.machines@.len() ==> r is Some && r->0@ == m@,
        row is Forward && row->Forward_0 < app.machines@.len() && row->Forward_1
            < app.machines@[row->Forward_0 as int].forwards@.len() ==> r is Some && r->0@ == f@,
        row is Machine && row->Machine_0 >= app.machines@.len() ==> r is None,
{
}

/// The table has the cells of every row that points somewhere, in order, and
/// whether a machine's watcher lives was asked about that very watcher.
pub proof fn law_the_table_asks_about_each_watcher<P: Processes>(
    app: AppState,
    alive: Seq<bool>,
    i: int,
)
    requires
        answers::<P>(watchers_of(app), alive),
        0 <= i < app.rows@.len(),
    ensures
        app.rows@[i] is Forward ==> !alive[i],
        app.rows@[i] is Machine && app.rows@[i]->Machine_0 < app.machines@.len() ==> {
            let m = app.machines@[app.rows@[i]->Machine_0 as int];
            &&& m.session is Some ==> P::said((m.session->0).watcher_pid, alive[i])
            &&& m.session is None ==> !alive[i]
        },
{
    let pids = watchers_of(app);
    assert(pids.len() == app.rows@.len());
    assert(match pids[i] {
        Some(pid) => P::said(pid, alive[i]),
        None => !alive[i],
    });
}

/// Every row of a tree whose rows all point somewhere has its cells in the
/// table, at its own place.
pub proof fn law_every_row_is_in_the_table(
    app: AppState,
    rows: Seq<Row>,
    alive: Seq<bool>,
    now: Timestamp,
    i: int,
)
    requires
        alive.len() == rows.len(),
        forall|k: int| 0 <= k < rows.len() ==> cells_of(app, #[trigger] rows[k], alive[k], now) is Some,
        0 <= i < rows.len(),
    ensures
        table_of(app, rows, alive, now).len() == rows.len(),
        table_of(app, rows, alive, now)[i] == cells_of(app, rows[i], alive[i], now)->0,
    decreases rows.len(),
{
    let (r, a) = (rows.drop_last(), alive.drop_last());
    assert(cells_of(app, rows[rows.len() - 1], alive[rows.len() - 1], now) is Some);
    if r.len() > 0 {
        assert forall|k: int| 0 <= k < r.len() implies cells_of(
            app,
            #[trigger] r[k],
            a[k],
            now,
        ) is Some by {
            assert(r[k] == rows[k] && a[k] == alive[k]);
        }
        law_every_row_is_in_the_table(app, r, a, now, if i < r.len() {
            i
        } else {
            0
        });
    } else {
        assert(table_of(app, r, a, now) =~= seq![]);
    }
}

/// The line above the tree says which machines are listed, and the filter where
/// there is one.
pub proof fn law_the_line_above_the_tree(app: AppState, out: String)
    requires
        call_ensures(tree_title, (&app,), out),
    ensures
        ({
            let listed = match app.machine_source {
                MachineListMode::AllHosts => "all hosts"@,
                MachineListMode::Configured => "configured"@,
                MachineListMode::Live => "live only"@,
            };
            &&& app.filter@.len() == 0 ==> out@ == " pf  ·  "@ + listed
            &&& app.filter@.len() > 0 ==> out@ == " pf  ·  "@ + listed + "  ·  filter: "@
                + app.filter@
        }),
{
}

/// The boxes take up all rows, one after the other; the first holds the rows of
/// machines with a session, as far as they stand first, and a list of one kind
/// is a single box.
pub proof fn law_the_boxes_take_up_all_rows(app: AppState, out: Vec<TreeBox>, n: int)
    requires
        call_ensures(boxes, (&app,), out),
        0 <= n <= app.rows@.len(),
        forall|k: int| 0 <= k < n ==> is_live_row(app, #[trigger] app.rows@[k]),
        n < app.rows@.len() ==> !is_live_row(app, app.rows@[n]),
    ensures
        out@.len() >= 1,
        out@[0].from == 0,
        out@.last().to == app.rows@.len(),
        out@.len() == 1 || (out@.len() == 2 && out@[0].to == out@[1].from),
        0 < n < app.rows@.len() ==> out@.len() == 2 && out@[0].to == n,
        n == 0 || n == app.rows@.len() ==> out@.len() == 1,
{
    assert forall|k: int| 0 <= k < n implies row_is_live(app, #[trigger] app.rows@[k]) by {
        assert(is_live_row(app, app.rows@[k]));
    }
    lemma_live_rows(app, app.rows@, n);
}

/// Whether a row is that of a machine with a session, or of one of its forwards.
pub open spec fn is_live_row(app: AppState, row: Row) -> bool {
    match row {
        Row::Machine(m) => m < app.machines@.len() && app.machines@[m as int].session is Some,
        Row::Forward(m, _) => m < app.machines@.len() && app.machines@[m as int].session is Some,
    }
}

/// A title counts the machines in its box, and none of their forwards.
pub proof fn law_a_title_counts_machines(rows: Seq<Row>, row: Row)
    ensures
        machine_count(seq![]) == 0,
        row is Machine ==> machine_count(rows.push(row)) == machine_count(rows) + 1,
        row is Forward ==> machine_count(rows.push(row)) == machine_count(rows),
{
    assert(rows.push(row).drop_last() =~= rows);
}

/// The log shows the lines from where it is scrolled to on, as many as fit and
/// as there are.
pub proof fn law_what_the_log_shows(app: AppState, visible: usize, w: (usize, usize))
    requires
        call_ensures(log_window, (&app, visible), w),
    ensures
        w.0 <= w.1 <= app.log_lines@.len(),
        w.1 - w.0 <= visible,
        app.log_scroll + visible <= app.log_lines@.len() ==> w.0 == app.log_scroll && w.1
            == app.log_scroll + visible,
        app.log_scroll < app.log_lines@.len() && visible > 0 ==> w.0 == app.log_scroll,
        app.log_scroll + visible >= app.log_lines@.len() ==> w.1 == app.log_lines@.len(),
{
}

/// The form shows each field that it asks for, in order, with what was typed and
/// a cursor in the active one; and what an empty remote port or name stands for.
pub proof fn law_what_the_form_shows(app: AppState, out: Vec<FormLine>)
    requires
        call_ensures(form_lines, (&app,), out),
    ensures
        out@.len() == (if app.input_asks_host {
            4int
        } else {
            3
        }),
        ({
            let at = out@.len() - 3;
            let (local, remote, name) = (out@[at], out@[at + 1], out@[at + 2]);
            &&& local.active == (app.input_field == InputField::LocalPort)
            &&& remote.active == (app.input_field == InputField::RemotePort)
            &&& name.active == (app.input_field == InputField::Name)
            &&& !local.active ==> local.value@ == app.input_local_port@
            &&& local.active ==> local.value@ == app.input_local_port@ + "_"@
            &&& !remote.active ==> remote.value@ == app.input_remote_port@
            &&& remote.active ==> remote.value@ == app.input_remote_port@ + "_"@
            &&& !name.active ==> name.value@ == app.input_name@
            &&& name.active ==> name.value@ == app.input_name@ + "_"@
            &&& app.input_asks_host ==> out@[0].active == (app.input_field == InputField::Host)
                && (!out@[0].active ==> out@[0].value@ == app.input_host@)
            &&& local.preview is None
            &&& remote.preview is Some ==> trimmed(app.input_remote_port@).len() == 0
                && port_number(trimmed(app.input_local_port@)) is Some && remote.preview->0@
                == decimal(port_number(trimmed(app.input_local_port@))->0 as nat)
            &&& name.preview is Some ==> trimmed(app.input_name@).len() == 0 && port_number(
                trimmed(app.input_local_port@),
            ) is Some && name.preview->0@ == trimmed(app.input_host@) + "-"@ + decimal(
                port_number(trimmed(app.input_local_port@))->0 as nat,
            )
            &&& trimmed(app.input_remote_port@).len() == 0 && port_number(
                trimmed(app.input_local_port@),
            ) is Some ==> remote.preview is Some
            &&& trimmed(app.input_name@).len() == 0 && trimmed(app.input_host@).len() > 0
                && port_number(trimmed(app.input_local_port@)) is Some ==> name.preview is Some
        }),
{
    let fields = fields_of(app.input_asks_host);
    let at = out@.len() - 3;
    assert(fields[at] == InputField::LocalPort);
    assert(fields[at + 1] == InputField::RemotePort);
    assert(fields[at + 2] == InputField::Name);
    assert(shows_field(app, fields[at], out@[at]));
    assert(shows_field(app, fields[at + 1], out@[at + 1]));
    assert(shows_field(app, fields[at + 2], out@[at + 2]));
    if app.input_asks_host {
        assert(fields[0] == InputField::Host);
        assert(shows_field(app, fields[0], out@[0]));
    }
}

/// What the form previews is what submitting it starts.
pub proof fn law_a_preview_keeps_its_word(
    app: AppState,
    out: Vec<FormLine>,
    after: AppState,
    effect: EffectView,
)
    requires
        call_ensures(form_lines, (&app,), out),
        submitted(app, after, effect),
        effect is Run,
    ensures
        effect->Run_0 is Start,
        out@[out@.len() - 1].preview is Some ==> effect->Run_0->Start_1
            == out@[out@.len() - 1].preview->0@,
        out@[out@.len() - 2].preview is Some ==> decimal(effect->Run_0->Start_3 as nat)
            == out@[out@.len() - 2].preview->0@,
{
    law_what_the_form_shows(app, out);
}

/// The question names what it is about, and how many forwards would stop.
pub proof fn law_what_is_asked(action: ConfirmAction, out: String)
    requires
        call_ensures(confirm_text, (&action,), out),
    ensures
        match action {
            ConfirmAction::StopForward(name) => out@ == "Stop '"@ + name@ + "'? (y/n)"@,
            ConfirmAction::StopHost(host, n) => out@ == "Stop all "@ + decimal(n as nat)
                + " forward(s) on '"@ + host@ + "'? (y/n)"@,
            ConfirmAction::RestartForward(name) => out@ == "Restart '"@ + name@ + "'? (y/n)"@,
            ConfirmAction::RestartHost(host) => out@ == "Reconnect '"@ + host@
                + "'? All its forwards drop briefly. (y/n)"@,
        },
{
}

/// The bar says what is in flight, or else the last message, and the filter
/// while it is typed; the keys of the mode stand behind that.
pub proof fn law_what_the_bar_says(app: AppState, out: String)
    requires
        call_ensures(status_bar, (&app,), out),
    ensures
        app.mode is Filter ==> ("/"@ + app.filter@ + "_  |  "@).is_prefix_of(out@),
        !(app.mode is Filter) && app.pending_label is Some ==> (app.pending_label->0@
            + "  |  "@).is_prefix_of(out@),
        !(app.mode is Filter) && app.pending_label is None && app.status_message is Some ==> (
        app.status_message->0@ + "  |  "@).is_prefix_of(out@),
        app.mode is Normal && app.pending_label is None && app.status_message is None ==> out@
            == "j/k:nav  ↵:fold  a:add  x:stop  r:restart  l:logs  /:filter  m:mode  s:profile  q:quit"@,
        app.mode is Confirm && app.pending_label is None && app.status_message is None ==> out@
            == "y:confirm  n/Esc:cancel"@,
{
    let keys = hint_of(app.mode);
    let first = if app.mode is Filter {
        "/"@ + app.filter@ + "_  |  "@
    } else if app.pending_label is Some {
        app.pending_label->0@ + "  |  "@
    } else if app.status_message is Some {
        app.status_message->0@ + "  |  "@
    } else {
        seq![]
    };
    if app.mode is Filter || app.pending_label is Some || app.status_message is Some {
        assert(out@ =~= first + keys);
        assert((first + keys).take(first.len() as int) =~= first);
    }
}

/// A profile is offered with its name, its machine and its ports.
pub proof fn law_how_a_profile_is_offered(name: &str, profile: Profile, out: String)
    requires
        call_ensures(profile_item, (name, &profile), out),
    ensures
        out@ == name@ + ": "@ + profile.host@ + " ("@ + decimal(profile.local_port as nat) + ":"@
            + decimal(profile.remote_port as nat) + ")"@,
{
}

/// The panel below the tree has room exactly where a mode has something to show.
pub proof fn law_when_the_panel_shows(mode: Mode, h: u16)
    requires
        call_ensures(panel_height, (&mode,), h),
    ensures
        mode is Normal || mode is Filter ==> h == 0,
        !(mode is Normal) && !(mode is Filter) ==> h == 15,
{
}

/// The hint below the form says what Enter does: it goes on to the next field,
/// and in the last one it submits.
pub proof fn law_the_hint_says_what_enter_does(app: AppState, out: &'static str)
    requires
        call_ensures(form_hint, (&app,), out),
    ensures
        app.input_field == InputField::Name ==> out@
            == "  Tab: next field | Enter: submit | Esc: cancel"@,
        app.input_field != InputField::Name ==> out@
            == "  Tab: next field | Enter: next field | Esc: cancel"@,
{
    let fields = fields_of(app.input_asks_host);
    assert(fields.last() == InputField::Name);
}

/// Cells are seen as what they are.
pub proof fn law_cells_are_seen_as_what_they_are(c: RowCells)
    ensures
        c@.label == c.label@,
        c@.status == c.status@,
        c@.tone == c.tone,
        c@.detail == c.detail@,
        c@.reconnects == c.reconnects@,
        c@.is_machine == c.is_machine,
{
}

/// The title of the form names its machine.
pub proof fn law_the_title_of_the_form(app: AppState, out: String)
    requires
        call_ensures(form_title, (&app,), out),
    ensures
        out@ == " New forward on "@ + app.input_host@ + " "@,
{
}

/// Every row of a tree has its cells, at its own place. A machine whose watcher
/// does not answer shows as failed, and one whose watcher does shows how its
/// connection is.
pub proof fn law_the_tree_goes_by_who_lives<P: Processes>(
    app: AppState,
    out: Seq<RowCellsView>,
    asked: Seq<(u32, bool)>,
    asked_after: Seq<(u32, bool)>,
    i: int,
)
    requires
        draws::<P>(app, out, asked, asked_after),
        app.rows@ == tree_rows(app.machines@, app.expanded@),
        0 <= i < app.rows@.len(),
    ensures
        out.len() == app.rows@.len(),
        app.rows@[i] is Machine <==> out[i].is_machine,
        app.rows@[i] is Machine ==> {
            let m = app.machines@[app.rows@[i]->Machine_0 as int];
            &&& m.session is None ==> out[i].tone == Tone::Idle
            &&& m.session is Some && !P::said((m.session->0).watcher_pid, true) ==> out[i].tone
                == Tone::Bad
            &&& m.session is Some && !P::said((m.session->0).watcher_pid, false)
                && (m.session->0).status == SessionStatus::Connected ==> out[i].tone == Tone::Good
        },
{
    let (alive, now) = choose|alive: Seq<bool>, now: Timestamp|
        answers::<P>(watchers_of(app), alive) && asked_after == asked + questions(
            watchers_of(app),
            alive,
        ) && clock_read(now) && out == #[trigger] table_of(app, app.rows@, alive, now);
    let rows = app.rows@;
    assert(app.machines.len() == app.machines@.len());
    assert(watchers_of(app).len() == rows.len());
    assert forall|k: int| 0 <= k < rows.len() implies cells_of(
        app,
        #[trigger] rows[k],
        alive[k],
        now,
    ) is Some by {
        law_rows_point_into_the_tree(app.machines@, app.expanded@, k);
    }
    law_every_row_is_in_the_table(app, rows, alive, now, i);
    law_the_table_asks_about_each_watcher::<P>(app, alive, i);
    law_rows_point_into_the_tree(app.machines@, app.expanded@, i);
}

/// The titles of the boxes say what they hold, and how many machines.
pub proof fn law_the_boxes_have_titles(app: AppState, out: Vec<TreeBox>, i: int)
    requires
        call_ensures(boxes, (&app,), out),
        0 <= i < out@.len(),
    ensures
        ({
            let b = out@[i];
            let n = decimal(machine_count(app.rows@.subrange(b.from as int, b.to as int)));
            &&& i == 1 ==> b.title@ == " hosts · "@ + n + " "@
            &&& i == 0 && app.rows@.len() > 0 && is_live_row(app, app.rows@[0]) ==> b.title@
                == " sessions · "@ + n + " "@
            &&& i == 0 && app.rows@.len() > 0 && !is_live_row(app, app.rows@[0]) ==> b.title@
                == " hosts · "@ + n + " "@
        }),
{
    reveal_strlit(" hosts · ");
    reveal_strlit(" sessions · ");
    reveal_strlit(" ");
    reveal_strlit("hosts");
    reveal_strlit("sessions");
    reveal_strlit(" · ");
    assert(" "@ + "hosts"@ + " · "@ =~= " hosts · "@);
    assert(" "@ + "sessions"@ + " · "@ =~= " sessions · "@);
    lemma_split(app, app.rows@);
}

}
