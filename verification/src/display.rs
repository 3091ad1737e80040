//! What the listing commands print.

use crate::process::{answers, ask_all, questions, Processes};
use crate::state::{ForwardState, ForwardStatus};
use crate::text::{concat2, concat3, concat4, concat5, dec, decimal, views};
use crate::time::{age_text, clock_read, format_age, Timestamp};
use vstd::prelude::*;
use vstd::string::*;

verus! {

/// One row of the table of forwards.
#[derive(Debug)]
pub struct TableRow {
    /// Name, host, ports, status, uptime, reconnects and process ids.
    pub cells: Vec<String>,
    /// What the status cell is coloured by.
    pub status: ForwardStatus,
}

/// The status that is shown: a forward that nobody watches has failed.
pub open spec fn shown_status(state: ForwardState, alive: bool) -> ForwardStatus {
    if alive {
        state.status
    } else {
        ForwardStatus::Failed
    }
}

/// The process ids of a forward's watcher and master.
pub open spec fn pids_text(watcher: u32, ssh: Option<u32>) -> Seq<char> {
    match ssh {
        Some(pid) => "w:"@ + decimal(watcher as nat) + " s:"@ + decimal(pid as nat),
        None => "w:"@ + decimal(watcher as nat),
    }
}

/// The cells of a forward's row, seen at `now`.
pub open spec fn row_cells(state: ForwardState, alive: bool, now: Timestamp) -> Seq<Seq<char>> {
    seq![
        state.name@,
        state.host@,
        decimal(state.local_port as nat) + ":"@ + decimal(state.remote_port as nat),
        shown_status(state, alive).word(),
        if alive {
            age_text(now, state.started_at)
        } else {
            "-"@
        },
        decimal(state.reconnect_count as nat),
        if alive {
            pids_text(state.watcher_pid, state.ssh_pid)
        } else {
            "-"@
        },
    ]
}

/// The row of a forward, given whether its watcher is alive and what time it is.
pub fn table_row(state: &ForwardState, alive: bool, now: Timestamp) -> (row: TableRow)
    ensures
        views(row.cells@) == row_cells(*state, alive, now),
        row.status == shown_status(*state, alive),
{
    let status = if alive {
        state.status
    } else {
        ForwardStatus::Failed
    };
    let uptime = if alive {
        format_age(now, state.started_at)
    } else {
        "-".to_owned()
    };
    let watcher = dec(state.watcher_pid as u64);
    let pids = if alive {
        match state.ssh_pid {
            Some(pid) => concat4("w:", watcher.as_str(), " s:", dec(pid as u64).as_str()),
            None => concat2("w:", watcher.as_str()),
        }
    } else {
        "-".to_owned()
    };
    let mut cells: Vec<String> = Vec::new();
    cells.push(state.name.clone());
    cells.push(state.host.clone());
    cells.push(
        concat3(dec(state.local_port as u64).as_str(), ":", dec(state.remote_port as u64).as_str()),
    );
    cells.push(status.text().to_owned());
    cells.push(uptime);
    cells.push(dec(state.reconnect_count as u64));
    cells.push(pids);
    assert(views(cells@) =~= row_cells(*state, alive, now));
    TableRow { cells, status }
}

/// Whether `row` shows `state` at some time, given whether its watcher is alive.
pub open spec fn shows_state(state: ForwardState, alive: bool, row: TableRow) -> bool {
    exists|now: Timestamp|
        clock_read(now) && views(row.cells@) == #[trigger] row_cells(state, alive, now)
            && row.status == shown_status(state, alive)
}

/// Whether `rows` show `states`, one each, given which watchers are alive.
pub open spec fn shows_states(
    states: Seq<ForwardState>,
    alive: Seq<bool>,
    rows: Seq<TableRow>,
) -> bool {
    &&& rows.len() == states.len()
    &&& alive.len() == states.len()
    &&& forall|i: int|
        0 <= i < states.len() ==> shows_state(states[i], alive[i], #[trigger] rows[i])
}

/// The watchers of forwards.
pub open spec fn watchers_of(states: Seq<ForwardState>) -> Seq<Option<u32>> {
    Seq::new(states.len(), |i: int| Some(states[i].watcher_pid))
}

/// Whether `rows` show `states`, going by what was answered about the watcher of
/// each.
pub open spec fn tabulates<P: Processes>(
    states: Seq<ForwardState>,
    rows: Seq<TableRow>,
    asked: Seq<(u32, bool)>,
    asked_after: Seq<(u32, bool)>,
) -> bool {
    exists|alive: Seq<bool>|
        answers::<P>(watchers_of(states), alive) && asked_after == asked + questions(
            watchers_of(states),
            alive,
        ) && #[trigger] shows_states(states, alive, rows)
}

/// The rows of the table of forwards, as things stand.
pub fn forwards_table<P: Processes>(states: &[ForwardState], procs: &mut P) -> (rows: Vec<TableRow>)
    ensures
        tabulates::<P>(states@, rows@, old(procs).asked(), final(procs).asked()),
{
    let mut pids: Vec<Option<u32>> = Vec::new();
    let mut j: usize = 0;
    while j < states.len()
        invariant
            j <= states@.len(),
            pids@ == watchers_of(states@).take(j as int),
        decreases states@.len() - j,
    {
        pids.push(Some(states[j].watcher_pid));
        assert(pids@ =~= watchers_of(states@).take(j + 1));
        j += 1;
    }
    assert(pids@ =~= watchers_of(states@));
    let alive = ask_all(&pids, procs);
    let mut rows: Vec<TableRow> = Vec::new();
    let mut i: usize = 0;
    while i < states.len()
        invariant
            i <= states@.len(),
            alive@.len() == states@.len(),
            rows@.len() == i,
            forall|k: int|
                0 <= k < i ==> shows_state(states@[k], alive@[k], #[trigger] rows@[k]),
        decreases states@.len() - i,
    {
        let now = crate::time::now();
        let row = table_row(&states[i], alive[i], now);
        assert(shows_state(states@[i as int], alive@[i as int], row)) by {
            assert(views(row.cells@) == row_cells(states@[i as int], alive@[i as int], now));
        }
        rows.push(row);
        i += 1;
    }
    assert(shows_states(states@, alive@, rows@));
    rows
}

/// The line for a forward that was started, after its mark.
pub fn started_line(name: &str, host: &str, local_port: u16, remote_port: u16) -> (out: String)
    ensures
        out@ == name@ + " ("@ + decimal(local_port as nat) + ":"@ + decimal(remote_port as nat)
            + " via "@ + host@ + ")"@,
{
    let ports = concat5(
        name,
        " (",
        dec(local_port as u64).as_str(),
        ":",
        dec(remote_port as u64).as_str(),
    );
    concat4(ports.as_str(), " via ", host, ")")
}

/// The line for a profile that was saved, after its mark.
pub fn saved_line(
    name: &str,
    host: &str,
    local_port: u16,
    remote_host: &str,
    remote_port: u16,
) -> (out: String)
    ensures
        out@ == "profile '"@ + name@ + "' ("@ + decimal(local_port as nat) + ":"@ + remote_host@
            + ":"@ + decimal(remote_port as nat) + " via "@ + host@ + ")"@,
{
    let first = concat5("profile '", name, "' (", dec(local_port as u64).as_str(), ":");
    let second = concat4(
        first.as_str(),
        remote_host,
        ":",
        dec(remote_port as u64).as_str(),
    );
    concat4(second.as_str(), " via ", host, ")")
}

/// A row tells of its own forward: name, host, both ports, how often it was
/// reconnected, and while its watcher lives how it does, since when, and which
/// processes serve it. Without a watcher it has failed, and the rest is moot.
pub proof fn law_a_row_tells_of_its_forward(
    state: ForwardState,
    alive: bool,
    now: Timestamp,
    row: TableRow,
)
    requires
        call_ensures(table_row, (&state, alive, now), row),
    ensures
        row.cells@.len() == 7,
        row.cells@[0]@ == state.name@,
        row.cells@[1]@ == state.host@,
        row.cells@[2]@ == decimal(state.local_port as nat) + ":"@ + decimal(
            state.remote_port as nat,
        ),
        row.cells@[5]@ == decimal(state.reconnect_count as nat),
        alive ==> row.status == state.status,
        alive ==> row.cells@[4]@ == age_text(now, state.started_at),
        alive && state.ssh_pid is None ==> row.cells@[6]@ == "w:"@ + decimal(
            state.watcher_pid as nat,
        ),
        alive && state.ssh_pid is Some ==> row.cells@[6]@ == "w:"@ + decimal(
            state.watcher_pid as nat,
        ) + " s:"@ + decimal(state.ssh_pid->0 as nat),
        !alive ==> row.status == ForwardStatus::Failed && row.cells@[4]@ == "-"@ && row.cells@[6]@
            == "-"@,
        row.status == ForwardStatus::Running ==> row.cells@[3]@ == "running"@,
        row.status == ForwardStatus::Reconnecting ==> row.cells@[3]@ == "reconnecting"@,
        row.status == ForwardStatus::Failed ==> row.cells@[3]@ == "failed"@,
        row.status == ForwardStatus::Stopped ==> row.cells@[3]@ == "stopped"@,
{
    let v = views(row.cells@);
    assert(v.len() == row.cells@.len());
    assert(forall|i: int| 0 <= i < v.len() ==> v[i] == (#[trigger] row.cells@[i])@);
}

/// The listing has one row for each forward, in order, and whether its watcher
/// lives was asked about that very watcher.
pub proof fn law_the_listing_asks_about_each_watcher<P: Processes>(
    states: Seq<ForwardState>,
    alive: Seq<bool>,
    rows: Seq<TableRow>,
    i: int,
)
    requires
        answers::<P>(watchers_of(states), alive),
        shows_states(states, alive, rows),
        0 <= i < states.len(),
    ensures
        rows.len() == states.len(),
        P::said(states[i].watcher_pid, alive[i]),
        views(rows[i].cells@)[0] == states[i].name@,
        !alive[i] ==> rows[i].status == ForwardStatus::Failed,
        alive[i] ==> rows[i].status == states[i].status,
{
    let pids = watchers_of(states);
    assert(pids[i] == Some(states[i].watcher_pid));
    assert(alive[i] == alive[i]);
    assert(shows_state(states[i], alive[i], rows[i]));
}

/// What is said of a start names the forward, its ports and its machine; what is
/// said of a saved profile names those, and the remote host.
pub proof fn law_lines_name_what_was_done(
    name: &str,
    host: &str,
    local: u16,
    remote_host: &str,
    remote: u16,
    started: String,
    saved: String,
)
    requires
        call_ensures(started_line, (name, host, local, remote), started),
        call_ensures(saved_line, (name, host, local, remote_host, remote), saved),
    ensures
        started@ == name@ + " ("@ + decimal(local as nat) + ":"@ + decimal(remote as nat)
            + " via "@ + host@ + ")"@,
        saved@ == "profile '"@ + name@ + "' ("@ + decimal(local as nat) + ":"@ + remote_host@
            + ":"@ + decimal(remote as nat) + " via "@ + host@ + ")"@,
{
}

/// The listing has one row for each forward, in order. One whose watcher answers
/// is shown as it is, and one whose watcher does not has failed.
pub proof fn law_the_listing_goes_by_who_lives<P: Processes>(
    states: Seq<ForwardState>,
    rows: Seq<TableRow>,
    asked: Seq<(u32, bool)>,
    asked_after: Seq<(u32, bool)>,
    i: int,
)
    requires
        tabulates::<P>(states, rows, asked, asked_after),
        0 <= i < states.len(),
    ensures
        rows.len() == states.len(),
        views(rows[i].cells@)[0] == states[i].name@,
        views(rows[i].cells@)[1] == states[i].host@,
        !P::said(states[i].watcher_pid, false) ==> rows[i].status == states[i].status,
        !P::said(states[i].watcher_pid, true) ==> rows[i].status == ForwardStatus::Failed,
{
    let alive = choose|alive: Seq<bool>|
        answers::<P>(watchers_of(states), alive) && asked_after == asked + questions(
            watchers_of(states),
            alive,
        ) && #[trigger] shows_states(states, alive, rows);
    law_the_listing_asks_about_each_watcher::<P>(states, alive, rows, i);
    assert(shows_state(states[i], alive[i], rows[i]));
}

}
