//! The machine/forward tree: model, flattening, and selection.
//!
//! This decides *what* is on screen, and where the cursor stands. How the rows
//! are painted is decided elsewhere.

use crate::hosts::HostSet;
use crate::names::{
    find_named, has_name, lemma_filter_keeps_distinct, lemma_position_points, position, Named,
};
use crate::order::{
    lemma_lex_total, lemma_sort_keeps_distinct, lemma_sort_keeps_elements,
    lemma_text_key_injective, lex_le, sort_stably, stably_sorted, str_before, text_key, text_lt,
    Keyed,
};
use crate::session::types::{clone_forwards, ForwardObs, SessionState, SessionView};
use crate::text::{contains_str, lowercase, occurs_in, str_eq, to_lowercase, views};
use vstd::prelude::*;
use vstd::string::*;

verus! {

/// Where a machine row came from. Also the sort key: live sessions first, then
/// hosts you have profiles for, then the rest of `~/.ssh/config`.
#[derive(Debug, Clone, Copy, PartialEq, Eq, Structural)]
pub enum MachineSource {
    Live,
    Profile,
    SshConfig,
}

impl MachineSource {
    /// Place in the order of sources.
    pub open spec fn rank(self) -> int {
        match self {
            MachineSource::Live => 0,
            MachineSource::Profile => 1,
            MachineSource::SshConfig => 2,
        }
    }

    fn place(self) -> (r: u8)
        ensures
            r == self.rank(),
    {
        match self {
            MachineSource::Live => 0,
            MachineSource::Profile => 1,
            MachineSource::SshConfig => 2,
        }
    }
}

/// Which machines the tree lists. `[tui] machine_source` in config.toml.
#[derive(Debug, Clone, Copy, PartialEq, Eq, Structural)]
pub enum MachineListMode {
    /// Every host in ~/.ssh/config, plus profile hosts and live sessions.
    AllHosts,
    /// Hosts with a live session or a saved profile.
    Configured,
    /// Hosts with a live session only.
    Live,
}

impl Default for MachineListMode {
    fn default() -> (m: Self)
        ensures
            m == MachineListMode::AllHosts,
    {
        MachineListMode::AllHosts
    }
}

impl MachineListMode {
    /// The mode that comes next.
    pub open spec fn next(self) -> Self {
        match self {
            MachineListMode::AllHosts => MachineListMode::Configured,
            MachineListMode::Configured => MachineListMode::Live,
            MachineListMode::Live => MachineListMode::AllHosts,
        }
    }

    /// The mode that comes next.
    pub fn cycle(self) -> (m: Self)
        ensures
            m == self.next(),
    {
        match self {
            MachineListMode::AllHosts => MachineListMode::Configured,
            MachineListMode::Configured => MachineListMode::Live,
            MachineListMode::Live => MachineListMode::AllHosts,
        }
    }

    /// What the dashboard calls the mode.
    pub open spec fn name(self) -> Seq<char> {
        match self {
            MachineListMode::AllHosts => "all hosts"@,
            MachineListMode::Configured => "configured"@,
            MachineListMode::Live => "live only"@,
        }
    }

    /// What the dashboard calls the mode.
    pub fn label(self) -> (out: &'static str)
        ensures
            out@ == self.name(),
    {
        match self {
            MachineListMode::AllHosts => "all hosts",
            MachineListMode::Configured => "configured",
            MachineListMode::Live => "live only",
        }
    }
}

/// A machine of the tree.
#[derive(Debug)]
pub struct MachineRow {
    pub host: String,
    /// `None` means idle: no session for this host.
    pub session: Option<SessionState>,
    pub forwards: Vec<ForwardObs>,
    pub source: MachineSource,
}

/// What a machine row holds.
#[verifier::ext_equal]
pub struct MachineView {
    pub host: Seq<char>,
    pub session: Option<SessionView>,
    pub forwards: Seq<ForwardObs>,
    pub source: MachineSource,
}

/// What a session holds, where there is one.
pub open spec fn session_view(session: Option<SessionState>) -> Option<SessionView> {
    match session {
        Some(s) => Some(s@),
        None => None,
    }
}

impl View for MachineRow {
    type V = MachineView;

    open spec fn view(&self) -> MachineView {
        MachineView {
            host: self.host@,
            session: session_view(self.session),
            forwards: self.forwards@,
            source: self.source,
        }
    }
}

impl Clone for MachineRow {
    fn clone(&self) -> (r: Self)
        ensures
            r@ == self@,
    {
        MachineRow {
            host: self.host.clone(),
            session: match &self.session {
                Some(s) => Some(s.clone()),
                None => None,
            },
            forwards: clone_forwards(&self.forwards),
            source: self.source,
        }
    }
}

impl MachineRow {
    /// Whether the machine has a session.
    pub fn is_live(&self) -> (r: bool)
        ensures
            r == (self.session is Some),
    {
        self.session.is_some()
    }
}

impl Named for MachineRow {
    open spec fn named(&self) -> Seq<char> {
        self.host@
    }

    fn is_named(&self, name: &str) -> (r: bool) {
        str_eq(self.host.as_str(), name)
    }
}

impl Keyed for MachineRow {
    open spec fn key(&self) -> Seq<int> {
        seq![self.source.rank()] + text_key(self.host@)
    }

    fn before(&self, other: &Self) -> (r: bool) {
        let (a, b) = (self.source.place(), other.source.place());
        proof {
            let (x, y) = (self.key(), other.key());
            assert(x.drop_first() =~= text_key(self.host@));
            assert(y.drop_first() =~= text_key(other.host@));
        }
        if a == b {
            str_before(self.host.as_str(), other.host.as_str())
        } else {
            a < b
        }
    }
}

/// One line of the flattened tree. Indices point into the machine list.
#[derive(Debug, Clone, Copy, PartialEq, Eq, Structural)]
pub enum Row {
    Machine(usize),
    Forward(usize, usize),
}

/// A selection that survives a refresh, keyed by identity rather than position.
#[derive(Debug, PartialEq, Eq)]
pub enum Sel {
    Machine(String),
    /// (host, forward name)
    Forward(String, String),
}

impl Clone for Sel {
    fn clone(&self) -> (r: Self)
        ensures
            r == *self,
    {
        match self {
            Sel::Machine(h) => Sel::Machine(h.clone()),
            Sel::Forward(h, n) => Sel::Forward(h.clone(), n.clone()),
        }
    }
}

/// What a selection names.
pub enum SelView {
    Machine(Seq<char>),
    Forward(Seq<char>, Seq<char>),
}

impl View for Sel {
    type V = SelView;

    open spec fn view(&self) -> SelView {
        match self {
            Sel::Machine(h) => SelView::Machine(h@),
            Sel::Forward(h, n) => SelView::Forward(h@, n@),
        }
    }
}

impl SelView {
    /// The machine that is selected, or holds what is.
    pub open spec fn host(self) -> Seq<char> {
        match self {
            SelView::Machine(h) => h,
            SelView::Forward(h, _) => h,
        }
    }
}

/// What a selection names, where there is one.
pub open spec fn sel_view(sel: Option<Sel>) -> Option<SelView> {
    match sel {
        Some(s) => Some(s@),
        None => None,
    }
}

impl Sel {
    /// The machine that is selected, or holds what is.
    pub fn host(&self) -> (h: &str)
        ensures
            h@ == self@.host(),
    {
        match self {
            Sel::Machine(h) => h.as_str(),
            Sel::Forward(h, _) => h.as_str(),
        }
    }

    /// Whether two selections name the same thing.
    pub fn same(&self, other: &Sel) -> (r: bool)
        ensures
            r == (self@ == other@),
    {
        match (self, other) {
            (Sel::Machine(a), Sel::Machine(b)) => str_eq(a.as_str(), b.as_str()),
            (Sel::Forward(a, x), Sel::Forward(b, y)) => str_eq(a.as_str(), b.as_str()) && str_eq(
                x.as_str(),
                y.as_str(),
            ),
            _ => false,
        }
    }
}

/// Whether `needle` occurs in one of `names`.
pub open spec fn occurs_in_some(names: Seq<Seq<char>>, needle: Seq<char>) -> bool {
    exists|i: int| 0 <= i < names.len() && occurs_in(#[trigger] names[i], needle)
}

/// Whether a filter shows a machine, all texts being in lowercase already: the
/// filter occurs in its host, or in the name of one of its forwards.
pub fn shows(needle: &str, host: &str, names: &Vec<String>) -> (r: bool)
    ensures
        r == (occurs_in(host@, needle@) || occurs_in_some(views(names@), needle@)),
{
    if contains_str(host, needle) {
        return true;
    }
    let mut i: usize = 0;
    while i < names.len()
        invariant
            i <= names@.len(),
            !occurs_in(host@, needle@),
            forall|k: int| 0 <= k < i ==> !occurs_in(#[trigger] views(names@)[k], needle@),
        decreases names@.len() - i,
    {
        if contains_str(names[i].as_str(), needle) {
            assert(occurs_in(views(names@)[i as int], needle@));
            return true;
        }
        i += 1;
    }
    false
}

/// The names of forwards, in lowercase.
pub open spec fn lowered(forwards: Seq<ForwardObs>) -> Seq<Seq<char>> {
    Seq::new(forwards.len(), |i: int| lowercase(forwards[i].name@))
}

/// Picks the machines that a filter shows. Case does not matter, and an empty
/// filter shows everything.
pub open spec fn shown_by(filter: Seq<char>) -> spec_fn(MachineRow) -> bool {
    |row: MachineRow|
        filter.len() == 0 || occurs_in(lowercase(row.host@), lowercase(filter)) || occurs_in_some(
            lowered(row.forwards@),
            lowercase(filter),
        )
}

fn matches_filter(row: &MachineRow, filter: &str) -> (r: bool)
    ensures
        r == shown_by(filter@)(*row),
{
    proof {
        reveal_strlit("");
        assert(filter@.len() == 0 ==> filter@ =~= ""@);
    }
    if str_eq(filter, "") {
        return true;
    }
    let needle = to_lowercase(filter);
    let host = to_lowercase(row.host.as_str());
    let mut names: Vec<String> = Vec::new();
    let mut i: usize = 0;
    while i < row.forwards.len()
        invariant
            i <= row.forwards@.len(),
            views(names@) == lowered(row.forwards@).take(i as int),
        decreases row.forwards@.len() - i,
    {
        let ghost before = names@;
        let name = to_lowercase(row.forwards[i].name.as_str());
        let ghost text = name@;
        names.push(name);
        i += 1;
        proof {
            assert(views(names@) =~= views(before).push(text));
            assert(lowered(row.forwards@).take(i as int) =~= lowered(row.forwards@).take(
                i - 1,
            ).push(text));
        }
    }
    assert(lowered(row.forwards@).take(i as int) =~= lowered(row.forwards@));
    shows(needle.as_str(), host.as_str(), &names)
}

/// The row of a session.
pub open spec fn live_row(session: SessionView) -> MachineView {
    MachineView {
        host: session.host@,
        session: Some(session),
        forwards: session.forwards,
        source: MachineSource::Live,
    }
}

/// The row of a host without a session.
pub open spec fn idle_row(host: Seq<char>, source: MachineSource) -> MachineView {
    MachineView { host, session: None, forwards: seq![], source }
}

/// Whether some row is that of `host`.
pub open spec fn lists(rows: Seq<MachineView>, host: Seq<char>) -> bool {
    exists|i: int| 0 <= i < rows.len() && (#[trigger] rows[i]).host == host
}

/// The rows of the sessions, one for each host: that of its first session.
pub open spec fn session_rows(sessions: Seq<SessionView>) -> Seq<MachineView>
    decreases sessions.len(),
{
    if sessions.len() == 0 {
        seq![]
    } else {
        let before = session_rows(sessions.drop_last());
        if lists(before, sessions.last().host@) {
            before
        } else {
            before.push(live_row(sessions.last()))
        }
    }
}

/// `rows` with a row for each of `hosts` that has none yet.
pub open spec fn with_hosts(
    rows: Seq<MachineView>,
    hosts: Seq<Seq<char>>,
    source: MachineSource,
) -> Seq<MachineView>
    decreases hosts.len(),
{
    if hosts.len() == 0 {
        rows
    } else {
        let before = with_hosts(rows, hosts.drop_last(), source);
        if lists(before, hosts.last()) {
            before
        } else {
            before.push(idle_row(hosts.last(), source))
        }
    }
}

/// Every machine that a mode lists, strongest source first: a host appears with
/// the first source that names it.
pub open spec fn gathered(
    sessions: Seq<SessionView>,
    profile_hosts: Seq<Seq<char>>,
    ssh_hosts: Seq<Seq<char>>,
    mode: MachineListMode,
) -> Seq<MachineView> {
    let live = session_rows(sessions);
    let known = if mode == MachineListMode::Live {
        live
    } else {
        with_hosts(live, profile_hosts, MachineSource::Profile)
    };
    if mode == MachineListMode::AllHosts {
        with_hosts(known, ssh_hosts, MachineSource::SshConfig)
    } else {
        known
    }
}

proof fn lemma_lists(rows: Seq<MachineRow>, host: Seq<char>)
    ensures
        lists(views(rows), host) == has_name(rows, host),
{
    if has_name(rows, host) {
        let i = choose|i: int| 0 <= i < rows.len() && #[trigger] rows[i].named() == host;
        assert(views(rows)[i].host == host);
    }
    if lists(views(rows), host) {
        let i = choose|i: int| 0 <= i < views(rows).len() && (#[trigger] views(rows)[i]).host == host;
        assert(rows[i].named() == host);
    }
}

fn add_hosts(rows: &mut Vec<MachineRow>, hosts: &[String], source: MachineSource)
    ensures
        views(final(rows)@) == with_hosts(views(old(rows)@), views(hosts@), source),
{
    let ghost start = views(rows@);
    let mut i: usize = 0;
    assert(views(hosts@).take(0) =~= seq![]);
    while i < hosts.len()
        invariant
            i <= hosts@.len(),
            views(rows@) == with_hosts(start, views(hosts@).take(i as int), source),
        decreases hosts@.len() - i,
    {
        proof {
            lemma_lists(rows@, hosts@[i as int]@);
            assert(views(hosts@).take(i + 1).drop_last() =~= views(hosts@).take(i as int));
        }
        match find_named(rows.as_slice(), hosts[i].as_str()) {
            Some(_) => {},
            None => {
                let ghost before = rows@;
                let row = MachineRow {
                    host: hosts[i].clone(),
                    session: None,
                    forwards: Vec::new(),
                    source,
                };
                let ghost added = row;
                rows.push(row);
                proof {
                    assert(added@.forwards =~= seq![]);
                    assert(views(rows@) =~= views(before).push(added@));
                }
            },
        }
        i += 1;
    }
    assert(views(hosts@).take(i as int) =~= views(hosts@));
}

fn keep_shown(rows: &mut Vec<MachineRow>, filter: &str)
    ensures
        final(rows)@ == old(rows)@.filter(shown_by(filter@)),
{
    let ghost start = rows@;
    let ghost keep = shown_by(filter@);
    let ghost mut seen: int = 0;
    let mut i: usize = 0;
    proof {
        assert(start.take(0) =~= seq![]);
        assert(Seq::<MachineRow>::empty().filter(keep) =~= seq![]) by {
            reveal(Seq::filter);
        }
        assert(rows@ =~= start.take(0).filter(keep) + start.skip(0));
    }
    while i < rows.len()
        invariant
            0 <= seen <= start.len(),
            i <= rows@.len(),
            keep == shown_by(filter@),
            i == start.take(seen).filter(keep).len(),
            rows@ == start.take(seen).filter(keep) + start.skip(seen),
        decreases start.len() - seen,
    {
        let ghost done = start.take(seen).filter(keep);
        proof {
            assert(rows@.len() == done.len() + (start.len() - seen));
            assert(rows@[i as int] == start[seen]);
            assert(start.take(seen + 1) =~= start.take(seen).push(start[seen]));
            start.take(seen).lemma_filter_push(start[seen], keep);
        }
        if matches_filter(&rows[i], filter) {
            i += 1;
            assert(rows@ =~= done.push(start[seen]) + start.skip(seen + 1));
        } else {
            rows.remove(i);
            assert(rows@ =~= done + start.skip(seen + 1));
        }
        proof {
            seen = seen + 1;
        }
    }
    proof {
        assert(seen == start.len());
        assert(start.take(seen) =~= start);
        assert(start.skip(seen) =~= seq![]);
        assert(rows@ =~= start.filter(keep));
    }
}

/// What the tree lists: the gathered machines that the filter shows, in order.
pub open spec fn tree_of(
    sessions: Seq<SessionView>,
    profile_hosts: Seq<Seq<char>>,
    ssh_hosts: Seq<Seq<char>>,
    mode: MachineListMode,
    filter: Seq<char>,
    out: Seq<MachineRow>,
) -> bool {
    exists|rows: Seq<MachineRow>|
        #[trigger] views(rows) == gathered(sessions, profile_hosts, ssh_hosts, mode)
            && stably_sorted(rows.filter(shown_by(filter)), out)
}

/// Assemble the machine list from live sessions, saved profiles, and ssh config.
///
/// A host appears at most once, taking the strongest provenance it qualifies
/// for: a host that is both configured and live is `Live`.
pub fn build_machines(
    sessions: Vec<SessionState>,
    profile_hosts: &[String],
    ssh_hosts: &[String],
    mode: MachineListMode,
    filter: &str,
) -> (out: Vec<MachineRow>)
    ensures
        tree_of(
            views(sessions@),
            views(profile_hosts@),
            views(ssh_hosts@),
            mode,
            filter@,
            out@,
        ),
        listed_once(views(out@)),
{
    let mut left = sessions;
    let ghost given = left@;
    let ghost mut seen: int = 0;
    let mut rows: Vec<MachineRow> = Vec::new();
    assert(views(rows@) =~= session_rows(views(given).take(0)));
    assert(given.skip(0) =~= given);
    while left.len() > 0
        invariant
            0 <= seen <= given.len(),
            left@ == given.skip(seen),
            views(rows@) == session_rows(views(given).take(seen)),
        decreases left@.len(),
    {
        let ghost before = rows@;
        let session = left.remove(0);
        proof {
            assert(session == given[seen]);
            lemma_lists(rows@, session.host@);
            assert(views(given).take(seen + 1).drop_last() =~= views(given).take(seen));
            assert(views(given).take(seen + 1).last() == session@);
            assert(left@ =~= given.skip(seen + 1));
        }
        match find_named(rows.as_slice(), session.host.as_str()) {
            Some(_) => {},
            None => {
                let ghost s = session;
                let row = MachineRow {
                    host: session.host.clone(),
                    forwards: clone_forwards(&session.forwards),
                    session: Some(session),
                    source: MachineSource::Live,
                };
                let ghost added = row;
                rows.push(row);
                proof {
                    assert(added@ == live_row(s@));
                    assert(views(rows@) =~= views(before).push(added@));
                }
            },
        }
        proof {
            seen = seen + 1;
        }
    }
    assert(views(given).take(seen) =~= views(given));
    if mode != MachineListMode::Live {
        add_hosts(&mut rows, profile_hosts, MachineSource::Profile);
    }
    if mode == MachineListMode::AllHosts {
        add_hosts(&mut rows, ssh_hosts, MachineSource::SshConfig);
    }
    let ghost all = rows@;
    assert(views(all) == gathered(views(given), views(profile_hosts@), views(ssh_hosts@), mode));
    keep_shown(&mut rows, filter);
    sort_stably(&mut rows);
    proof {
        let (s, p, h) = (views(given), views(profile_hosts@), views(ssh_hosts@));
        assert(tree_of(s, p, h, mode, filter@, rows@));
        assert forall|i: int, j: int| 0 <= i < j < rows@.len() implies (
        #[trigger] views(rows@)[i]).host != (#[trigger] views(rows@)[j]).host by {
            law_the_list_is_ordered_by_source(s, p, h, mode, filter@, rows@, i, j);
        }
    }
    rows
}

/// The hosts that have a session.
pub open spec fn live_hosts(machines: Seq<MachineRow>) -> Set<Seq<char>> {
    Set::new(
        |h: Seq<char>|
            exists|i: int|
                0 <= i < machines.len() && (#[trigger] machines[i]).session is Some
                    && machines[i].host@ == h,
    )
}

/// Fold state for a fresh tree: live machines open, everything else closed, so
/// the dashboard opens showing exactly what is running.
pub fn default_expanded(machines: &[MachineRow]) -> (out: HostSet)
    ensures
        out@ == live_hosts(machines@),
        out.well_formed(),
{
    let mut out = HostSet::new();
    let mut i: usize = 0;
    assert(out@ =~= live_hosts(machines@.take(0)));
    while i < machines.len()
        invariant
            i <= machines@.len(),
            out.well_formed(),
            out@ == live_hosts(machines@.take(i as int)),
        decreases machines@.len() - i,
    {
        let ghost before = out@;
        if machines[i].is_live() {
            out.insert(machines[i].host.clone());
        }
        proof {
            lemma_live_hosts(machines@, i as int);
            assert(out@ =~= live_hosts(machines@.take(i + 1)));
        }
        i += 1;
    }
    assert(machines@.take(i as int) =~= machines@);
    out
}

proof fn lemma_live_hosts(machines: Seq<MachineRow>, n: int)
    requires
        0 <= n < machines.len(),
    ensures
        live_hosts(machines.take(n + 1)) == (if machines[n].session is Some {
            live_hosts(machines.take(n)).insert(machines[n].host@)
        } else {
            live_hosts(machines.take(n))
        }),
{
    let (a, b) = (machines.take(n), machines.take(n + 1));
    assert forall|h: Seq<char>| #[trigger]
        live_hosts(b).contains(h) == (live_hosts(a).contains(h) || (machines[n].session is Some
            && machines[n].host@ == h)) by {
        if live_hosts(b).contains(h) {
            let i = choose|i: int|
                0 <= i < b.len() && (#[trigger] b[i]).session is Some && b[i].host@ == h;
            if i < n {
                assert(a[i].session is Some);
            }
        }
        if live_hosts(a).contains(h) {
            let i = choose|i: int|
                0 <= i < a.len() && (#[trigger] a[i]).session is Some && a[i].host@ == h;
            assert(b[i].session is Some);
        }
        if machines[n].session is Some && machines[n].host@ == h {
            assert(b[n].session is Some);
        }
    }
    let want = if machines[n].session is Some {
        live_hosts(a).insert(machines[n].host@)
    } else {
        live_hosts(a)
    };
    assert(live_hosts(b) =~= want);
}

/// The rows of one machine's forwards.
pub open spec fn forward_rows(mi: int, count: nat) -> Seq<Row> {
    Seq::new(count, |fi: int| Row::Forward(mi as usize, fi as usize))
}

/// The rows of one machine: its own, and those of its forwards when it is
/// unfolded.
pub open spec fn machine_rows(machine: MachineRow, mi: int, expanded: Set<Seq<char>>) -> Seq<Row> {
    seq![Row::Machine(mi as usize)] + if expanded.contains(machine.host@) {
        forward_rows(mi, machine.forwards@.len())
    } else {
        seq![]
    }
}

/// The rows of the whole tree, top to bottom.
pub open spec fn tree_rows(machines: Seq<MachineRow>, expanded: Set<Seq<char>>) -> Seq<Row>
    decreases machines.len(),
{
    if machines.len() == 0 {
        seq![]
    } else {
        tree_rows(machines.drop_last(), expanded) + machine_rows(
            machines.last(),
            machines.len() - 1,
            expanded,
        )
    }
}

/// Project the tree onto the flat row list that the table renders.
pub fn flatten(machines: &[MachineRow], expanded: &HostSet) -> (rows: Vec<Row>)
    ensures
        rows@ == tree_rows(machines@, expanded@),
{
    let mut rows: Vec<Row> = Vec::new();
    let mut mi: usize = 0;
    assert(machines@.take(0) =~= seq![]);
    while mi < machines.len()
        invariant
            mi <= machines@.len(),
            rows@ == tree_rows(machines@.take(mi as int), expanded@),
        decreases machines@.len() - mi,
    {
        let ghost before = rows@;
        let machine = &machines[mi];
        rows.push(Row::Machine(mi));
        let ghost own = rows@;
        if expanded.contains(machine.host.as_str()) {
            let count: usize = machine.forwards.len();
            let mut fi: usize = 0;
            assert(rows@ =~= own + forward_rows(mi as int, 0));
            while fi < count
                invariant
                    fi <= count,
                    rows@ == own + forward_rows(mi as int, fi as nat),
                decreases count - fi,
            {
                rows.push(Row::Forward(mi, fi));
                fi += 1;
                assert(rows@ =~= own + forward_rows(mi as int, fi as nat));
            }
        }
        proof {
            assert(rows@ =~= before + machine_rows(*machine, mi as int, expanded@));
            assert(machines@.take(mi + 1).drop_last() =~= machines@.take(mi as int));
        }
        mi += 1;
    }
    assert(machines@.take(mi as int) =~= machines@);
    rows
}

/// What is selected at a flat index.
pub open spec fn selected_at(rows: Seq<Row>, machines: Seq<MachineRow>, idx: int) -> Option<
    SelView,
> {
    if 0 <= idx < rows.len() {
        match rows[idx] {
            Row::Machine(mi) => if mi < machines.len() {
                Some(SelView::Machine(machines[mi as int].host@))
            } else {
                None
            },
            Row::Forward(mi, fi) => if mi < machines.len() && fi < machines[mi as int].forwards@.len() {
                Some(
                    SelView::Forward(
                        machines[mi as int].host@,
                        machines[mi as int].forwards@[fi as int].name@,
                    ),
                )
            } else {
                None
            },
        }
    } else {
        None
    }
}

/// What is selected at a flat index.
pub fn sel_at(rows: &[Row], machines: &[MachineRow], idx: usize) -> (r: Option<Sel>)
    ensures
        sel_view(r) == selected_at(rows@, machines@, idx as int),
{
    if idx >= rows.len() {
        return None;
    }
    match rows[idx] {
        Row::Machine(mi) => {
            if mi >= machines.len() {
                return None;
            }
            Some(Sel::Machine(machines[mi].host.clone()))
        },
        Row::Forward(mi, fi) => {
            if mi >= machines.len() || fi >= machines[mi].forwards.len() {
                return None;
            }
            let machine = &machines[mi];
            Some(Sel::Forward(machine.host.clone(), machine.forwards[fi].name.clone()))
        },
    }
}

/// Whether the row at `i` is what `sel` names.
pub open spec fn names_row(
    rows: Seq<Row>,
    machines: Seq<MachineRow>,
    sel: SelView,
    i: int,
) -> bool {
    0 <= i < rows.len() && selected_at(rows, machines, i) == Some(sel)
}

/// Where a selection is found after a rebuild: at the first row that it names;
/// else at the row of its machine; else at the top.
pub open spec fn resolves_to(
    rows: Seq<Row>,
    machines: Seq<MachineRow>,
    sel: SelView,
    at: int,
) -> bool {
    let home = Row::Machine(position(machines, sel.host()) as usize);
    if exists|i: int| names_row(rows, machines, sel, i) {
        &&& names_row(rows, machines, sel, at)
        &&& forall|k: int| 0 <= k < at ==> !names_row(rows, machines, sel, k)
    } else if has_name(machines, sel.host()) && rows.contains(home) {
        &&& 0 <= at < rows.len()
        &&& rows[at] == home
        &&& forall|k: int| 0 <= k < at ==> #[trigger] rows[k] != home
    } else {
        at == 0
    }
}

/// Find `sel` again after a rebuild.
///
/// Falls back to the parent machine when a forward has disappeared, which is
/// what happens every time you stop one, and clamps if even the machine is
/// gone. Without this a refresh would fling the cursor around.
pub fn resolve(rows: &[Row], machines: &[MachineRow], sel: &Sel) -> (at: usize)
    ensures
        resolves_to(rows@, machines@, sel@, at as int),
{
    let mut i: usize = 0;
    while i < rows.len()
        invariant
            i <= rows@.len(),
            forall|k: int| 0 <= k < i ==> !names_row(rows@, machines@, sel@, k),
        decreases rows@.len() - i,
    {
        match sel_at(rows, machines, i) {
            Some(found) => {
                if found.same(sel) {
                    assert(names_row(rows@, machines@, sel@, i as int));
                    return i;
                }
            },
            None => {},
        }
        i += 1;
    }
    // The forward vanished: fall back to the machine it lived under rather than
    // jumping to the top.
    match find_named(machines, sel.host()) {
        Some(mi) => {
            let mut j: usize = 0;
            while j < rows.len()
                invariant
                    j <= rows@.len(),
                    mi == position(machines@, sel@.host()),
                    has_name(machines@, sel@.host()),
                    forall|k: int| !names_row(rows@, machines@, sel@, k),
                    forall|k: int| 0 <= k < j ==> #[trigger] rows@[k] != Row::Machine(mi),
                decreases rows@.len() - j,
            {
                if rows[j] == Row::Machine(mi) {
                    assert(rows@.contains(rows@[j as int]));
                    return j;
                }
                j += 1;
            }
        },
        None => {},
    }
    0
}

/// Cycling three times comes back to where it started, by way of the other two.
pub proof fn law_the_modes_cycle(m: MachineListMode)
    ensures
        m.next().next().next() == m,
        m.next() != m,
        m.next().next() != m,
{
}

/// Every row of the tree points at a machine, or at a forward of an unfolded
/// machine.
pub proof fn law_rows_point_into_the_tree(
    machines: Seq<MachineRow>,
    expanded: Set<Seq<char>>,
    i: int,
)
    requires
        machines.len() <= usize::MAX,
        0 <= i < tree_rows(machines, expanded).len(),
    ensures
        match tree_rows(machines, expanded)[i] {
            Row::Machine(mi) => mi < machines.len(),
            Row::Forward(mi, fi) => mi < machines.len() && fi < machines[mi as int].forwards@.len()
                && expanded.contains(machines[mi as int].host@),
        },
        selected_at(tree_rows(machines, expanded), machines, i) is Some,
    decreases machines.len(),
{
    let rest = machines.drop_last();
    let above = tree_rows(rest, expanded);
    let all = tree_rows(machines, expanded);
    if i < above.len() {
        law_rows_point_into_the_tree(rest, expanded, i);
        assert(all[i] == above[i]);
    } else {
        let mine = machine_rows(machines.last(), machines.len() - 1, expanded);
        assert(all[i] == mine[i - above.len()]);
    }
}

/// Where a machine's own row stands.
proof fn lemma_machine_row(machines: Seq<MachineRow>, expanded: Set<Seq<char>>, mi: int) -> (at:
    int)
    requires
        0 <= mi < machines.len() <= usize::MAX,
    ensures
        0 <= at < tree_rows(machines, expanded).len(),
        tree_rows(machines, expanded)[at] == Row::Machine(mi as usize),
    decreases machines.len(),
{
    let rest = machines.drop_last();
    if mi < rest.len() {
        let at = lemma_machine_row(rest, expanded, mi);
        assert(tree_rows(machines, expanded)[at] == tree_rows(rest, expanded)[at]);
        at
    } else {
        let at = tree_rows(rest, expanded).len() as int;
        assert(tree_rows(machines, expanded)[at] == machine_rows(
            machines.last(),
            machines.len() - 1,
            expanded,
        )[0]);
        at
    }
}

/// Where the row of a forward of an unfolded machine stands.
proof fn lemma_forward_row(
    machines: Seq<MachineRow>,
    expanded: Set<Seq<char>>,
    mi: int,
    fi: int,
) -> (at: int)
    requires
        0 <= mi < machines.len() <= usize::MAX,
        0 <= fi < machines[mi].forwards@.len(),
        expanded.contains(machines[mi].host@),
    ensures
        0 <= at < tree_rows(machines, expanded).len(),
        tree_rows(machines, expanded)[at] == Row::Forward(mi as usize, fi as usize),
    decreases machines.len(),
{
    let rest = machines.drop_last();
    if mi < rest.len() {
        let at = lemma_forward_row(rest, expanded, mi, fi);
        assert(tree_rows(machines, expanded)[at] == tree_rows(rest, expanded)[at]);
        at
    } else {
        let above = tree_rows(rest, expanded);
        let at = above.len() + 1 + fi;
        let mine = machine_rows(machines.last(), machines.len() - 1, expanded);
        assert(mine[1 + fi] == forward_rows(mi, machines[mi].forwards@.len())[fi]);
        assert(tree_rows(machines, expanded)[at] == mine[1 + fi]);
        at
    }
}

/// Whether the tree shows what a selection names.
pub open spec fn visible(
    machines: Seq<MachineRow>,
    expanded: Set<Seq<char>>,
    sel: SelView,
) -> bool {
    match sel {
        SelView::Machine(host) => has_name(machines, host),
        SelView::Forward(host, name) => expanded.contains(host) && exists|mi: int, fi: int|
            0 <= mi < machines.len() && 0 <= fi < machines[mi].forwards@.len()
                && machines[mi].host@ == host && #[trigger] machines[mi].forwards@[fi].name@ == name,
    }
}

/// The cursor follows what it stands on, wherever a rebuild moved it. When that
/// is gone it goes to the machine, and when that is gone too, to the top.
pub proof fn law_the_cursor_follows_its_selection(
    machines: Seq<MachineRow>,
    expanded: Set<Seq<char>>,
    sel: SelView,
    at: int,
)
    requires
        machines.len() <= usize::MAX,
        forall|mi: int|
            0 <= mi < machines.len() ==> (#[trigger] machines[mi]).forwards@.len() <= usize::MAX,
        resolves_to(tree_rows(machines, expanded), machines, sel, at),
    ensures
        visible(machines, expanded, sel) ==> selected_at(
            tree_rows(machines, expanded),
            machines,
            at,
        ) == Some(sel),
        !visible(machines, expanded, sel) && has_name(machines, sel.host()) ==> selected_at(
            tree_rows(machines, expanded),
            machines,
            at,
        ) == Some(SelView::Machine(sel.host())),
        !has_name(machines, sel.host()) ==> at == 0,
{
    let rows = tree_rows(machines, expanded);
    let host = sel.host();
    lemma_position_points(machines, host);
    let mi = position(machines, host);
    if has_name(machines, host) {
        let i = lemma_machine_row(machines, expanded, mi);
        assert(rows.contains(rows[i]));
        assert(selected_at(rows, machines, i) == Some(SelView::Machine(host)));
        if sel is Machine {
            assert(names_row(rows, machines, sel, i));
        }
    }
    if visible(machines, expanded, sel) && sel is Forward {
        let (m, f) = choose|m: int, f: int|
            0 <= m < machines.len() && 0 <= f < machines[m].forwards@.len() && machines[m].host@
                == host && #[trigger] machines[m].forwards@[f].name@ == sel->Forward_1;
        let i = lemma_forward_row(machines, expanded, m, f);
        assert(machines[m].forwards@.len() <= usize::MAX);
        assert(names_row(rows, machines, sel, i));
    }
    if exists|i: int| names_row(rows, machines, sel, i) {
        let i = choose|i: int| names_row(rows, machines, sel, i);
        law_rows_point_into_the_tree(machines, expanded, i);
        match rows[i] {
            Row::Machine(m) => {
                assert(machines[m as int].named() == host);
            },
            Row::Forward(m, f) => {
                assert(machines[m as int].named() == host);
                assert(machines[m as int].forwards@[f as int].name@ == sel->Forward_1);
            },
        }
        assert(visible(machines, expanded, sel));
    }
}

/// Whether no host has two rows.
pub open spec fn listed_once(rows: Seq<MachineView>) -> bool {
    forall|i: int, j: int|
        0 <= i < j < rows.len() ==> (#[trigger] rows[i]).host != (#[trigger] rows[j]).host
}

proof fn lemma_with_hosts(rows: Seq<MachineView>, hosts: Seq<Seq<char>>, source: MachineSource)
    requires
        listed_once(rows),
    ensures
        listed_once(with_hosts(rows, hosts, source)),
        with_hosts(rows, hosts, source).len() >= rows.len(),
        with_hosts(rows, hosts, source).take(rows.len() as int) == rows,
        forall|i: int|
            rows.len() <= i < with_hosts(rows, hosts, source).len() ==> (#[trigger] with_hosts(
                rows,
                hosts,
                source,
            )[i]).source == source,
        forall|i: int|
            0 <= i < hosts.len() ==> lists(with_hosts(rows, hosts, source), #[trigger] hosts[i]),
    decreases hosts.len(),
{
    let all = with_hosts(rows, hosts, source);
    if hosts.len() == 0 {
        assert(all.take(rows.len() as int) =~= rows);
    } else {
        let rest = hosts.drop_last();
        lemma_with_hosts(rows, rest, source);
        let before = with_hosts(rows, rest, source);
        assert(all.take(rows.len() as int) =~= before.take(rows.len() as int));
        assert forall|h: Seq<char>| lists(before, h) implies lists(all, h) by {
            let i = choose|i: int| 0 <= i < before.len() && (#[trigger] before[i]).host == h;
            assert(all[i].host == h);
        }
        assert forall|i: int| 0 <= i < hosts.len() implies lists(all, #[trigger] hosts[i]) by {
            if i < rest.len() {
                assert(rest[i] == hosts[i]);
            } else if !lists(before, hosts[i]) {
                assert(all[before.len() as int].host == hosts[i]);
            }
        }
    }
}

/// Whether this is the first of the sessions of its host.
pub open spec fn is_first_session(sessions: Seq<SessionView>, i: int) -> bool {
    &&& 0 <= i < sessions.len()
    &&& forall|k: int| 0 <= k < i ==> (#[trigger] sessions[k]).host@ != sessions[i].host@
}

proof fn lemma_session_rows(sessions: Seq<SessionView>)
    ensures
        listed_once(session_rows(sessions)),
        forall|i: int|
            0 <= i < session_rows(sessions).len() ==> (#[trigger] session_rows(sessions)[i]).source
                == MachineSource::Live,
        forall|i: int|
            0 <= i < sessions.len() ==> lists(
                session_rows(sessions),
                (#[trigger] sessions[i]).host@,
            ),
        forall|i: int| #[trigger]
            is_first_session(sessions, i) ==> session_rows(sessions).contains(live_row(sessions[i])),
        forall|h: Seq<char>| #[trigger]
            lists(session_rows(sessions), h) ==> exists|i: int|
                0 <= i < sessions.len() && (#[trigger] sessions[i]).host@ == h,
    decreases sessions.len(),
{
    if sessions.len() > 0 {
        let rest = sessions.drop_last();
        lemma_session_rows(rest);
        let before = session_rows(rest);
        let all = session_rows(sessions);
        let last = sessions.last();
        assert forall|h: Seq<char>| #[trigger] lists(before, h) implies lists(all, h) by {
            let i = choose|i: int| 0 <= i < before.len() && (#[trigger] before[i]).host == h;
            assert(all[i].host == h);
        }
        if !lists(before, last.host@) {
            assert(all[before.len() as int] == live_row(last));
            assert(lists(all, last.host@));
        }
        assert forall|i: int| 0 <= i < sessions.len() implies lists(
            all,
            (#[trigger] sessions[i]).host@,
        ) by {
            if i < rest.len() {
                assert(lists(before, rest[i].host@));
            }
        }
        assert forall|h: Seq<char>| #[trigger] lists(all, h) implies exists|i: int|
            0 <= i < sessions.len() && (#[trigger] sessions[i]).host@ == h by {
            let k = choose|k: int| 0 <= k < all.len() && (#[trigger] all[k]).host == h;
            if k < before.len() {
                assert(before[k].host == h);
                assert(lists(before, h));
                let i = choose|i: int| 0 <= i < rest.len() && (#[trigger] rest[i]).host@ == h;
                assert(sessions[i].host@ == h);
            } else {
                assert(sessions[sessions.len() - 1].host@ == h);
            }
        }
        assert forall|i: int| #[trigger] is_first_session(sessions, i) implies all.contains(
            live_row(sessions[i]),
        ) by {
            if i < rest.len() {
                assert forall|k: int| 0 <= k < i implies (#[trigger] rest[k]).host@
                    != rest[i].host@ by {
                    assert(rest[k] == sessions[k]);
                }
                assert(is_first_session(rest, i));
                let k = choose|k: int| 0 <= k < before.len() && before[k] == live_row(rest[i]);
                assert(all[k] == live_row(sessions[i]));
            } else if lists(before, last.host@) {
                let k = choose|k: int| 0 <= k < rest.len() && (#[trigger] rest[k]).host@ == last.host@;
                assert(sessions[k].host@ == last.host@);
            }
        }
    }
}

/// A host is listed at most once, whatever names it. The rows of the sessions
/// come first, every session's host has one, and it shows the first session of
/// that host. Every host that the mode asks for is there.
pub proof fn law_a_host_is_listed_once(
    sessions: Seq<SessionView>,
    profile_hosts: Seq<Seq<char>>,
    ssh_hosts: Seq<Seq<char>>,
    mode: MachineListMode,
)
    ensures
        listed_once(gathered(sessions, profile_hosts, ssh_hosts, mode)),
        session_rows(sessions).is_prefix_of(gathered(sessions, profile_hosts, ssh_hosts, mode)),
        forall|i: int|
            0 <= i < sessions.len() ==> lists(
                session_rows(sessions),
                (#[trigger] sessions[i]).host@,
            ),
        forall|i: int| #[trigger]
            is_first_session(sessions, i) ==> session_rows(sessions).contains(live_row(sessions[i])),
        mode != MachineListMode::Live ==> forall|i: int|
            0 <= i < profile_hosts.len() ==> lists(
                gathered(sessions, profile_hosts, ssh_hosts, mode),
                #[trigger] profile_hosts[i],
            ),
        mode == MachineListMode::AllHosts ==> forall|i: int|
            0 <= i < ssh_hosts.len() ==> lists(
                gathered(sessions, profile_hosts, ssh_hosts, mode),
                #[trigger] ssh_hosts[i],
            ),
{
    let live = session_rows(sessions);
    lemma_session_rows(sessions);
    let all = gathered(sessions, profile_hosts, ssh_hosts, mode);
    lemma_with_hosts(live, profile_hosts, MachineSource::Profile);
    let known = with_hosts(live, profile_hosts, MachineSource::Profile);
    lemma_with_hosts(known, ssh_hosts, MachineSource::SshConfig);
    let full = with_hosts(known, ssh_hosts, MachineSource::SshConfig);
    assert forall|h: Seq<char>| lists(known, h) implies lists(full, h) by {
        let i = choose|i: int| 0 <= i < known.len() && (#[trigger] known[i]).host == h;
        assert(full.take(known.len() as int)[i] == full[i]);
        assert(full[i].host == h);
    }
    assert forall|i: int| 0 <= i < live.len() implies #[trigger] all[i] == live[i] by {
        assert(known.take(live.len() as int)[i] == known[i]);
        assert(full.take(known.len() as int)[i] == full[i]);
    }
    assert(all.take(live.len() as int) =~= live);
}

/// The modes narrow the list: one lists sessions only, another also the hosts of
/// profiles, and neither a host that is merely configured for ssh.
pub proof fn law_modes_narrow_the_list(
    sessions: Seq<SessionView>,
    profile_hosts: Seq<Seq<char>>,
    ssh_hosts: Seq<Seq<char>>,
    mode: MachineListMode,
    i: int,
)
    requires
        0 <= i < gathered(sessions, profile_hosts, ssh_hosts, mode).len(),
    ensures
        mode == MachineListMode::Live ==> gathered(
            sessions,
            profile_hosts,
            ssh_hosts,
            mode,
        )[i].source == MachineSource::Live,
        mode == MachineListMode::Configured ==> gathered(
            sessions,
            profile_hosts,
            ssh_hosts,
            mode,
        )[i].source != MachineSource::SshConfig,
{
    let live = session_rows(sessions);
    lemma_session_rows(sessions);
    lemma_with_hosts(live, profile_hosts, MachineSource::Profile);
    let known = with_hosts(live, profile_hosts, MachineSource::Profile);
    if mode == MachineListMode::Configured && i < live.len() {
        assert(known.take(live.len() as int)[i] == known[i]);
    }
}

/// In the finished list no host appears twice, and live machines stand above
/// those of profiles, which stand above the rest.
pub proof fn law_the_list_is_ordered_by_source(
    sessions: Seq<SessionView>,
    profile_hosts: Seq<Seq<char>>,
    ssh_hosts: Seq<Seq<char>>,
    mode: MachineListMode,
    filter: Seq<char>,
    out: Seq<MachineRow>,
    i: int,
    j: int,
)
    requires
        tree_of(sessions, profile_hosts, ssh_hosts, mode, filter, out),
        0 <= i < j < out.len(),
    ensures
        out[i].source.rank() <= out[j].source.rank(),
        out[i].host@ != out[j].host@,
{
    let rows = choose|rows: Seq<MachineRow>|
        #[trigger] views(rows) == gathered(sessions, profile_hosts, ssh_hosts, mode)
            && stably_sorted(rows.filter(shown_by(filter)), out);
    law_a_host_is_listed_once(sessions, profile_hosts, ssh_hosts, mode);
    assert forall|a: int, b: int| 0 <= a < b < rows.len() implies #[trigger] rows[a].named()
        != #[trigger] rows[b].named() by {
        assert(views(rows)[a].host != views(rows)[b].host);
    }
    let kept = rows.filter(shown_by(filter));
    lemma_filter_keeps_distinct(rows, shown_by(filter));
    assert forall|a: int, b: int| 0 <= a < b < kept.len() implies #[trigger] kept[a].key()
        != #[trigger] kept[b].key() by {
        assert(kept[a].named() != kept[b].named());
        assert(kept[a].key().drop_first() =~= text_key(kept[a].host@));
        assert(kept[b].key().drop_first() =~= text_key(kept[b].host@));
        if kept[a].key() == kept[b].key() {
            lemma_text_key_injective(kept[a].host@, kept[b].host@);
        }
    }
    lemma_sort_keeps_distinct(kept, out);
    let (x, y) = (out[i].key(), out[j].key());
    assert(lex_le(x, y));
    assert(x[0] == out[i].source.rank() && y[0] == out[j].source.rank());
    lemma_sort_keeps_elements(kept, out, out[i]);
    lemma_sort_keeps_elements(kept, out, out[j]);
    assert(out.contains(out[i]) && out.contains(out[j]));
    let p = choose|p: int| 0 <= p < kept.len() && kept[p] == out[i];
    let q = choose|q: int| 0 <= q < kept.len() && kept[q] == out[j];
    if out[i].host@ == out[j].host@ {
        assert(kept[p].named() == kept[q].named());
        assert(p == q);
        assert(out[i].key() == out[j].key());
    }
}

/// Every machine has a row of its own, folded or not, and an unfolded one has a
/// row for each of its forwards.
pub proof fn law_the_tree_shows_everything_unfolded(
    machines: Seq<MachineRow>,
    expanded: Set<Seq<char>>,
    mi: int,
    fi: int,
)
    requires
        0 <= mi < machines.len() <= usize::MAX,
    ensures
        tree_rows(machines, expanded).contains(Row::Machine(mi as usize)),
        expanded.contains(machines[mi].host@) && 0 <= fi < machines[mi].forwards@.len()
            ==> tree_rows(machines, expanded).contains(Row::Forward(mi as usize, fi as usize)),
{
    let at = lemma_machine_row(machines, expanded, mi);
    assert(tree_rows(machines, expanded)[at] == Row::Machine(mi as usize));
    if expanded.contains(machines[mi].host@) && 0 <= fi < machines[mi].forwards@.len() {
        let below = lemma_forward_row(machines, expanded, mi, fi);
        assert(tree_rows(machines, expanded)[below] == Row::Forward(mi as usize, fi as usize));
    }
}

/// An empty filter hides nothing.
pub proof fn law_an_empty_filter_hides_nothing(rows: Seq<MachineRow>)
    ensures
        rows.filter(shown_by(seq![])) == rows,
    decreases rows.len(),
{
    let keep = shown_by(Seq::<char>::empty());
    if rows.len() == 0 {
        reveal(Seq::filter);
        assert(rows.filter(keep) =~= rows);
    } else {
        let rest = rows.drop_last();
        law_an_empty_filter_hides_nothing(rest);
        assert(rows =~= rest.push(rows.last()));
        rest.lemma_filter_push(rows.last(), keep);
    }
}

proof fn lemma_session_row_source(sessions: Seq<SessionView>, k: int) -> (s: int)
    requires
        0 <= k < session_rows(sessions).len(),
    ensures
        0 <= s < sessions.len(),
        is_first_session(sessions, s),
        session_rows(sessions)[k] == live_row(sessions[s]),
    decreases sessions.len(),
{
    let rest = sessions.drop_last();
    let before = session_rows(rest);
    let last = sessions.len() - 1;
    if k < before.len() {
        let s = lemma_session_row_source(rest, k);
        assert forall|m: int| 0 <= m < s implies (#[trigger] sessions[m]).host@
            != sessions[s].host@ by {
            assert(rest[m] == sessions[m] && rest[s] == sessions[s]);
        }
        s
    } else {
        lemma_session_rows(rest);
        assert forall|m: int| 0 <= m < last implies (#[trigger] sessions[m]).host@
            != sessions[last].host@ by {
            assert(rest[m] == sessions[m]);
            assert(lists(before, rest[m].host@));
        }
        last
    }
}

proof fn lemma_added_row_source(
    rows: Seq<MachineView>,
    hosts: Seq<Seq<char>>,
    source: MachineSource,
    k: int,
)
    requires
        0 <= k < with_hosts(rows, hosts, source).len(),
    ensures
        k < rows.len() ==> with_hosts(rows, hosts, source)[k] == rows[k],
        k >= rows.len() ==> hosts.contains(with_hosts(rows, hosts, source)[k].host)
            && with_hosts(rows, hosts, source)[k] == idle_row(
            with_hosts(rows, hosts, source)[k].host,
            source,
        ),
        with_hosts(rows, hosts, source).len() >= rows.len(),
    decreases hosts.len(),
{
    if hosts.len() > 0 {
        let rest = hosts.drop_last();
        let before = with_hosts(rows, rest, source);
        let all = with_hosts(rows, hosts, source);
        if before.len() > 0 {
            lemma_added_row_source(rows, rest, source, if k < before.len() {
                k
            } else {
                0
            });
        } else {
            lemma_added_len(rows, rest, source);
        }
        if k < before.len() {
            if k >= rows.len() {
                let i = choose|i: int| 0 <= i < rest.len() && rest[i] == before[k].host;
                assert(hosts[i] == before[k].host);
            }
        } else {
            assert(hosts[hosts.len() - 1] == all[k].host);
        }
    }
}

proof fn lemma_added_len(rows: Seq<MachineView>, hosts: Seq<Seq<char>>, source: MachineSource)
    ensures
        with_hosts(rows, hosts, source).len() >= rows.len(),
    decreases hosts.len(),
{
    if hosts.len() > 0 {
        lemma_added_len(rows, hosts.drop_last(), source);
    }
}

/// Whether `row` is that of the session `s`, which is the first of its host.
pub open spec fn is_row_of(row: MachineRow, sessions: Seq<SessionState>, s: int) -> bool {
    &&& 0 <= s < sessions.len()
    &&& row.host@ == sessions[s].host@
    &&& row.forwards@ == sessions[s].forwards@
    &&& row.session is Some
    &&& row.session->0@ == sessions[s]@
    &&& forall|m: int| 0 <= m < s ==> (#[trigger] sessions[m]).host@ != sessions[s].host@
}

/// Where a listed machine comes from: a live one shows its session and that
/// session's forwards, the others show none, and each is named by what its
/// source says. A mode lists no source that it leaves out.
pub proof fn law_where_a_machine_comes_from(
    sessions: Vec<SessionState>,
    profile_hosts: &[String],
    ssh_hosts: &[String],
    mode: MachineListMode,
    filter: &str,
    out: Vec<MachineRow>,
    k: int,
)
    requires
        call_ensures(build_machines, (sessions, profile_hosts, ssh_hosts, mode, filter), out),
        0 <= k < out@.len(),
    ensures
        out@[k].source == MachineSource::Live <==> out@[k].session is Some,
        out@[k].session is Some ==> exists|s: int| is_row_of(out@[k], sessions@, s),
        out@[k].session is None ==> out@[k].forwards@.len() == 0,
        out@[k].source == MachineSource::Profile ==> mode != MachineListMode::Live && exists|i: int|
            0 <= i < profile_hosts@.len() && (#[trigger] profile_hosts@[i])@ == out@[k].host@,
        out@[k].source == MachineSource::SshConfig ==> mode == MachineListMode::AllHosts && exists|
            i: int,
        |
            0 <= i < ssh_hosts@.len() && (#[trigger] ssh_hosts@[i])@ == out@[k].host@,
{
    let (sv, pv, hv) = (views(sessions@), views(profile_hosts@), views(ssh_hosts@));
    let rows = choose|rows: Seq<MachineRow>|
        #[trigger] views(rows) == gathered(sv, pv, hv, mode) && stably_sorted(
            rows.filter(shown_by(filter@)),
            out@,
        );
    let kept = rows.filter(shown_by(filter@));
    lemma_sort_keeps_elements(kept, out@, out@[k]);
    assert(out@.contains(out@[k]));
    rows.lemma_filter_contains_rev(shown_by(filter@), out@[k]);
    let r = choose|r: int| 0 <= r < rows.len() && rows[r] == out@[k];
    assert(views(rows)[r] == out@[k]@);
    let live = session_rows(sv);
    let known = with_hosts(live, pv, MachineSource::Profile);
    lemma_added_len(live, pv, MachineSource::Profile);
    let all = gathered(sv, pv, hv, mode);
    assert(views(rows).len() == rows.len());
    if mode == MachineListMode::AllHosts {
        lemma_added_row_source(known, hv, MachineSource::SshConfig, r);
    }
    if mode != MachineListMode::Live && r < known.len() {
        lemma_added_row_source(live, pv, MachineSource::Profile, r);
    }
    if r < live.len() {
        let s = lemma_session_row_source(sv, r);
        assert(all[r] == live_row(sv[s]));
        assert(sv[s] == sessions@[s]@);
        assert forall|m: int| 0 <= m < s implies (#[trigger] sessions@[m]).host@
            != sessions@[s].host@ by {
            assert(sv[m].host@ != sv[s].host@);
        }
        assert(is_row_of(out@[k], sessions@, s));
    } else if r < known.len() {
        let i = choose|i: int| 0 <= i < pv.len() && pv[i] == all[r].host;
        assert(profile_hosts@[i]@ == out@[k].host@);
    } else {
        let i = choose|i: int| 0 <= i < hv.len() && hv[i] == all[r].host;
        assert(ssh_hosts@[i]@ == out@[k].host@);
    }
}

pub(crate) proof fn lemma_kept_is_out(
    sessions: Seq<SessionView>,
    profile_hosts: Seq<Seq<char>>,
    ssh_hosts: Seq<Seq<char>>,
    mode: MachineListMode,
    out: Seq<MachineRow>,
    host: Seq<char>,
)
    requires
        tree_of(sessions, profile_hosts, ssh_hosts, mode, seq![], out),
        lists(gathered(sessions, profile_hosts, ssh_hosts, mode), host),
    ensures
        exists|k: int| 0 <= k < out.len() && (#[trigger] out[k]).host@ == host,
{
    let rows = choose|rows: Seq<MachineRow>|
        #[trigger] views(rows) == gathered(sessions, profile_hosts, ssh_hosts, mode)
            && stably_sorted(rows.filter(shown_by(seq![])), out);
    law_an_empty_filter_hides_nothing(rows);
    let all = views(rows);
    let r = choose|r: int| 0 <= r < all.len() && (#[trigger] all[r]).host == host;
    assert(rows[r].host@ == host);
    lemma_sort_keeps_elements(rows, out, rows[r]);
    assert(rows.contains(rows[r]));
    let k = choose|k: int| 0 <= k < out.len() && out[k] == rows[r];
    assert(out[k].host@ == host);
}

/// Without a filter every machine with a session is listed, in every mode;
/// those of profiles unless only live ones are; and those of ssh's
/// configuration when all are.
pub proof fn law_every_machine_is_listed(
    sessions: Vec<SessionState>,
    profile_hosts: &[String],
    ssh_hosts: &[String],
    mode: MachineListMode,
    filter: &str,
    out: Vec<MachineRow>,
    i: int,
)
    requires
        call_ensures(build_machines, (sessions, profile_hosts, ssh_hosts, mode, filter), out),
        filter@.len() == 0,
    ensures
        0 <= i < sessions@.len() ==> exists|k: int|
            0 <= k < out@.len() && (#[trigger] out@[k]).host@ == sessions@[i].host@,
        mode != MachineListMode::Live && 0 <= i < profile_hosts@.len() ==> exists|k: int|
            0 <= k < out@.len() && (#[trigger] out@[k]).host@ == profile_hosts@[i]@,
        mode == MachineListMode::AllHosts && 0 <= i < ssh_hosts@.len() ==> exists|k: int|
            0 <= k < out@.len() && (#[trigger] out@[k]).host@ == ssh_hosts@[i]@,
{
    let (sv, pv, hv) = (views(sessions@), views(profile_hosts@), views(ssh_hosts@));
    assert(filter@ =~= seq![]);
    law_a_host_is_listed_once(sv, pv, hv, mode);
    let all = gathered(sv, pv, hv, mode);
    if 0 <= i < sessions@.len() {
        let h = sessions@[i].host@;
        assert(sv[i].host@ == h);
        let live = session_rows(sv);
        let k = choose|k: int| 0 <= k < live.len() && (#[trigger] live[k]).host == h;
        assert(all.subrange(0, live.len() as int)[k] == all[k]);
        assert(all[k].host == h);
        assert(lists(all, h));
        lemma_kept_is_out(sv, pv, hv, mode, out@, h);
    }
    if mode != MachineListMode::Live && 0 <= i < profile_hosts@.len() {
        assert(pv[i] == profile_hosts@[i]@);
        lemma_kept_is_out(sv, pv, hv, mode, out@, pv[i]);
    }
    if mode == MachineListMode::AllHosts && 0 <= i < ssh_hosts@.len() {
        assert(hv[i] == ssh_hosts@[i]@);
        lemma_kept_is_out(sv, pv, hv, mode, out@, hv[i]);
    }
}

/// A filter keeps exactly the machines whose host, or one of whose forwards, has
/// it in its name, in whatever case.
pub proof fn law_a_filter_goes_by_names(filter: Seq<char>, row: MachineRow)
    requires
        filter.len() > 0,
    ensures
        shown_by(filter)(row) <==> (occurs_in(lowercase(row.host@), lowercase(filter)) || exists|
            i: int,
        |
            0 <= i < row.forwards@.len() && occurs_in(
                lowercase((#[trigger] row.forwards@[i]).name@),
                lowercase(filter),
            )),
{
    let needle = lowercase(filter);
    let names = lowered(row.forwards@);
    if occurs_in_some(names, needle) {
        let i = choose|i: int| 0 <= i < names.len() && occurs_in(#[trigger] names[i], needle);
        assert(occurs_in(lowercase(row.forwards@[i].name@), needle));
    }
    if exists|i: int|
        0 <= i < row.forwards@.len() && occurs_in(
            lowercase((#[trigger] row.forwards@[i]).name@),
            needle,
        ) {
        let i = choose|i: int|
            0 <= i < row.forwards@.len() && occurs_in(
                lowercase((#[trigger] row.forwards@[i]).name@),
                needle,
            );
        assert(occurs_in(names[i], needle));
    }
}

/// What a filter hides is not listed, and what it shows is: of two lists that
/// differ in the filter alone, the filtered one holds what it shows of the other.
pub proof fn law_a_filter_only_hides(
    sessions: Seq<SessionView>,
    profile_hosts: Seq<Seq<char>>,
    ssh_hosts: Seq<Seq<char>>,
    mode: MachineListMode,
    filter: Seq<char>,
    out: Seq<MachineRow>,
    k: int,
)
    requires
        tree_of(sessions, profile_hosts, ssh_hosts, mode, filter, out),
        filter.len() > 0,
        0 <= k < out.len(),
    ensures
        occurs_in(lowercase(out[k].host@), lowercase(filter)) || exists|i: int|
            0 <= i < out[k].forwards@.len() && occurs_in(
                lowercase((#[trigger] out[k].forwards@[i]).name@),
                lowercase(filter),
            ),
{
    let rows = choose|rows: Seq<MachineRow>|
        #[trigger] views(rows) == gathered(sessions, profile_hosts, ssh_hosts, mode)
            && stably_sorted(rows.filter(shown_by(filter)), out);
    let kept = rows.filter(shown_by(filter));
    lemma_sort_keeps_elements(kept, out, out[k]);
    assert(out.contains(out[k]));
    let r = choose|r: int| 0 <= r < kept.len() && kept[r] == out[k];
    rows.lemma_filter_pred(shown_by(filter), r);
    law_a_filter_goes_by_names(filter, out[k]);
}

/// Live machines stand first, then those of profiles, then the rest, and each
/// kind in the order of its hosts.
pub proof fn law_live_machines_stand_first(
    sessions: Seq<SessionView>,
    profile_hosts: Seq<Seq<char>>,
    ssh_hosts: Seq<Seq<char>>,
    mode: MachineListMode,
    filter: Seq<char>,
    out: Seq<MachineRow>,
    i: int,
    j: int,
)
    requires
        tree_of(sessions, profile_hosts, ssh_hosts, mode, filter, out),
        0 <= i < j < out.len(),
    ensures
        out[j].source == MachineSource::Live ==> out[i].source == MachineSource::Live,
        out[i].source == MachineSource::SshConfig ==> out[j].source == MachineSource::SshConfig,
        out[i].source == out[j].source ==> text_lt(out[i].host@, out[j].host@),
{
    law_the_list_is_ordered_by_source(
        sessions,
        profile_hosts,
        ssh_hosts,
        mode,
        filter,
        out,
        i,
        j,
    );
    let rows = choose|rows: Seq<MachineRow>|
        #[trigger] views(rows) == gathered(sessions, profile_hosts, ssh_hosts, mode)
            && stably_sorted(rows.filter(shown_by(filter)), out);
    let (x, y) = (out[i].key(), out[j].key());
    assert(lex_le(x, y));
    assert(x.drop_first() =~= text_key(out[i].host@));
    assert(y.drop_first() =~= text_key(out[j].host@));
    if out[i].source == out[j].source {
        assert(x[0] == y[0]);
        if !text_lt(out[i].host@, out[j].host@) {
            lemma_lex_total(text_key(out[i].host@), text_key(out[j].host@));
            lemma_text_key_injective(out[i].host@, out[j].host@);
        }
    }
}

/// A forward's row stands right below its machine's, or below the forward before
/// it; and the machines stand in the order of the list.
pub proof fn law_forwards_stand_below_their_machine(
    machines: &[MachineRow],
    expanded: &HostSet,
    rows: Vec<Row>,
    i: int,
)
    requires
        call_ensures(flatten, (machines, expanded), rows),
        machines@.len() <= usize::MAX,
        forall|m: int|
            0 <= m < machines@.len() ==> (#[trigger] machines@[m]).forwards@.len() <= usize::MAX,
        0 <= i < rows@.len(),
    ensures
        rows@[i] is Forward ==> i > 0 && expanded@.contains(
            machines@[rows@[i]->Forward_0 as int].host@,
        ) && rows@[i - 1] == (if rows@[i]->Forward_1 == 0 {
            Row::Machine(rows@[i]->Forward_0)
        } else {
            Row::Forward(rows@[i]->Forward_0, (rows@[i]->Forward_1 - 1) as usize)
        }),
        i == 0 ==> rows@[i] == Row::Machine(0),
        rows@[i] is Machine && i > 0 ==> rows@[i]->Machine_0 > 0 && (match rows@[i - 1] {
            Row::Machine(m) => m == rows@[i]->Machine_0 - 1 && (expanded@.contains(
                machines@[m as int].host@,
            ) ==> machines@[m as int].forwards@.len() == 0),
            Row::Forward(m, f) => m == rows@[i]->Machine_0 - 1 && f
                == machines@[m as int].forwards@.len() - 1,
        }),
{
    lemma_rows_in_order(machines@, expanded@, i);
}

proof fn lemma_rows_in_order(machines: Seq<MachineRow>, expanded: Set<Seq<char>>, i: int)
    requires
        machines.len() <= usize::MAX,
        forall|m: int|
            0 <= m < machines.len() ==> (#[trigger] machines[m]).forwards@.len() <= usize::MAX,
        0 <= i < tree_rows(machines, expanded).len(),
    ensures
        ({
            let rows = tree_rows(machines, expanded);
            &&& rows[i] is Forward ==> i > 0 && rows[i]->Forward_0 < machines.len()
                && expanded.contains(machines[rows[i]->Forward_0 as int].host@) && rows[i - 1]
                == (if rows[i]->Forward_1 == 0 {
                Row::Machine(rows[i]->Forward_0)
            } else {
                Row::Forward(rows[i]->Forward_0, (rows[i]->Forward_1 - 1) as usize)
            })
            &&& i == 0 ==> rows[i] == Row::Machine(0)
            &&& rows[i] is Machine && i > 0 ==> rows[i]->Machine_0 > 0 && (match rows[i - 1] {
                Row::Machine(m) => m == rows[i]->Machine_0 - 1 && (expanded.contains(
                    machines[m as int].host@,
                ) ==> machines[m as int].forwards@.len() == 0),
                Row::Forward(m, f) => m == rows[i]->Machine_0 - 1 && f
                    == machines[m as int].forwards@.len() - 1,
            })
        }),
    decreases machines.len(),
{
    let rest = machines.drop_last();
    let above = tree_rows(rest, expanded);
    let all = tree_rows(machines, expanded);
    let n = machines.len() - 1;
    let mine = machine_rows(machines.last(), n, expanded);
    assert forall|m: int| 0 <= m < rest.len() implies (#[trigger] rest[m]).forwards@.len()
        <= usize::MAX by {
        assert(rest[m] == machines[m]);
    }
    if i < above.len() {
        lemma_rows_in_order(rest, expanded, i);
        law_rows_point_into_the_tree(rest, expanded, i);
        assert(all[i] == above[i]);
        if i > 0 {
            law_rows_point_into_the_tree(rest, expanded, i - 1);
            assert(all[i - 1] == above[i - 1]);
        }
    } else {
        assert(machines[n].forwards@.len() <= usize::MAX);
        assert(all[i] == mine[i - above.len()]);
        if i > above.len() {
            assert(all[i - 1] == mine[i - 1 - above.len()]);
        } else if above.len() > 0 {
            assert(all[i - 1] == above[i - 1]);
            lemma_last_row(rest, expanded);
        } else if n > 0 {
            lemma_last_row(rest, expanded);
        }
    }
}

proof fn lemma_last_row(machines: Seq<MachineRow>, expanded: Set<Seq<char>>)
    requires
        0 < machines.len() <= usize::MAX,
        machines.last().forwards@.len() <= usize::MAX,
    ensures
        tree_rows(machines, expanded).len() > 0,
        match tree_rows(machines, expanded).last() {
            Row::Machine(m) => m == machines.len() - 1 && (expanded.contains(
                machines.last().host@,
            ) ==> machines.last().forwards@.len() == 0),
            Row::Forward(m, f) => m == machines.len() - 1 && f == machines.last().forwards@.len()
                - 1,
        },
{
    let all = tree_rows(machines, expanded);
    let mine = machine_rows(machines.last(), machines.len() - 1, expanded);
    assert(all.last() == mine.last());
}

/// At first exactly the machines that have a session are unfolded.
pub proof fn law_live_machines_start_unfolded(
    machines: &[MachineRow],
    out: HostSet,
    host: Seq<char>,
)
    requires
        call_ensures(default_expanded, (machines,), out),
    ensures
        out@.contains(host) <==> exists|i: int|
            0 <= i < machines@.len() && (#[trigger] machines@[i]).host@ == host
                && machines@[i].session is Some,
{
    if out@.contains(host) {
        let i = choose|i: int|
            0 <= i < machines@.len() && (#[trigger] machines@[i]).session is Some
                && machines@[i].host@ == host;
        assert(machines@[i].host@ == host);
    }
    if exists|i: int|
        0 <= i < machines@.len() && (#[trigger] machines@[i]).host@ == host
            && machines@[i].session is Some {
        let i = choose|i: int|
            0 <= i < machines@.len() && (#[trigger] machines@[i]).host@ == host
                && machines@[i].session is Some;
        assert(machines@[i].session is Some);
    }
}

/// A machine is seen with its own host, session, forwards and source.
pub proof fn law_a_machine_is_seen_whole(row: MachineRow)
    ensures
        row@.host == row.host@,
        row@.forwards == row.forwards@,
        row@.source == row.source,
        row.session is Some ==> row@.session == Some(row.session->0@),
        row.session is None ==> row@.session is None,
{
}

/// What the modes are called.
pub proof fn law_the_modes_have_names(mode: MachineListMode, out: &'static str)
    requires
        call_ensures(MachineListMode::label, (mode,), out),
    ensures
        mode == MachineListMode::AllHosts ==> out@ == "all hosts"@,
        mode == MachineListMode::Configured ==> out@ == "configured"@,
        mode == MachineListMode::Live ==> out@ == "live only"@,
{
}

/// A row names its machine, or its machine and its forward.
pub proof fn law_what_a_row_names(
    rows: &[Row],
    machines: &[MachineRow],
    idx: usize,
    r: Option<Sel>,
)
    requires
        call_ensures(sel_at, (rows, machines, idx), r),
        idx < rows@.len(),
    ensures
        rows@[idx as int] is Machine && rows@[idx as int]->Machine_0 < machines@.len() ==> r is Some
            && r->0 is Machine && r->0->Machine_0@
            == machines@[rows@[idx as int]->Machine_0 as int].host@,
        rows@[idx as int] is Forward && rows@[idx as int]->Forward_0 < machines@.len() ==> {
            let m = machines@[rows@[idx as int]->Forward_0 as int];
            let f = rows@[idx as int]->Forward_1 as int;
            f < m.forwards@.len() ==> r is Some && r->0 is Forward && r->0->Forward_0@ == m.host@
                && r->0->Forward_1@ == m.forwards@[f].name@
        },
{
}

}
