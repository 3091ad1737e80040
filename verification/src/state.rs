//! The flat per-forward view of sessions: what listings and scripts see.

use crate::commands::{restart_request, StartRequest};
use crate::error::{ErrorView, PfError, Result};
use crate::names::{find_named, has_name, lemma_position_points, lookup, position, Named};
use crate::order::{
    lemma_sort_keeps_elements, lex_le, sort_stably, stably_sorted, str_before, text_key, text_lt,
    Keyed,
};
use crate::session::store::list_states_in;
use crate::session::types::{AttachStatus, ForwardObs, SessionState, SessionStatus, SessionView};
use crate::text::str_eq;
use crate::time::Timestamp;
use vstd::prelude::*;
use vstd::string::*;

verus! {

/// What a listing says of a forward.
#[derive(Debug, Clone, Copy, PartialEq, Eq, Structural)]
pub enum ForwardStatus {
    Running,
    Reconnecting,
    Failed,
    Stopped,
}

impl ForwardStatus {
    /// The word for a status.
    pub open spec fn word(self) -> Seq<char> {
        match self {
            ForwardStatus::Running => "running"@,
            ForwardStatus::Reconnecting => "reconnecting"@,
            ForwardStatus::Failed => "failed"@,
            ForwardStatus::Stopped => "stopped"@,
        }
    }

    /// The word for a status.
    pub fn text(self) -> (out: &'static str)
        ensures
            out@ == self.word(),
    {
        match self {
            ForwardStatus::Running => "running",
            ForwardStatus::Reconnecting => "reconnecting",
            ForwardStatus::Failed => "failed",
            ForwardStatus::Stopped => "stopped",
        }
    }
}

/// One forward in a listing.
#[derive(Debug)]
pub struct ForwardState {
    pub name: String,
    pub host: String,
    pub local_port: u16,
    pub remote_port: u16,
    pub remote_host: String,
    pub watcher_pid: u32,
    /// The shared master is this forward's ssh process.
    pub ssh_pid: Option<u32>,
    pub status: ForwardStatus,
    pub started_at: Timestamp,
    pub reconnect_count: u32,
    pub auto_reconnect: bool,
    pub max_retries: u32,
    pub retry_delay: u64,
    pub max_retry_delay: u64,
}

impl Clone for ForwardState {
    fn clone(&self) -> (r: Self)
        ensures
            r == *self,
    {
        ForwardState {
            name: self.name.clone(),
            host: self.host.clone(),
            local_port: self.local_port,
            remote_port: self.remote_port,
            remote_host: self.remote_host.clone(),
            watcher_pid: self.watcher_pid,
            ssh_pid: self.ssh_pid,
            status: self.status,
            started_at: self.started_at,
            reconnect_count: self.reconnect_count,
            auto_reconnect: self.auto_reconnect,
            max_retries: self.max_retries,
            retry_delay: self.retry_delay,
            max_retry_delay: self.max_retry_delay,
        }
    }
}

impl Named for ForwardState {
    open spec fn named(&self) -> Seq<char> {
        self.name@
    }

    fn is_named(&self, name: &str) -> (r: bool) {
        str_eq(self.name.as_str(), name)
    }
}

impl Keyed for ForwardState {
    open spec fn key(&self) -> Seq<int> {
        text_key(self.name@)
    }

    fn before(&self, other: &Self) -> (r: bool) {
        str_before(self.name.as_str(), other.name.as_str())
    }
}

/// The bound on the backoff delay of a forward that records none, in seconds.
pub fn default_max_retry_delay() -> (d: u64)
    ensures
        d == crate::watcher::DEFAULT_MAX_DELAY,
{
    crate::watcher::DEFAULT_MAX_DELAY
}

/// What a listing says of a forward, given its session and its own attach: a
/// failure of either shows, and only an attached forward on a live connection
/// runs.
pub open spec fn flat_status(session: SessionStatus, attach: AttachStatus) -> ForwardStatus {
    if session == SessionStatus::Failed || attach == AttachStatus::Failed {
        ForwardStatus::Failed
    } else if session == SessionStatus::Connected && attach == AttachStatus::Forwarded {
        ForwardStatus::Running
    } else {
        ForwardStatus::Reconnecting
    }
}

/// One forward of a session, as a listing shows it.
pub open spec fn flat(session: SessionView, f: ForwardObs) -> ForwardState {
    ForwardState {
        name: f.name,
        host: session.host,
        local_port: f.local_port,
        remote_port: f.remote_port,
        remote_host: f.remote_host,
        watcher_pid: session.watcher_pid,
        ssh_pid: session.master_pid,
        status: flat_status(session.status, f.status),
        started_at: session.started_at,
        reconnect_count: session.reconnect_count,
        auto_reconnect: session.auto_reconnect,
        max_retries: session.retry.max_retries,
        retry_delay: session.retry.initial_delay,
        max_retry_delay: session.retry.max_delay,
    }
}

/// All forwards of a session, as a listing shows them.
pub open spec fn projected(session: SessionView) -> Seq<ForwardState> {
    Seq::new(session.forwards.len(), |i: int| flat(session, session.forwards[i]))
}

/// Flatten one session into the per-forward view.
pub fn project(session: &SessionState) -> (out: Vec<ForwardState>)
    ensures
        out@ == projected(session@),
{
    let mut out: Vec<ForwardState> = Vec::new();
    let mut i: usize = 0;
    while i < session.forwards.len()
        invariant
            i <= session.forwards@.len(),
            out@ == projected(session@).take(i as int),
        decreases session.forwards@.len() - i,
    {
        let f = &session.forwards[i];
        let status = if matches!(session.status, SessionStatus::Failed) || matches!(
            f.status,
            AttachStatus::Failed
        ) {
            ForwardStatus::Failed
        } else if matches!(session.status, SessionStatus::Connected) && matches!(
            f.status,
            AttachStatus::Forwarded
        ) {
            ForwardStatus::Running
        } else {
            ForwardStatus::Reconnecting
        };
        out.push(
            ForwardState {
                name: f.name.clone(),
                host: session.host.clone(),
                local_port: f.local_port,
                remote_port: f.remote_port,
                remote_host: f.remote_host.clone(),
                watcher_pid: session.watcher_pid,
                ssh_pid: session.master_pid,
                status,
                started_at: session.started_at,
                reconnect_count: session.reconnect_count,
                auto_reconnect: session.auto_reconnect,
                max_retries: session.retry.max_retries,
                retry_delay: session.retry.initial_delay,
                max_retry_delay: session.retry.max_delay,
            },
        );
        i += 1;
        assert(out@ =~= projected(session@).take(i as int));
    }
    assert(out@ =~= projected(session@));
    out
}

/// The forwards of all sessions, one session after the other.
pub open spec fn flattened(sessions: Seq<SessionState>) -> Seq<ForwardState>
    decreases sessions.len(),
{
    if sessions.len() == 0 {
        seq![]
    } else {
        flattened(sessions.drop_last()) + projected(sessions.last()@)
    }
}

/// `out` lists the forwards of `sessions`, in the order of their names. Forwards
/// of one name stand in the order of their hosts.
pub open spec fn listed(sessions: Seq<SessionState>, out: Seq<ForwardState>) -> bool {
    exists|by_host: Seq<SessionState>|
        #[trigger] stably_sorted(sessions, by_host) && stably_sorted(flattened(by_host), out)
}

impl ForwardState {
    /// Every forward of the sessions that were found, in the order of names.
    pub fn list_all_in(found: Vec<SessionState>) -> (out: Vec<ForwardState>)
        ensures
            listed(found@, out@),
    {
        let ghost start = found@;
        let sessions = list_states_in(found);
        let mut out: Vec<ForwardState> = Vec::new();
        let mut i: usize = 0;
        assert(sessions@.take(0) =~= seq![]);
        while i < sessions.len()
            invariant
                i <= sessions@.len(),
                out@ == flattened(sessions@.take(i as int)),
            decreases sessions@.len() - i,
        {
            let ghost before = out@;
            let mut more = project(&sessions[i]);
            let ghost added = more@;
            out.append(&mut more);
            i += 1;
            proof {
                assert(sessions@.take(i as int).drop_last() =~= sessions@.take(i - 1));
                assert(out@ =~= before + added);
            }
        }
        assert(sessions@.take(i as int) =~= sessions@);
        sort_stably(&mut out);
        assert(stably_sorted(start, sessions@));
        out
    }

    /// The forward called `name`, among all of them.
    pub fn load(all: &[ForwardState], name: &str) -> (r: Result<ForwardState>)
        ensures
            match (lookup(all@, name@), r) {
                (Some(f), Ok(g)) => f == g,
                (None, Err(e)) => e@ == ErrorView::NotFound(name@),
                _ => false,
            },
    {
        match find_named(all, name) {
            Some(i) => Ok(all[i].clone()),
            None => Err(PfError::NotFound(name.to_owned())),
        }
    }
}

/// A forward shows as running only if its connection is up and it is attached;
/// a failed attach shows even on a healthy connection.
pub proof fn law_running_means_connected_and_attached(session: SessionView, i: int)
    requires
        0 <= i < session.forwards.len(),
    ensures
        projected(session).len() == session.forwards.len(),
        projected(session)[i].status == ForwardStatus::Running <==> session.status
            == SessionStatus::Connected && session.forwards[i].status == AttachStatus::Forwarded,
        projected(session)[i].status == ForwardStatus::Failed <==> session.status
            == SessionStatus::Failed || session.forwards[i].status == AttachStatus::Failed,
        projected(session)[i].status != ForwardStatus::Stopped,
{
}

/// A listing keeps each forward's own identity: its name, its ports and its
/// remote host, next to the host of its session and how that is kept up.
pub proof fn law_a_listing_keeps_each_forwards_identity(
    session: SessionState,
    out: Vec<ForwardState>,
    i: int,
)
    requires
        call_ensures(project, (&session,), out),
        0 <= i < session.forwards@.len(),
    ensures
        out@.len() == session.forwards@.len(),
        out@[i].name@ == session.forwards@[i].name@,
        out@[i].local_port == session.forwards@[i].local_port,
        out@[i].remote_port == session.forwards@[i].remote_port,
        out@[i].remote_host@ == session.forwards@[i].remote_host@,
        out@[i].host@ == session.host@,
        out@[i].watcher_pid == session.watcher_pid,
        out@[i].ssh_pid == session.master_pid,
        out@[i].started_at == session.started_at,
        out@[i].reconnect_count == session.reconnect_count,
        out@[i].auto_reconnect == session.auto_reconnect,
        out@[i].max_retries == session.retry.max_retries,
        out@[i].retry_delay == session.retry.initial_delay,
        out@[i].max_retry_delay == session.retry.max_delay,
{
}

/// The status of a listed forward follows from its session and its own attach:
/// a failure of either shows, and only what is attached on a live connection
/// runs. Everything else is on its way.
pub proof fn law_a_listing_tells_what_runs(
    session: SessionState,
    out: Vec<ForwardState>,
    i: int,
)
    requires
        call_ensures(project, (&session,), out),
        0 <= i < session.forwards@.len(),
    ensures
        ({
            let (up, on, shown) = (session.status, session.forwards@[i].status, out@[i].status);
            &&& shown == ForwardStatus::Failed <==> (up == SessionStatus::Failed || on
                == AttachStatus::Failed)
            &&& shown == ForwardStatus::Running <==> (up == SessionStatus::Connected && on
                == AttachStatus::Forwarded)
            &&& shown == ForwardStatus::Failed || shown == ForwardStatus::Running || shown
                == ForwardStatus::Reconnecting
        }),
{
}

/// Restarting a listed forward asks for exactly the bind that was observed, on
/// the machine it was observed on, kept up as its session is.
pub proof fn law_a_restart_asks_for_the_same_bind(
    session: SessionState,
    out: Vec<ForwardState>,
    i: int,
    r: StartRequest,
)
    requires
        call_ensures(project, (&session,), out),
        0 <= i < session.forwards@.len(),
        call_ensures(restart_request, (&out@[i],), r),
    ensures
        r.plan.name@ == session.forwards@[i].name@,
        r.plan.host@ == session.host@,
        r.plan.local_port == session.forwards@[i].local_port,
        r.plan.remote_port == session.forwards@[i].remote_port,
        r.plan.remote_host@ == session.forwards@[i].remote_host@,
        r.reconnect == session.auto_reconnect,
        r.policy == session.retry,
{
    assert(r.policy =~= session.retry);
}

proof fn lemma_flattened(sessions: Seq<SessionState>, s: int, i: int)
    requires
        0 <= s < sessions.len(),
        0 <= i < projected(sessions[s]@).len(),
    ensures
        flattened(sessions).contains(projected(sessions[s]@)[i]),
    decreases sessions.len(),
{
    let rest = sessions.drop_last();
    let all = flattened(sessions);
    let first = flattened(rest);
    if s < rest.len() {
        assert(rest[s] == sessions[s]);
        lemma_flattened(rest, s, i);
        let k = choose|k: int| 0 <= k < first.len() && first[k] == projected(sessions[s]@)[i];
        assert(all[k] == first[k]);
    } else {
        assert(all[first.len() + i] == projected(sessions[s]@)[i]);
    }
}

proof fn lemma_flattened_source(sessions: Seq<SessionState>, k: int) -> (at: (int, int))
    requires
        0 <= k < flattened(sessions).len(),
    ensures
        0 <= at.0 < sessions.len(),
        0 <= at.1 < sessions[at.0].forwards@.len(),
        flattened(sessions)[k] == projected(sessions[at.0]@)[at.1],
    decreases sessions.len(),
{
    let rest = sessions.drop_last();
    let first = flattened(rest);
    if k < first.len() {
        let at = lemma_flattened_source(rest, k);
        assert(rest[at.0] == sessions[at.0]);
        at
    } else {
        (sessions.len() - 1, k - first.len())
    }
}

/// Whether `f` is what is listed of the forward `o` of `session`.
pub open spec fn lists_forward(f: ForwardState, session: SessionState, o: ForwardObs) -> bool {
    &&& f.name@ == o.name@
    &&& f.host@ == session.host@
    &&& f.local_port == o.local_port
    &&& f.remote_port == o.remote_port
    &&& f.remote_host@ == o.remote_host@
    &&& f.watcher_pid == session.watcher_pid
}

/// Every forward of every session is listed, nothing else is, and the names
/// stand in order.
pub proof fn law_everything_is_listed(
    found: Vec<SessionState>,
    out: Vec<ForwardState>,
    s: int,
    i: int,
    a: int,
    b: int,
)
    requires
        call_ensures(ForwardState::list_all_in, (found,), out),
    ensures
        0 <= s < found@.len() && 0 <= i < found@[s].forwards@.len() ==> exists|k: int|
            0 <= k < out@.len() && lists_forward(
                #[trigger] out@[k],
                found@[s],
                found@[s].forwards@[i],
            ),
        0 <= a < out@.len() ==> exists|x: int, y: int|
            0 <= x < found@.len() && 0 <= y < found@[x].forwards@.len() && #[trigger] lists_forward(
                out@[a],
                found@[x],
                found@[x].forwards@[y],
            ),
        0 <= a < b < out@.len() ==> !text_lt(out@[b].name@, out@[a].name@),
{
    let by_host = choose|by_host: Seq<SessionState>|
        #[trigger] stably_sorted(found@, by_host) && stably_sorted(flattened(by_host), out@);
    if 0 <= s < found@.len() && 0 <= i < found@[s].forwards@.len() {
        lemma_sort_keeps_elements(found@, by_host, found@[s]);
        assert(found@.contains(found@[s]));
        let t = choose|t: int| 0 <= t < by_host.len() && by_host[t] == found@[s];
        lemma_flattened(by_host, t, i);
        let f = projected(by_host[t]@)[i];
        lemma_sort_keeps_elements(flattened(by_host), out@, f);
        let k = choose|k: int| 0 <= k < out@.len() && out@[k] == f;
        assert(lists_forward(out@[k], found@[s], found@[s].forwards@[i]));
    }
    if 0 <= a < out@.len() {
        lemma_sort_keeps_elements(flattened(by_host), out@, out@[a]);
        assert(out@.contains(out@[a]));
        let k = choose|k: int| 0 <= k < flattened(by_host).len() && flattened(by_host)[k] == out@[a];
        let at = lemma_flattened_source(by_host, k);
        lemma_sort_keeps_elements(found@, by_host, by_host[at.0]);
        assert(by_host.contains(by_host[at.0]));
        let x = choose|x: int| 0 <= x < found@.len() && found@[x] == by_host[at.0];
        assert(lists_forward(out@[a], found@[x], found@[x].forwards@[at.1]));
    }
    if 0 <= a < b < out@.len() {
        assert(lex_le(out@[a].key(), out@[b].key()));
    }
}

/// A forward is loaded by its name, and only one that is listed.
pub proof fn law_loading_finds_the_forward_of_that_name(
    all: &[ForwardState],
    name: &str,
    r: Result<ForwardState>,
)
    requires
        call_ensures(ForwardState::load, (all, name), r),
    ensures
        r is Ok ==> r->Ok_0.name@ == name@ && all@.contains(r->Ok_0),
        r is Err <==> forall|k: int| 0 <= k < all@.len() ==> (#[trigger] all@[k]).name@ != name@,
{
    lemma_position_points(all@, name@);
    if has_name(all@, name@) {
        let k = position(all@, name@);
        assert(all@[k].name@ == name@);
        assert(all@.contains(all@[k]));
    } else {
        assert forall|k: int| 0 <= k < all@.len() implies (#[trigger] all@[k]).name@ != name@ by {
            assert(all@[k].named() == all@[k].name@);
        }
    }
}

/// The statuses have their words, and a forward that records no bound has the
/// default one.
pub proof fn law_statuses_have_words(s: ForwardStatus, out: &'static str, bound: u64)
    requires
        call_ensures(ForwardStatus::text, (s,), out),
        call_ensures(default_max_retry_delay, (), bound),
    ensures
        s == ForwardStatus::Running ==> out@ == "running"@,
        s == ForwardStatus::Reconnecting ==> out@ == "reconnecting"@,
        s == ForwardStatus::Failed ==> out@ == "failed"@,
        s == ForwardStatus::Stopped ==> out@ == "stopped"@,
        bound == 300,
{
}

}
