//! Starting and stopping forwards: edits to what is desired, and who has to hear
//! of them.

use crate::error::{ErrorView, PfError, Result};
use crate::names::{find_named, has_name, lookup, other_than, without, Named};
use crate::order::{lemma_sort_keeps_elements, stably_sorted};
use crate::session::store::session_or_default;
use crate::session::types::{
    law_remove_undoes_upsert, law_upsert_sets_its_own_name_only, DesiredForward, DesiredSession,
    SessionState,
};
use crate::watcher::{default_policy, RetryPolicy};
use vstd::prelude::*;
use vstd::string::*;

verus! {

/// `nix::sys::signal::kill` without a signal: whether a process with this id
/// exists and may be signalled. It depends on the machine, so nothing is claimed
/// of it.
#[verifier::external_body]
pub fn is_alive(pid: u32) -> bool {
    nix::sys::signal::kill(nix::unistd::Pid::from_raw(pid as i32), None).is_ok()
}

/// Who knows which processes live. The answers depend on the machine; which
/// processes were asked about, and what was answered, is on record.
pub trait Processes {
    /// The questions so far, each with its answer.
    spec fn asked(&self) -> Seq<(u32, bool)>;

    /// Whether this is an answer that was given for the process.
    spec fn said(pid: u32, alive: bool) -> bool;

    /// Is this process alive?
    fn alive(&mut self, pid: u32) -> (r: bool)
        ensures
            final(self).asked() == old(self).asked().push((pid, r)),
            Self::said(pid, r),
    ;
}

/// The processes of this machine.
pub struct LocalProcesses {
    record: Ghost<Seq<(u32, bool)>>,
}

impl LocalProcesses {
    pub fn new() -> (p: Self)
        ensures
            p.asked().len() == 0,
    {
        LocalProcesses { record: Ghost(Seq::empty()) }
    }
}

impl Processes for LocalProcesses {
    closed spec fn asked(&self) -> Seq<(u32, bool)> {
        self.record@
    }

    /// The machine was asked about that very process, and this came back.
    open spec fn said(pid: u32, alive: bool) -> bool {
        call_ensures(is_alive, (pid,), alive)
    }

    fn alive(&mut self, pid: u32) -> (r: bool) {
        let r = is_alive(pid);
        proof {
            self.record@ = self.record@.push((pid, r));
        }
        r
    }
}

/// Whether `alive` answers for `pids`: each process has the answer that was
/// given for it, and where there is none, the answer is no.
pub open spec fn answers<P: Processes>(pids: Seq<Option<u32>>, alive: Seq<bool>) -> bool {
    &&& alive.len() == pids.len()
    &&& forall|i: int|
        0 <= i < alive.len() ==> match pids[i] {
            Some(pid) => P::said(pid, #[trigger] alive[i]),
            None => !alive[i],
        }
}

/// What is asked about `pids`, one question for each that there is, in order,
/// when `alive` are the answers.
pub open spec fn questions(pids: Seq<Option<u32>>, alive: Seq<bool>) -> Seq<(u32, bool)>
    decreases pids.len(),
{
    if pids.len() == 0 {
        seq![]
    } else {
        let before = questions(pids.drop_last(), alive.drop_last());
        match pids.last() {
            Some(pid) => before.push((pid, alive.last())),
            None => before,
        }
    }
}

/// Which of these processes live. Where there is none, nothing is asked.
pub fn ask_all<P: Processes>(pids: &Vec<Option<u32>>, procs: &mut P) -> (alive: Vec<bool>)
    ensures
        answers::<P>(pids@, alive@),
        final(procs).asked() == old(procs).asked() + questions(pids@, alive@),
{
    let mut alive: Vec<bool> = Vec::new();
    let mut i: usize = 0;
    assert(procs.asked() =~= procs.asked() + questions(pids@.take(0), alive@));
    while i < pids.len()
        invariant
            i <= pids@.len(),
            answers::<P>(pids@.take(i as int), alive@),
            procs.asked() == old(procs).asked() + questions(pids@.take(i as int), alive@),
        decreases pids@.len() - i,
    {
        let ghost before = alive@;
        let ghost known = questions(pids@.take(i as int), alive@);
        let r = match pids[i] {
            Some(pid) => procs.alive(pid),
            None => false,
        };
        alive.push(r);
        proof {
            assert(pids@.take(i + 1).drop_last() =~= pids@.take(i as int));
            assert(alive@.drop_last() =~= before);
            let (done, more) = (pids@.take(i as int), pids@.take(i + 1));
            assert forall|k: int| 0 <= k < alive@.len() implies match more[k] {
                Some(pid) => P::said(pid, #[trigger] alive@[k]),
                None => !alive@[k],
            } by {
                if k < i {
                    assert(alive@[k] == before[k]);
                    assert(more[k] == done[k]);
                }
            }
            assert(procs.asked() =~= old(procs).asked() + questions(pids@.take(i + 1), alive@));
        }
        i += 1;
    }
    assert(pids@.take(i as int) =~= pids@);
    alive
}

/// Position of the first session that wants a forward called `name`, or the
/// number of sessions.
pub open spec fn owner_at(sessions: Seq<DesiredSession>, name: Seq<char>) -> int
    decreases sessions.len(),
{
    if sessions.len() == 0 || has_name(sessions[0].forwards@, name) {
        0
    } else {
        1 + owner_at(sessions.drop_first(), name)
    }
}

proof fn lemma_owner(sessions: Seq<DesiredSession>, name: Seq<char>, i: int)
    requires
        0 <= i <= sessions.len(),
        forall|k: int| 0 <= k < i ==> !has_name(#[trigger] sessions[k].forwards@, name),
        i < sessions.len() ==> has_name(sessions[i].forwards@, name),
    ensures
        owner_at(sessions, name) == i,
    decreases sessions.len(),
{
    if sessions.len() > 0 && !has_name(sessions[0].forwards@, name) {
        let rest = sessions.drop_first();
        assert forall|k: int| 0 <= k < i - 1 implies !has_name(
            #[trigger] rest[k].forwards@,
            name,
        ) by {
            assert(rest[k] == sessions[k + 1]);
        }
        lemma_owner(rest, name, i - 1);
    }
}

/// Which host owns a given forward name, among the sessions that were found.
/// Names are globally unique, so the first match is the only match.
pub fn find_host_for_forward_in(sessions: &[DesiredSession], name: &str) -> (r: Option<String>)
    ensures
        ({
            let at = owner_at(sessions@, name@);
            r == (if at < sessions@.len() {
                Some(sessions@[at].host)
            } else {
                None
            })
        }),
{
    let mut i: usize = 0;
    while i < sessions.len()
        invariant
            i <= sessions@.len(),
            forall|k: int| 0 <= k < i ==> !has_name(#[trigger] sessions@[k].forwards@, name@),
        decreases sessions@.len() - i,
    {
        match find_named(sessions[i].forwards.as_slice(), name) {
            Some(_) => {
                proof {
                    lemma_owner(sessions@, name@, i as int);
                }
                return Some(sessions[i].host.clone());
            },
            None => {},
        }
        i += 1;
    }
    proof {
        lemma_owner(sessions@, name@, i as int);
    }
    None
}

/// The host that owns a forward, for one that has to exist.
pub fn host_of_forward(sessions: &[DesiredSession], name: &str) -> (r: Result<String>)
    ensures
        ({
            let at = owner_at(sessions@, name@);
            match r {
                Ok(host) => at < sessions@.len() && host == sessions@[at].host,
                Err(e) => at >= sessions@.len() && e@ == ErrorView::NotFound(name@),
            }
        }),
{
    match find_host_for_forward_in(sessions, name) {
        Some(host) => Ok(host),
        None => Err(PfError::NotFound(name.to_owned())),
    }
}

/// Whether a session with this observed state is supervised, given whether the
/// process that it names is `alive`.
pub open spec fn supervised(state: Option<SessionState>, alive: bool) -> bool {
    state is Some && alive
}

/// Whether a session with this observed state is supervised, given whether the
/// process that it names is `alive`.
pub fn is_supervised(state: &Option<SessionState>, alive: bool) -> (r: bool)
    ensures
        r == supervised(*state, alive),
{
    state.is_some() && alive
}

/// Whether `r` says that the watcher of a session lives, going by what was
/// answered about it.
pub open spec fn finds_watcher<P: Processes>(
    state: Option<SessionState>,
    r: bool,
    asked: Seq<(u32, bool)>,
    asked_after: Seq<(u32, bool)>,
) -> bool {
    match state {
        Some(s) => P::said(s.watcher_pid, r) && asked_after == asked.push((s.watcher_pid, r)),
        None => !r && asked_after == asked,
    }
}

/// Is a host's session actually being supervised right now?
///
/// A desired set that no live watcher owns is inert: it records intent that
/// outlived its process, but nothing is acting on it.
pub fn has_live_watcher_in<P: Processes>(state: &Option<SessionState>, procs: &mut P) -> (r: bool)
    ensures
        finds_watcher::<P>(*state, r, old(procs).asked(), final(procs).asked()),
{
    let alive = match state {
        Some(s) => procs.alive(s.watcher_pid),
        None => false,
    };
    is_supervised(state, alive)
}

/// Whether a name may be used, given who wants it and whether that session is
/// supervised.
///
/// "Taken" means taken by something running. Intent survives a reboot, so after
/// one every host has an orphaned desired set, and refusing those names would
/// make yesterday's forwards unstartable.
pub fn check_name_available_in(owner: &Option<String>, live: bool, name: &str) -> (r: Result<()>)
    ensures
        match r {
            Ok(_) => owner is None || !live,
            Err(e) => owner is Some && live && e@ == ErrorView::AlreadyRunning(name@),
        },
{
    if owner.is_some() && live {
        Err(PfError::AlreadyRunning(name.to_owned()))
    } else {
        Ok(())
    }
}

/// Whether a forward may be started: its name has to be free, and then its port.
pub fn check_start(
    owner: &Option<String>,
    live: bool,
    port_in_use: bool,
    name: &str,
    local_port: u16,
) -> (r: Result<()>)
    ensures
        match r {
            Ok(_) => !(owner is Some && live) && !port_in_use,
            Err(e) => if owner is Some && live {
                e@ == ErrorView::AlreadyRunning(name@)
            } else {
                port_in_use && e@ == ErrorView::PortInUse(local_port)
            },
        },
{
    match check_name_available_in(owner, live, name) {
        Err(e) => Err(e),
        Ok(_) => if port_in_use {
            Err(PfError::PortInUse(local_port))
        } else {
            Ok(())
        },
    }
}

/// Who has to hear of a change to what is desired.
#[derive(Debug, Clone, Copy, PartialEq, Eq, Structural)]
pub enum Nudge {
    /// The watcher that runs: it reconciles at once.
    Signal,
    /// A new watcher, since none runs. It gets the whole desired set, so this
    /// brings up whatever was interrupted alongside what is asked for.
    Spawn,
}

/// Who has to hear of a started forward.
pub fn nudge(had_session: bool) -> (n: Nudge)
    ensures
        n == (if had_session {
            Nudge::Signal
        } else {
            Nudge::Spawn
        }),
{
    if had_session {
        Nudge::Signal
    } else {
        Nudge::Spawn
    }
}

/// The forwards that a session on disk asks for.
pub open spec fn forwards_of(found: Option<DesiredSession>) -> Seq<DesiredForward> {
    match found {
        Some(s) => s.forwards@,
        None => seq![],
    }
}

/// `session` has the host and the settings of `found`, or those of a fresh
/// session for `host`.
pub open spec fn same_settings(
    found: Option<DesiredSession>,
    session: DesiredSession,
    host: Seq<char>,
) -> bool {
    match found {
        Some(s) => session.host == s.host && session.auto_reconnect == s.auto_reconnect
            && session.retry == s.retry,
        None => session.host@ == host && session.auto_reconnect && session.retry
            == default_policy(),
    }
}

/// Whether `session` is what `found` becomes when `f` is started on `host`: the
/// settings are those of this start, and the forwards are those there were with
/// `f` put in place of any of the same name.
pub open spec fn started(
    found: Option<DesiredSession>,
    session: DesiredSession,
    host: Seq<char>,
    f: DesiredForward,
    reconnect: bool,
    policy: RetryPolicy,
) -> bool {
    &&& session.host@ == host
    &&& session.auto_reconnect == reconnect
    &&& session.retry == policy
    &&& stably_sorted(without(forwards_of(found), f.name@).push(f), session.forwards@)
}

/// Add a forward to its host's desired set. Ref-counted: the first forward
/// brings the session up.
pub fn start_forward(
    found: Option<DesiredSession>,
    host: &str,
    name: &str,
    local_port: u16,
    remote_host: &str,
    remote_port: u16,
    reconnect: bool,
    policy: RetryPolicy,
) -> (session: DesiredSession)
    ensures
        exists|f: DesiredForward|
            #[trigger] started(found, session, host@, f, reconnect, policy) && f.name@ == name@
                && f.local_port == local_port && f.remote_host@ == remote_host@ && f.remote_port
                == remote_port,
        found is Some ==> found->0.well_formed() ==> session.well_formed(),
        found is None ==> session.well_formed(),
{
    let ghost before = forwards_of(found);
    let mut session = session_or_default(found, host);
    assert(session.forwards@ =~= before);
    session.host = host.to_owned();
    session.auto_reconnect = reconnect;
    session.retry = policy;
    let f = DesiredForward {
        name: name.to_owned(),
        local_port,
        remote_host: remote_host.to_owned(),
        remote_port,
    };
    let ghost given = f;
    session.upsert(f);
    assert(started(found, session, host@, given, reconnect, policy));
    session
}

/// Remove one forward from its host's desired set. Its session shuts itself down
/// if it was the last one.
pub fn stop_forward(found: Option<DesiredSession>, host: &str, name: &str) -> (session:
    DesiredSession)
    ensures
        session.forwards@ == without(forwards_of(found), name@),
        same_settings(found, session, host@),
{
    let mut session = session_or_default(found, host);
    assert(session.forwards@ =~= forwards_of(found));
    session.remove(name);
    session
}

/// Stop every forward on a host.
pub fn clear_forwards(found: Option<DesiredSession>, host: &str) -> (session: DesiredSession)
    ensures
        session.forwards@.len() == 0,
        same_settings(found, session, host@),
{
    let mut session = session_or_default(found, host);
    session.forwards.clear();
    session
}

/// The watcher to end when a host is stopped, for a host that has a session.
pub fn stop_host(state: &Option<SessionState>, host: &str) -> (r: Result<u32>)
    ensures
        match (*state, r) {
            (Some(s), Ok(pid)) => pid == s.watcher_pid,
            (None, Err(e)) => e@ == ErrorView::NotFound(host@),
            _ => false,
        },
{
    match state {
        Some(s) => Ok(s.watcher_pid),
        None => Err(PfError::NotFound(host.to_owned())),
    }
}

/// Starting a forward on a machine keeps whatever else that machine had, so a
/// watcher that is started for it brings all of it back.
pub proof fn law_starting_keeps_what_else_was_desired(
    found: Option<DesiredSession>,
    session: DesiredSession,
    host: Seq<char>,
    f: DesiredForward,
    reconnect: bool,
    policy: RetryPolicy,
    name: Seq<char>,
)
    requires
        started(found, session, host, f, reconnect, policy),
    ensures
        lookup(session.forwards@, f.name@) == Some(f),
        name != f.name@ ==> lookup(session.forwards@, name) == lookup(forwards_of(found), name),
{
    law_upsert_sets_its_own_name_only(forwards_of(found), f, session.forwards@, name);
    law_upsert_sets_its_own_name_only(forwards_of(found), f, session.forwards@, f.name@);
}

/// Stopping a forward right after it was started leaves what was desired under
/// other names before.
pub proof fn law_stopping_undoes_starting(
    found: Option<DesiredSession>,
    session: DesiredSession,
    host: Seq<char>,
    f: DesiredForward,
    reconnect: bool,
    policy: RetryPolicy,
)
    requires
        started(found, session, host, f, reconnect, policy),
        found is Some ==> found->0.well_formed(),
    ensures
        without(session.forwards@, f.name@) == without(forwards_of(found), f.name@),
{
    law_remove_undoes_upsert(forwards_of(found), f, session.forwards@);
}

/// Removing a machine's only forward leaves it with nothing to do, which is what
/// takes its session down.
pub proof fn law_removing_the_last_forward_empties_the_session(
    forwards: Seq<DesiredForward>,
    name: Seq<char>,
)
    requires
        forall|i: int| 0 <= i < forwards.len() ==> (#[trigger] forwards[i]).name@ == name,
    ensures
        without(forwards, name).len() == 0,
{
    let keep = other_than::<DesiredForward>(name);
    let left = without(forwards, name);
    if left.len() > 0 {
        assert(left.contains(left[0]));
        forwards.lemma_filter_contains_rev(keep, left[0]);
        forwards.lemma_filter_pred(keep, 0);
        let i = choose|i: int| 0 <= i < forwards.len() && forwards[i] == left[0];
        assert(forwards[i].name@ == name);
    }
}

/// What a list without a name holds: everything that is called otherwise.
proof fn lemma_left(s: Seq<DesiredForward>, name: Seq<char>, x: DesiredForward)
    ensures
        without(s, name).contains(x) <==> s.contains(x) && x.name@ != name,
{
    let keep = other_than::<DesiredForward>(name);
    let left = without(s, name);
    if left.contains(x) {
        s.lemma_filter_contains_rev(keep, x);
        let k = choose|k: int| 0 <= k < left.len() && left[k] == x;
        s.lemma_filter_pred(keep, k);
    }
    if s.contains(x) && x.name@ != name {
        let k = choose|k: int| 0 <= k < s.len() && s[k] == x;
        s.lemma_filter_contains(keep, k);
    }
}

/// Starting a forward adds exactly what was asked for, in place of what had its
/// name, and keeps every other forward as it was. The machine is kept up the way
/// this start says.
pub proof fn law_starting_adds_what_was_asked_for(
    found: Option<DesiredSession>,
    host: &str,
    name: &str,
    local_port: u16,
    remote_host: &str,
    remote_port: u16,
    reconnect: bool,
    policy: RetryPolicy,
    session: DesiredSession,
    x: DesiredForward,
)
    requires
        call_ensures(
            start_forward,
            (found, host, name, local_port, remote_host, remote_port, reconnect, policy),
            session,
        ),
    ensures
        session.host@ == host@,
        session.auto_reconnect == reconnect,
        session.retry == policy,
        x.name@ == name@ ==> (session.forwards@.contains(x) ==> x.local_port == local_port
            && x.remote_host@ == remote_host@ && x.remote_port == remote_port),
        exists|k: int|
            0 <= k < session.forwards@.len() && (#[trigger] session.forwards@[k]).name@ == name@
                && session.forwards@[k].local_port == local_port
                && session.forwards@[k].remote_host@ == remote_host@
                && session.forwards@[k].remote_port == remote_port,
        x.name@ != name@ && found is Some ==> (session.forwards@.contains(x)
            <==> found->0.forwards@.contains(x)),
        x.name@ != name@ && found is None ==> !session.forwards@.contains(x),
{
    let before = forwards_of(found);
    let f = choose|f: DesiredForward|
        #[trigger] started(found, session, host@, f, reconnect, policy) && f.name@ == name@
            && f.local_port == local_port && f.remote_host@ == remote_host@ && f.remote_port
            == remote_port;
    let left = without(before, f.name@);
    let list = left.push(f);
    lemma_sort_keeps_elements(list, session.forwards@, x);
    lemma_sort_keeps_elements(list, session.forwards@, f);
    lemma_left(before, f.name@, x);
    assert(list[left.len() as int] == f);
    assert(list.contains(f));
    let k = choose|k: int| 0 <= k < session.forwards@.len() && session.forwards@[k] == f;
    assert(session.forwards@[k].name@ == name@);
    if list.contains(x) && x != f {
        let i = choose|i: int| 0 <= i < list.len() && list[i] == x;
        assert(left[i] == x);
    }
    if left.contains(x) {
        let i = choose|i: int| 0 <= i < left.len() && left[i] == x;
        assert(list[i] == x);
    }
}

/// Stopping a forward takes away what has its name and nothing else, and leaves
/// how the machine is kept up as it was.
pub proof fn law_stopping_takes_only_its_name(
    found: DesiredSession,
    host: &str,
    name: &str,
    session: DesiredSession,
    x: DesiredForward,
)
    requires
        call_ensures(stop_forward, (Some(found), host, name), session),
    ensures
        session.forwards@.contains(x) <==> found.forwards@.contains(x) && x.name@ != name@,
        session.host == found.host,
        session.auto_reconnect == found.auto_reconnect,
        session.retry == found.retry,
{
    lemma_left(found.forwards@, name@, x);
}

/// Stopping a machine takes every forward off it, and leaves how it is kept up
/// as it was. The watcher to end is the one that its state names; a machine
/// without a state is not running.
pub proof fn law_stopping_a_machine_takes_everything(
    found: DesiredSession,
    host: &str,
    session: DesiredSession,
    state: Option<SessionState>,
    r: Result<u32>,
)
    requires
        call_ensures(clear_forwards, (Some(found), host), session),
        call_ensures(stop_host, (&state, host), r),
    ensures
        session.forwards@.len() == 0,
        session.host == found.host,
        session.auto_reconnect == found.auto_reconnect,
        session.retry == found.retry,
        state is Some ==> r == std::result::Result::<u32, PfError>::Ok(state->0.watcher_pid),
        state is None ==> r is Err && r->Err_0@ == ErrorView::NotFound(host@),
{
}

/// The owner of a forward is the host of the first session that wants one of
/// its name, and there is none only where no session does.
pub proof fn law_the_owner_wants_the_forward(
    sessions: &[DesiredSession],
    name: &str,
    r: Option<String>,
)
    requires
        call_ensures(find_host_for_forward_in, (sessions, name), r),
    ensures
        r is Some ==> exists|i: int|
            0 <= i < sessions@.len() && r == Some((#[trigger] sessions@[i]).host) && wants(
                sessions@[i],
                name@,
            ) && forall|k: int| 0 <= k < i ==> !wants(#[trigger] sessions@[k], name@),
        r is None ==> forall|i: int|
            0 <= i < sessions@.len() ==> !wants(#[trigger] sessions@[i], name@),
{
    lemma_owner_points(sessions@, name@);
    let at = owner_at(sessions@, name@);
    if at < sessions@.len() {
        assert(r == Some(sessions@[at].host));
    }
}

/// Whether a session wants a forward called `name`.
pub open spec fn wants(session: DesiredSession, name: Seq<char>) -> bool {
    exists|j: int|
        0 <= j < session.forwards@.len() && (#[trigger] session.forwards@[j]).name@ == name
}

pub(crate) proof fn lemma_owner_points(sessions: Seq<DesiredSession>, name: Seq<char>)
    ensures
        0 <= owner_at(sessions, name) <= sessions.len(),
        forall|k: int|
            0 <= k < owner_at(sessions, name) ==> !wants(#[trigger] sessions[k], name),
        owner_at(sessions, name) < sessions.len() ==> wants(
            sessions[owner_at(sessions, name)],
            name,
        ),
    decreases sessions.len(),
{
    if sessions.len() > 0 {
        let first = sessions[0];
        assert(wants(first, name) == has_name(first.forwards@, name)) by {
            if wants(first, name) {
                let j = choose|j: int|
                    0 <= j < first.forwards@.len() && (#[trigger] first.forwards@[j]).name@ == name;
                assert(first.forwards@[j].named() == name);
            }
            if has_name(first.forwards@, name) {
                let j = choose|j: int|
                    0 <= j < first.forwards@.len() && #[trigger] first.forwards@[j].named() == name;
                assert(first.forwards@[j].name@ == name);
            }
        }
        if !wants(first, name) {
            let rest = sessions.drop_first();
            lemma_owner_points(rest, name);
            assert forall|k: int| 0 <= k < owner_at(sessions, name) implies !wants(
                #[trigger] sessions[k],
                name,
            ) by {
                if k > 0 {
                    assert(rest[k - 1] == sessions[k]);
                }
            }
        }
    }
}

/// A forward may be started exactly when no live session has its name and its
/// port is free. The name is complained of first.
pub proof fn law_what_may_be_started(
    owner: Option<String>,
    live: bool,
    port_in_use: bool,
    name: &str,
    local_port: u16,
    r: Result<()>,
)
    requires
        call_ensures(check_start, (&owner, live, port_in_use, name, local_port), r),
    ensures
        r is Ok <==> !(owner is Some && live) && !port_in_use,
        owner is Some && live ==> r is Err && r->Err_0@ == ErrorView::AlreadyRunning(name@),
        !(owner is Some && live) && port_in_use ==> r is Err && r->Err_0@ == ErrorView::PortInUse(
            local_port,
        ),
{
}

/// A name is free unless a session that is supervised wants it: intent that no
/// watcher acts on takes nothing.
pub proof fn law_a_dead_session_takes_no_names(
    owner: Option<String>,
    state: Option<SessionState>,
    alive: bool,
    live: bool,
    name: &str,
    r: Result<()>,
)
    requires
        call_ensures(is_supervised, (&state, alive), live),
        call_ensures(check_name_available_in, (&owner, live, name), r),
    ensures
        live <==> state is Some && alive,
        r is Ok <==> owner is None || state is None || !alive,
{
}

/// A watcher that runs is told of a new forward; where none runs one is started.
pub proof fn law_somebody_hears_of_a_start(had_session: bool, n: Nudge)
    requires
        call_ensures(nudge, (had_session,), n),
    ensures
        had_session ==> n == Nudge::Signal,
        !had_session ==> n == Nudge::Spawn,
{
}

/// One question is asked about each process that there is, in order, and its
/// answer is the one that was given for it. Of no process the answer is no.
pub proof fn law_each_process_is_asked_about_once<P: Processes>(
    pids: Seq<Option<u32>>,
    alive: Seq<bool>,
    i: int,
)
    requires
        answers::<P>(pids, alive),
        0 <= i < pids.len(),
    ensures
        pids[i] is None ==> !alive[i],
        pids[i] is Some ==> P::said(pids[i]->0, alive[i]) && questions(pids, alive).contains(
            (pids[i]->0, alive[i]),
        ),
        questions(pids, alive).len() <= pids.len(),
    decreases pids.len(),
{
    let (p, a) = (pids.drop_last(), alive.drop_last());
    let first = questions(p, a);
    let all = questions(pids, alive);
    assert(alive[i] == alive[i]);
    lemma_questions_len(pids, alive);
    if i < p.len() {
        assert forall|k: int| 0 <= k < a.len() implies match p[k] {
            Some(pid) => P::said(pid, #[trigger] a[k]),
            None => !a[k],
        } by {
            assert(a[k] == alive[k]);
        }
        law_each_process_is_asked_about_once::<P>(p, a, i);
        if pids[i] is Some {
            let k = choose|k: int| 0 <= k < first.len() && first[k] == (p[i]->0, a[i]);
            assert(all[k] == first[k]);
        }
    } else if pids[i] is Some {
        assert(all[all.len() - 1] == (pids[i]->0, alive[i]));
    }
}

proof fn lemma_questions_len(pids: Seq<Option<u32>>, alive: Seq<bool>)
    ensures
        questions(pids, alive).len() <= pids.len(),
    decreases pids.len(),
{
    if pids.len() > 0 {
        lemma_questions_len(pids.drop_last(), alive.drop_last());
    }
}

/// A session is supervised exactly when the process that its state names
/// answers; without a state nobody is asked, and it is not.
pub proof fn law_a_session_lives_by_its_watcher<P: Processes>(
    state: Option<SessionState>,
    r: bool,
    asked: Seq<(u32, bool)>,
    asked_after: Seq<(u32, bool)>,
)
    requires
        finds_watcher::<P>(state, r, asked, asked_after),
    ensures
        state is None ==> !r && asked_after.len() == asked.len(),
        state is Some ==> asked_after.len() == asked.len() + 1 && asked_after.last() == (
            (state->0).watcher_pid,
            r,
        ),
        state is Some && !P::said((state->0).watcher_pid, false) ==> r,
        state is Some && !P::said((state->0).watcher_pid, true) ==> !r,
{
}

/// The machine is asked about the very process that is asked for.
pub proof fn law_the_machine_is_asked_about_that_process(pid: u32, alive: bool)
    ensures
        LocalProcesses::said(pid, alive) == call_ensures(is_alive, (pid,), alive),
{
}

/// A forward that has to exist has its owner found, or is told of by name.
pub proof fn law_a_missing_forward_is_named(
    sessions: &[DesiredSession],
    name: &str,
    r: Result<String>,
    found: Option<String>,
)
    requires
        call_ensures(host_of_forward, (sessions, name), r),
        call_ensures(find_host_for_forward_in, (sessions, name), found),
    ensures
        found is Some ==> r is Ok && r->Ok_0 == found->0,
        found is None ==> r is Err && r->Err_0@ == ErrorView::NotFound(name@),
{
    lemma_owner_points(sessions@, name@);
}

}
