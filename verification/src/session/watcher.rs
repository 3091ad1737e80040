//! What a watcher decides: when a session ends, what its end leaves behind, and
//! how observed state changes when the master is lost or given up on.

use crate::names::{
    distinct_names, find_named, has_name, lemma_filter_keeps_distinct, lemma_lookup_push,
    lemma_position_points, lemma_put, lemma_put_keeps_distinct, lookup, position, put, Named,
};
use crate::paths::file_kinds;
use crate::session::reconcile::{difference, law_a_new_master_reattaches_everything, Action};
use crate::session::ssh::{SshControl, SshEvent};
use crate::session::store::{
    clear_transient_in, law_hosts_share_no_files, remove_session_in, remove_state_in, session_file,
    session_files, transient_files,
};
use crate::session::types::{AttachStatus, DesiredForward, DesiredSession, ForwardObs};
use crate::text::views;
use vstd::prelude::*;
use vstd::string::*;

verus! {

/// How often the watcher re-reads desired state, in milliseconds. A signal wakes
/// it sooner; this is the fallback, so that a missed signal costs half a second
/// and not correctness.
pub const POLL_INTERVAL_MS: u64 = 500;

/// How often the watcher re-reads desired state, in milliseconds.
pub fn poll_interval() -> (ms: u64)
    ensures
        ms == POLL_INTERVAL_MS,
{
    POLL_INTERVAL_MS
}

/// Ref-counted lifecycle: no forwards means no reason for the master to exist.
pub fn should_exit(desired: &DesiredSession) -> (r: bool)
    ensures
        r == (desired.forwards@.len() == 0),
{
    desired.forwards.len() == 0
}

/// Why the watcher's loop ended, and therefore what it may delete on the way
/// out.
///
/// The desired forward set is the only thing in the run directory a person
/// actually typed. Erasing it is right when leaving *was* their decision, and
/// wrong otherwise: a reboot ends every process on the machine, and that is no
/// decision to cancel any forwards.
#[derive(Debug, Clone, Copy, PartialEq, Eq, Structural)]
pub enum ExitReason {
    /// The desired set emptied out, or was deleted outright. The session is
    /// over because someone said so.
    Retired,
    /// SIGTERM or SIGINT from outside: in practice, the OS shutting down.
    Signalled,
    /// The connection is gone and the watcher stopped trying: auto-reconnect
    /// was off, retries ran out, or it could not function at all.
    GaveUp,
}

impl ExitReason {
    /// Whether the desired forward set dies with the watcher.
    pub fn discards_intent(self) -> (r: bool)
        ensures
            r == (self is Retired),
    {
        matches!(self, ExitReason::Retired)
    }

    /// Whether the final observed state is worth keeping.
    ///
    /// Only a give-up says something nothing else records: a machine whose
    /// state is deleted does not show as failed, it disappears.
    pub fn keeps_state(self) -> (r: bool)
        ensures
            r == (self is GaveUp),
    {
        matches!(self, ExitReason::GaveUp)
    }

    /// What the log calls this reason.
    pub open spec fn name(self) -> Seq<char> {
        match self {
            ExitReason::Retired => "retired"@,
            ExitReason::Signalled => "interrupted"@,
            ExitReason::GaveUp => "gave up"@,
        }
    }

    /// What the log calls this reason.
    pub fn label(self) -> (out: &'static str)
        ensures
            out@ == self.name(),
    {
        match self {
            ExitReason::Retired => "retired",
            ExitReason::Signalled => "interrupted",
            ExitReason::GaveUp => "gave up",
        }
    }
}

/// The files that a departing watcher deletes, in order.
pub open spec fn torn_down(run: Seq<u8>, host: Seq<char>, reason: ExitReason) -> Seq<Seq<u8>> {
    transient_files(run, host) + match reason {
        ExitReason::Retired => session_files(run, host),
        ExitReason::Signalled => seq![session_file(run, host, ".state.json"@)],
        ExitReason::GaveUp => seq![],
    }
}

/// A departing watcher's file policy: which files to delete, where they exist.
pub fn tear_down_files(run: &[u8], host: &str, reason: ExitReason) -> (files: Vec<Vec<u8>>)
    ensures
        views(files@) == torn_down(run@, host@, reason),
{
    // The socket and the lock only mean something while this process is alive.
    let mut files = clear_transient_in(run, host);
    let ghost first = files@;
    let mut rest = if reason.discards_intent() {
        remove_session_in(run, host)
    } else if reason.keeps_state() {
        Vec::new()
    } else {
        remove_state_in(run, host)
    };
    let ghost more = rest@;
    files.append(&mut rest);
    proof {
        assert(files@ =~= first + more);
        assert(views(files@) =~= views(first) + views(more));
        if reason is GaveUp {
            assert(views(more) =~= seq![]);
        }
    }
    files
}

/// Whether a master has to be started for `host`.
pub fn needs_master<S: SshControl>(ssh: &mut S, host: &str) -> (r: bool)
    ensures
        final(ssh).events() == old(ssh).events().push(SshEvent::Check { host: host@, alive: !r }),
        old(ssh).answers(SshEvent::Check { host: host@, alive: !r }, final(ssh)),
{
    !ssh.check(host)
}

/// An observation whose attach has to be asked for again.
pub open spec fn pending(f: ForwardObs) -> ForwardObs {
    ForwardObs { status: AttachStatus::Pending, attached_at: None, error: None, ..f }
}

/// All of them.
pub open spec fn all_pending(observed: Seq<ForwardObs>) -> Seq<ForwardObs> {
    Seq::new(observed.len(), |i: int| pending(observed[i]))
}

/// Reset observed state after losing the master. Errors are cleared too: a
/// stale one is misleading, and it would suppress the retry that the reconnect
/// is specifically meant to trigger.
pub fn mark_all_pending(observed: &mut Vec<ForwardObs>)
    ensures
        final(observed)@ == all_pending(old(observed)@),
{
    let ghost start = observed@;
    let mut i: usize = 0;
    while i < observed.len()
        invariant
            i <= observed@.len(),
            observed@.len() == start.len(),
            forall|k: int| 0 <= k < i ==> #[trigger] observed@[k] == pending(start[k]),
            forall|k: int| i <= k < start.len() ==> #[trigger] observed@[k] == start[k],
        decreases start.len() - i,
    {
        let mut f = observed[i].clone();
        f.status = AttachStatus::Pending;
        f.attached_at = None;
        f.error = None;
        observed.set(i, f);
        i += 1;
    }
    assert(observed@ =~= all_pending(start));
}

/// Picks what is observed under a wanted name.
pub open spec fn wanted_in(desired: Seq<DesiredForward>) -> spec_fn(ForwardObs) -> bool {
    |o: ForwardObs| has_name(desired, o.name@)
}

/// The failed observation of a forward that was never attached.
pub open spec fn never_attached(d: DesiredForward, why: String) -> ForwardObs {
    ForwardObs {
        name: d.name,
        local_port: d.local_port,
        remote_host: d.remote_host,
        remote_port: d.remote_port,
        status: AttachStatus::Failed,
        attached_at: None,
        error: Some(why),
    }
}

/// An observation that has failed.
pub open spec fn failed(f: ForwardObs, why: String) -> ForwardObs {
    ForwardObs { status: AttachStatus::Failed, attached_at: None, error: Some(why), ..f }
}

/// Observations after one wanted forward was marked as failed.
pub open spec fn one_failed(
    observed: Seq<ForwardObs>,
    d: DesiredForward,
    why: String,
) -> Seq<ForwardObs> {
    if has_name(observed, d.name@) {
        let at = position(observed, d.name@);
        observed.update(at, failed(observed[at], why))
    } else {
        observed.push(never_attached(d, why))
    }
}

/// Observations after each of `desired` was marked as failed, in order.
pub open spec fn each_failed(
    observed: Seq<ForwardObs>,
    desired: Seq<DesiredForward>,
    why: String,
) -> Seq<ForwardObs>
    decreases desired.len(),
{
    if desired.len() == 0 {
        observed
    } else {
        one_failed(each_failed(observed, desired.drop_last(), why), desired.last(), why)
    }
}

/// What is observed when the watcher gives up: nothing that is not wanted, and
/// every wanted forward as failed.
pub open spec fn all_failed(
    observed: Seq<ForwardObs>,
    desired: Seq<DesiredForward>,
    why: String,
) -> Seq<ForwardObs> {
    each_failed(observed.filter(wanted_in(desired)), desired, why)
}

fn keep_wanted(desired: &Vec<DesiredForward>, observed: &mut Vec<ForwardObs>)
    ensures
        final(observed)@ == old(observed)@.filter(wanted_in(desired@)),
{
    let ghost keep = wanted_in(desired@);
    let mut kept: Vec<ForwardObs> = Vec::new();
    let mut i: usize = 0;
    proof {
        assert(observed@.take(0) =~= seq![]);
        reveal(Seq::filter);
    }
    while i < observed.len()
        invariant
            i <= observed@.len(),
            keep == wanted_in(desired@),
            kept@ == observed@.take(i as int).filter(keep),
        decreases observed@.len() - i,
    {
        proof {
            assert(observed@.take(i + 1) =~= observed@.take(i as int).push(observed@[i as int]));
            observed@.take(i as int).lemma_filter_push(observed@[i as int], keep);
        }
        let o = &observed[i];
        match find_named(desired.as_slice(), o.name.as_str()) {
            Some(_) => {
                kept.push(o.clone());
            },
            None => {},
        }
        i += 1;
    }
    assert(observed@.take(i as int) =~= observed@);
    *observed = kept;
}

/// Write the desired set into observed state as failed, with the reason.
///
/// A session that gives up before it ever connects has nothing in its observed
/// list. What the user wants to see is the forwards that are not running, and
/// why.
pub fn mark_all_failed(desired: &DesiredSession, observed: &mut Vec<ForwardObs>, error: &str)
    ensures
        exists|why: String|
            #![trigger why@]
            why@ == error@ && final(observed)@ == all_failed(
                old(observed)@,
                desired.forwards@,
                why,
            ),
{
    let why = error.to_owned();
    let ghost start = observed@;
    keep_wanted(&desired.forwards, observed);
    let wants = &desired.forwards;
    let ghost kept = observed@;
    let mut i: usize = 0;
    assert(wants@.take(0) =~= seq![]);
    while i < wants.len()
        invariant
            i <= wants@.len(),
            observed@ == each_failed(kept, wants@.take(i as int), why),
        decreases wants@.len() - i,
    {
        let d = &wants[i];
        assert(wants@.take(i + 1).drop_last() =~= wants@.take(i as int));
        match find_named(observed.as_slice(), d.name.as_str()) {
            Some(k) => {
                let mut o = observed[k].clone();
                o.status = AttachStatus::Failed;
                o.attached_at = None;
                o.error = Some(why.clone());
                observed.set(k, o);
            },
            None => {
                observed.push(
                    ForwardObs {
                        name: d.name.clone(),
                        local_port: d.local_port,
                        remote_host: d.remote_host.clone(),
                        remote_port: d.remote_port,
                        status: AttachStatus::Failed,
                        attached_at: None,
                        error: Some(why.clone()),
                    },
                );
            },
        }
        i += 1;
    }
    assert(wants@.take(i as int) =~= wants@);
    assert(why@ == error@);
}

/// The desired state outlives the watcher unless the session was retired; the
/// observed state outlives it only when the watcher gave up; the socket and the
/// lock never do.
pub proof fn law_only_retirement_discards_intent(
    run: Seq<u8>,
    host: Seq<char>,
    reason: ExitReason,
)
    ensures
        torn_down(run, host, reason).contains(session_file(run, host, ".desired.json"@))
            <==> reason is Retired,
        torn_down(run, host, reason).contains(session_file(run, host, ".state.json"@)) <==> !(
        reason is GaveUp),
        torn_down(run, host, reason).contains(session_file(run, host, ".sock"@)),
        torn_down(run, host, reason).contains(session_file(run, host, ".lock"@)),
{
    let files = torn_down(run, host, reason);
    let desired = session_file(run, host, file_kinds()[0]);
    let state = session_file(run, host, file_kinds()[1]);
    let sock = session_file(run, host, ".sock"@);
    let lock = session_file(run, host, ".lock"@);
    assert forall|i: int, j: int| 0 <= i < 4 && 0 <= j < 4 && i != j implies #[trigger] session_file(
        run,
        host,
        file_kinds()[i],
    ) != #[trigger] session_file(run, host, file_kinds()[j]) by {
        if session_file(run, host, file_kinds()[i]) == session_file(run, host, file_kinds()[j]) {
            law_hosts_share_no_files(run, host, host, i, j);
        }
    }
    assert(session_file(run, host, file_kinds()[2]) != desired);
    assert(session_file(run, host, file_kinds()[3]) != desired);
    assert(session_file(run, host, file_kinds()[2]) != state);
    assert(session_file(run, host, file_kinds()[3]) != state);
    assert(desired != state);
    assert(files[0] == sock && files[1] == lock);
    if reason is Retired {
        assert(files[2] == desired && files[3] == state);
    } else if reason is Signalled {
        assert(files[2] == state);
    }
}

/// Losing the master makes the next pass attach every desired forward again,
/// whatever was observed before, failures included.
pub proof fn law_losing_the_master_reattaches_everything(
    desired: Seq<DesiredForward>,
    observed: Seq<ForwardObs>,
    j: int,
)
    requires
        0 <= j < desired.len(),
    ensures
        difference(desired, all_pending(observed)).contains(Action::Attach(desired[j])),
{
    law_a_new_master_reattaches_everything(desired, all_pending(observed), j);
}

/// Marking one forward as failed: what is found under each name.
proof fn lemma_one_failed(
    observed: Seq<ForwardObs>,
    d: DesiredForward,
    why: String,
    name: Seq<char>,
)
    ensures
        has_name(one_failed(observed, d, why), name) == (has_name(observed, name) || name
            == d.name@),
        distinct_names(observed) ==> distinct_names(one_failed(observed, d, why)),
        name != d.name@ ==> lookup(one_failed(observed, d, why), name) == lookup(observed, name),
        lookup(one_failed(observed, d, why), d.name@) is Some,
        lookup(one_failed(observed, d, why), d.name@)->0.status == AttachStatus::Failed,
        lookup(one_failed(observed, d, why), d.name@)->0.attached_at is None,
        lookup(one_failed(observed, d, why), d.name@)->0.error == Some(why),
{
    let obs = if has_name(observed, d.name@) {
        failed(observed[position(observed, d.name@)], why)
    } else {
        never_attached(d, why)
    };
    lemma_position_points(observed, d.name@);
    assert(obs.named() == d.name@);
    assert(one_failed(observed, d, why) == put(observed, obs));
    lemma_put(observed, obs, name);
    lemma_put(observed, obs, d.name@);
    if distinct_names(observed) {
        lemma_put_keeps_distinct(observed, obs);
    }
}

/// Whether the observation under `name` says that its forward failed, and why.
pub open spec fn shows_failure(observed: Seq<ForwardObs>, name: Seq<char>, why: String) -> bool {
    match lookup(observed, name) {
        None => false,
        Some(o) => o.status == AttachStatus::Failed && o.attached_at is None && o.error == Some(
            why,
        ),
    }
}

proof fn lemma_each_failed(
    observed: Seq<ForwardObs>,
    desired: Seq<DesiredForward>,
    why: String,
    name: Seq<char>,
)
    ensures
        has_name(each_failed(observed, desired, why), name) == (has_name(observed, name)
            || has_name(desired, name)),
        distinct_names(observed) ==> distinct_names(each_failed(observed, desired, why)),
        has_name(desired, name) ==> shows_failure(
            each_failed(observed, desired, why),
            name,
            why,
        ),
    decreases desired.len(),
{
    if desired.len() > 0 {
        let rest = desired.drop_last();
        let d = desired.last();
        lemma_each_failed(observed, rest, why, name);
        lemma_one_failed(each_failed(observed, rest, why), d, why, name);
        assert(desired =~= rest.push(d));
        lemma_lookup_push(rest, d, name);
    }
}

/// When a watcher gives up, exactly the desired forwards are left in observed
/// state, each under one name, and each says that it failed and why.
pub proof fn law_giving_up_names_what_is_not_running(
    observed: Seq<ForwardObs>,
    desired: Seq<DesiredForward>,
    why: String,
    name: Seq<char>,
)
    ensures
        has_name(all_failed(observed, desired, why), name) == has_name(desired, name),
        has_name(desired, name) ==> shows_failure(all_failed(observed, desired, why), name, why),
        distinct_names(observed) ==> distinct_names(all_failed(observed, desired, why)),
{
    let keep = wanted_in(desired);
    let kept = observed.filter(keep);
    lemma_each_failed(kept, desired, why, name);
    if has_name(kept, name) {
        let k = choose|k: int| 0 <= k < kept.len() && #[trigger] kept[k].named() == name;
        observed.lemma_filter_pred(keep, k);
        assert(has_name(desired, kept[k].name@));
    }
    if distinct_names(observed) {
        lemma_filter_keeps_distinct(observed, keep);
    }
}

/// A connection that is lost leaves every forward bound as it was, to be asked
/// for again, with no error and no time of attaching.
pub proof fn law_pending_keeps_the_bind(observed: Seq<ForwardObs>, i: int)
    requires
        0 <= i < observed.len(),
    ensures
        all_pending(observed).len() == observed.len(),
        all_pending(observed)[i].status == AttachStatus::Pending,
        all_pending(observed)[i].attached_at is None,
        all_pending(observed)[i].error is None,
        all_pending(observed)[i].name == observed[i].name,
        all_pending(observed)[i].local_port == observed[i].local_port,
        all_pending(observed)[i].remote_host == observed[i].remote_host,
        all_pending(observed)[i].remote_port == observed[i].remote_port,
{
}

/// Whether an observation binds what some observed or some desired forward of
/// its name binds.
pub open spec fn known_bind(
    o: ForwardObs,
    observed: Seq<ForwardObs>,
    desired: Seq<DesiredForward>,
) -> bool {
    ||| exists|i: int|
        0 <= i < observed.len() && (#[trigger] observed[i]).name@ == o.name@
            && observed[i].local_port == o.local_port && observed[i].remote_host@
            == o.remote_host@ && observed[i].remote_port == o.remote_port
    ||| exists|j: int|
        0 <= j < desired.len() && (#[trigger] desired[j]).name@ == o.name@
            && desired[j].local_port == o.local_port && desired[j].remote_host@
            == o.remote_host@ && desired[j].remote_port == o.remote_port
}

/// Giving up invents no binds: what is shown as failed is bound as it was
/// observed, or as it is desired where it never was attached.
pub proof fn law_giving_up_invents_no_binds(
    observed: Seq<ForwardObs>,
    desired: Seq<DesiredForward>,
    why: String,
    k: int,
)
    requires
        0 <= k < all_failed(observed, desired, why).len(),
    ensures
        known_bind(all_failed(observed, desired, why)[k], observed, desired),
{
    let keep = wanted_in(desired);
    let kept = observed.filter(keep);
    assert forall|i: int| 0 <= i < kept.len() implies known_bind(
        #[trigger] kept[i],
        observed,
        desired,
    ) by {
        assert(kept.contains(kept[i]));
        observed.lemma_filter_contains_rev(keep, kept[i]);
        let m = choose|m: int| 0 <= m < observed.len() && observed[m] == kept[i];
        assert(observed[m].name@ == kept[i].name@);
    }
    assert(desired.take(desired.len() as int) =~= desired);
    lemma_binds_stay(kept, desired, why, observed, desired, k);
}

proof fn lemma_binds_stay(
    start: Seq<ForwardObs>,
    some: Seq<DesiredForward>,
    why: String,
    observed: Seq<ForwardObs>,
    desired: Seq<DesiredForward>,
    k: int,
)
    requires
        forall|i: int| 0 <= i < start.len() ==> known_bind(#[trigger] start[i], observed, desired),
        some.len() <= desired.len(),
        some == desired.take(some.len() as int),
        0 <= k < each_failed(start, some, why).len(),
    ensures
        known_bind(each_failed(start, some, why)[k], observed, desired),
    decreases some.len(),
{
    if some.len() > 0 {
        let rest = some.drop_last();
        let d = some.last();
        assert(rest =~= desired.take(rest.len() as int));
        assert(d == desired[some.len() - 1]);
        let before = each_failed(start, rest, why);
        let end = each_failed(start, some, why);
        lemma_position_points(before, d.name@);
        let at = position(before, d.name@);
        if has_name(before, d.name@) {
            lemma_binds_stay(start, rest, why, observed, desired, k);
            assert(end[k].name == before[k].name);
            assert(known_bind(end[k], observed, desired) == known_bind(
                before[k],
                observed,
                desired,
            ));
        } else if k < before.len() {
            lemma_binds_stay(start, rest, why, observed, desired, k);
            assert(end[k] == before[k]);
        } else {
            assert(end[k] == never_attached(d, why));
            assert(desired[some.len() - 1].name@ == end[k].name@);
        }
    }
}

/// A session ends by itself exactly when nothing is desired of it.
pub proof fn law_a_session_ends_with_its_last_forward(desired: DesiredSession, r: bool)
    requires
        call_ensures(should_exit, (&desired,), r),
    ensures
        r <==> forall|x: DesiredForward| !desired.forwards@.contains(x),
{
    if !r {
        assert(desired.forwards@.contains(desired.forwards@[0]));
    }
}

/// Only leaving by decision discards intent, and only giving up keeps the last
/// state to show.
pub proof fn law_what_an_exit_keeps(reason: ExitReason, discards: bool, keeps: bool)
    requires
        call_ensures(ExitReason::discards_intent, (reason,), discards),
        call_ensures(ExitReason::keeps_state, (reason,), keeps),
    ensures
        discards <==> reason == ExitReason::Retired,
        keeps <==> reason == ExitReason::GaveUp,
        reason == ExitReason::Signalled ==> !discards && !keeps,
{
}

/// Desired state is read anew twice a second, and every exit has its word.
pub proof fn law_how_often_intent_is_read(ms: u64, reason: ExitReason, word: &'static str)
    requires
        call_ensures(poll_interval, (), ms),
        call_ensures(ExitReason::label, (reason,), word),
    ensures
        ms == 500,
        reason == ExitReason::Retired ==> word@ == "retired"@,
        reason == ExitReason::Signalled ==> word@ == "interrupted"@,
        reason == ExitReason::GaveUp ==> word@ == "gave up"@,
{
}

}
