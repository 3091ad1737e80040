//! Bringing reality in line with intent.

use crate::names::{
    distinct_names, drop_named, find_named, has_name, lemma_lookup_push, lemma_position,
    lemma_position_points, lemma_put, lemma_put_keeps_distinct, lemma_without,
    lemma_without_keeps_distinct, lookup, position, put, put_named, without, Named,
};
use crate::session::ssh::{
    answered_since, lemma_answered_nothing, lemma_answered_one, SshControl, SshEvent,
};
use crate::session::types::{AttachStatus, DesiredForward, DesiredSession, ForwardObs};
use crate::text::{concat2, concat4, dec, decimal, str_eq, views};
use crate::time::{clock_read, Timestamp};
use vstd::prelude::*;
use vstd::string::*;

verus! {

/// One step towards what is desired.
#[derive(Debug, PartialEq)]
pub enum Action {
    Attach(DesiredForward),
    Cancel(ForwardObs),
}

impl Clone for Action {
    fn clone(&self) -> (r: Self)
        ensures
            r == *self,
    {
        match self {
            Action::Attach(f) => Action::Attach(f.clone()),
            Action::Cancel(f) => Action::Cancel(f.clone()),
        }
    }
}

/// Whether an observed forward binds what a desired one asks for.
pub open spec fn same_spec(have: ForwardObs, want: DesiredForward) -> bool {
    &&& have.local_port == want.local_port
    &&& have.remote_port == want.remote_port
    &&& have.remote_host@ == want.remote_host@
}

/// What one desired forward calls for: attach it when it is missing or pending,
/// replace it when it binds something else, and leave it alone otherwise.
pub open spec fn actions_for(want: DesiredForward, observed: Seq<ForwardObs>) -> Seq<Action> {
    match lookup(observed, want.name@) {
        None => seq![Action::Attach(want)],
        Some(have) => if !same_spec(have, want) {
            seq![Action::Cancel(have), Action::Attach(want)]
        } else if have.status == AttachStatus::Pending {
            seq![Action::Attach(want)]
        } else {
            seq![]
        },
    }
}

/// What the desired forwards call for, in their order.
pub open spec fn wanted_actions(desired: Seq<DesiredForward>, observed: Seq<ForwardObs>) -> Seq<Action>
    decreases desired.len(),
{
    if desired.len() == 0 {
        seq![]
    } else {
        wanted_actions(desired.drop_last(), observed) + actions_for(desired.last(), observed)
    }
}

/// A cancel for every observed forward that is no longer desired, in order.
pub open spec fn stale_actions(desired: Seq<DesiredForward>, observed: Seq<ForwardObs>) -> Seq<Action>
    decreases observed.len(),
{
    if observed.len() == 0 {
        seq![]
    } else {
        let rest = stale_actions(desired, observed.drop_last());
        let have = observed.last();
        if has_name(desired, have.name@) {
            rest
        } else {
            rest.push(Action::Cancel(have))
        }
    }
}

/// The whole difference between intent and reality.
pub open spec fn difference(desired: Seq<DesiredForward>, observed: Seq<ForwardObs>) -> Seq<Action> {
    wanted_actions(desired, observed) + stale_actions(desired, observed)
}

/// Diff intent against reality. Pure: no ssh, no filesystem, no clock.
///
/// Cancels are emitted before attaches for the same name, so a port change
/// releases the old bind before the new one is requested.
pub fn reconcile(desired: &DesiredSession, observed: &[ForwardObs]) -> (actions: Vec<Action>)
    ensures
        actions@ == difference(desired.forwards@, observed@),
{
    let mut actions: Vec<Action> = Vec::new();
    let wants = &desired.forwards;
    let mut i: usize = 0;
    while i < wants.len()
        invariant
            i <= wants@.len(),
            actions@ == wanted_actions(wants@.take(i as int), observed@),
        decreases wants@.len() - i,
    {
        let want = &wants[i];
        proof {
            assert(wants@.take(i + 1).drop_last() =~= wants@.take(i as int));
        }
        let ghost before = actions@;
        match find_named(observed, want.name.as_str()) {
            None => {
                actions.push(Action::Attach(want.clone()));
                assert(actions@ =~= before + actions_for(*want, observed@));
            },
            Some(k) => {
                let have = &observed[k];
                let same = have.local_port == want.local_port && have.remote_port
                    == want.remote_port && str_eq(
                    have.remote_host.as_str(),
                    want.remote_host.as_str(),
                );
                if !same {
                    actions.push(Action::Cancel(have.clone()));
                    actions.push(Action::Attach(want.clone()));
                } else if have.status == AttachStatus::Pending {
                    actions.push(Action::Attach(want.clone()));
                }
                // Forwarded: nothing to do.
                // Failed with an unchanged spec: deliberately left alone, so a
                // permanently conflicting port cannot spin a retry hot loop.
                assert(actions@ =~= before + actions_for(*want, observed@));
            },
        }
        i += 1;
    }
    assert(wants@.take(i as int) =~= wants@);
    let ghost first = actions@;
    let mut j: usize = 0;
    assert(first + stale_actions(wants@, observed@.take(0)) =~= first);
    while j < observed.len()
        invariant
            j <= observed@.len(),
            first == wanted_actions(wants@, observed@),
            wants@ == desired.forwards@,
            actions@ == first + stale_actions(wants@, observed@.take(j as int)),
        decreases observed@.len() - j,
    {
        let have = &observed[j];
        let ghost before = actions@;
        let ghost rest = stale_actions(wants@, observed@.take(j as int));
        proof {
            assert(observed@.take(j + 1).drop_last() =~= observed@.take(j as int));
        }
        match find_named(wants.as_slice(), have.name.as_str()) {
            Some(_) => {},
            None => {
                actions.push(Action::Cancel(have.clone()));
                assert(actions@ =~= first + rest.push(Action::Cancel(*have)));
            },
        }
        j += 1;
    }
    assert(observed@.take(j as int) =~= observed@);
    actions
}

/// The observation that an attach leaves behind.
pub open spec fn attached(f: DesiredForward, reply: Result<(), String>, now: Timestamp) -> ForwardObs {
    ForwardObs {
        name: f.name,
        local_port: f.local_port,
        remote_host: f.remote_host,
        remote_port: f.remote_port,
        status: if reply is Ok {
            AttachStatus::Forwarded
        } else {
            AttachStatus::Failed
        },
        attached_at: if reply is Ok {
            Some(now)
        } else {
            None
        },
        error: match reply {
            Ok(_) => None,
            Err(e) => Some(e),
        },
    }
}

/// Observed forwards after one action was answered by `reply` at `now`.
///
/// A cancelled forward goes either way: intent says it should be gone, and a
/// cancel that failed because it was never attached is fine.
pub open spec fn after(
    observed: Seq<ForwardObs>,
    action: Action,
    reply: Result<(), String>,
    now: Timestamp,
) -> Seq<ForwardObs> {
    match action {
        Action::Cancel(f) => without(observed, f.name@),
        Action::Attach(f) => put(observed, attached(f, reply, now)),
    }
}

/// What is logged of one action.
pub open spec fn log_line(action: Action, reply: Result<(), String>) -> Seq<char> {
    match (action, reply) {
        (Action::Cancel(f), Ok(_)) => "cancelled "@ + decimal(f.local_port as nat) + ":"@ + decimal(
            f.remote_port as nat,
        ),
        (Action::Cancel(f), Err(e)) => "cancel of "@ + decimal(f.local_port as nat) + " failed: "@
            + e@,
        (Action::Attach(f), Ok(_)) => "attached "@ + decimal(f.local_port as nat) + " -> "@
            + f.remote_host@ + (":"@ + decimal(f.remote_port as nat)),
        (Action::Attach(f), Err(e)) => "attach of "@ + decimal(f.local_port as nat) + " failed: "@
            + e@,
    }
}

/// Fold the outcome of one action into `observed`, and say what to log.
///
/// A failed attach marks only its own forward; the session and its neighbours
/// are untouched.
pub fn apply_outcome(
    action: &Action,
    reply: Result<(), String>,
    now: Timestamp,
    observed: &mut Vec<ForwardObs>,
) -> (log: String)
    ensures
        final(observed)@ == after(old(observed)@, *action, reply, now),
        log@ == log_line(*action, reply),
{
    match action {
        Action::Cancel(f) => {
            drop_named(observed, f.name.as_str());
            let local = dec(f.local_port as u64);
            match reply {
                Ok(_) => {
                    let remote = dec(f.remote_port as u64);
                    concat4("cancelled ", local.as_str(), ":", remote.as_str())
                },
                Err(e) => concat4("cancel of ", local.as_str(), " failed: ", e.as_str()),
            }
        },
        Action::Attach(f) => {
            let local = dec(f.local_port as u64);
            let log = match &reply {
                Ok(_) => {
                    let remote = dec(f.remote_port as u64);
                    let tail = concat2(":", remote.as_str());
                    crate::text::concat5(
                        "attached ",
                        local.as_str(),
                        " -> ",
                        f.remote_host.as_str(),
                        tail.as_str(),
                    )
                },
                Err(e) => concat4("attach of ", local.as_str(), " failed: ", e.as_str()),
            };
            let ok = reply.is_ok();
            let obs = ForwardObs {
                name: f.name.clone(),
                local_port: f.local_port,
                remote_host: f.remote_host.clone(),
                remote_port: f.remote_port,
                status: if ok {
                    AttachStatus::Forwarded
                } else {
                    AttachStatus::Failed
                },
                attached_at: if ok {
                    Some(now)
                } else {
                    None
                },
                error: match reply {
                    Ok(_) => None,
                    Err(e) => Some(e),
                },
            };
            put_named(observed, f.name.as_str(), obs);
            log
        },
    }
}

/// Observed forwards after `actions` were answered by `replies`, each at its
/// own time.
pub open spec fn applied(
    observed: Seq<ForwardObs>,
    actions: Seq<Action>,
    replies: Seq<Result<(), String>>,
    times: Seq<Timestamp>,
) -> Seq<ForwardObs>
    decreases actions.len(),
{
    if actions.len() == 0 {
        observed
    } else {
        after(
            applied(observed, actions.drop_last(), replies.drop_last(), times.drop_last()),
            actions.last(),
            replies.last(),
            times.last(),
        )
    }
}

/// The request that carries out an action on `host`.
pub open spec fn request(host: Seq<char>, action: Action, reply: Result<(), String>) -> SshEvent {
    match action {
        Action::Cancel(f) => SshEvent::Cancel { host, have: f, reply },
        Action::Attach(f) => SshEvent::Forward { host, want: f, reply },
    }
}

/// The requests that carry out `actions`, one each, in order.
pub open spec fn requests(
    host: Seq<char>,
    actions: Seq<Action>,
    replies: Seq<Result<(), String>>,
) -> Seq<SshEvent> {
    Seq::new(actions.len(), |i: int| request(host, actions[i], replies[i]))
}

/// What is logged of `actions`, one line each.
pub open spec fn log_lines(actions: Seq<Action>, replies: Seq<Result<(), String>>) -> Seq<Seq<char>> {
    Seq::new(actions.len(), |i: int| log_line(actions[i], replies[i]))
}

/// `actions` were carried out on `host` with these replies at these times: ssh
/// was asked exactly for them, and observed state took in every reply.
pub open spec fn carried_out(
    host: Seq<char>,
    actions: Seq<Action>,
    replies: Seq<Result<(), String>>,
    times: Seq<Timestamp>,
    asked: Seq<SshEvent>,
    asked_after: Seq<SshEvent>,
    observed: Seq<ForwardObs>,
    observed_after: Seq<ForwardObs>,
    logs: Seq<Seq<char>>,
) -> bool {
    &&& replies.len() == actions.len()
    &&& times.len() == actions.len()
    &&& forall|i: int| 0 <= i < times.len() ==> clock_read(#[trigger] times[i])
    &&& asked_after == asked + requests(host, actions, replies)
    &&& observed_after == applied(observed, actions, replies, times)
    &&& logs == log_lines(actions, replies)
}

/// Execute `actions` and fold the outcomes into `observed`.
///
/// Returns log lines for the caller to write. Every action becomes one request
/// to ssh, in order, whatever came of the ones before it.
pub fn apply<S: SshControl>(
    actions: &[Action],
    host: &str,
    ssh: &mut S,
    observed: &mut Vec<ForwardObs>,
) -> (logs: Vec<String>)
    ensures
        exists|replies: Seq<Result<(), String>>, times: Seq<Timestamp>|
            carried_out(
                host@,
                actions@,
                replies,
                times,
                old(ssh).events(),
                final(ssh).events(),
                old(observed)@,
                final(observed)@,
                views(logs@),
            ),
        answered_since(*old(ssh), *final(ssh)),
{
    let mut logs: Vec<String> = Vec::new();
    let ghost mut replies: Seq<Result<(), String>> = seq![];
    let ghost mut times: Seq<Timestamp> = seq![];
    let mut i: usize = 0;
    proof {
        assert(actions@.take(0) =~= seq![]);
        assert(requests(host@, actions@.take(0), replies) =~= seq![]);
        assert(log_lines(actions@.take(0), replies) =~= seq![]);
        assert(views(logs@) =~= seq![]);
        lemma_answered_nothing(*ssh);
    }
    while i < actions.len()
        invariant
            i <= actions@.len(),
            answered_since(*old(ssh), *ssh),
            carried_out(
                host@,
                actions@.take(i as int),
                replies,
                times,
                old(ssh).events(),
                ssh.events(),
                old(observed)@,
                observed@,
                views(logs@),
            ),
        decreases actions@.len() - i,
    {
        let action = &actions[i];
        let ghost done = actions@.take(i as int);
        let ghost before = *ssh;
        let ghost lines = views(logs@);
        let reply = match action {
            Action::Cancel(f) => ssh.cancel(host, f),
            Action::Attach(f) => ssh.forward(host, f),
        };
        let now = crate::time::now();
        let ghost r = reply;
        let line = apply_outcome(action, reply, now, observed);
        let ghost said = line@;
        logs.push(line);
        proof {
            let old_replies = replies;
            let old_times = times;
            replies = replies.push(r);
            times = times.push(now);
            let more = actions@.take(i + 1);
            assert(more.drop_last() =~= done);
            assert(replies.drop_last() =~= old_replies);
            assert(times.drop_last() =~= old_times);
            assert(requests(host@, more, replies) =~= requests(host@, done, old_replies).push(
                request(host@, *action, r),
            ));
            assert(ssh.events() =~= old(ssh).events() + requests(host@, more, replies));
            lemma_answered_one(*old(ssh), before, request(host@, *action, r), *ssh);
            assert(log_lines(more, replies) =~= log_lines(done, old_replies).push(said));
            assert(views(logs@) =~= lines.push(said));
        }
        i += 1;
    }
    proof {
        assert(actions@.take(i as int) =~= actions@);
    }
    logs
}

/// The name that an action is about.
pub open spec fn about(action: Action) -> Seq<char> {
    match action {
        Action::Cancel(f) => f.name@,
        Action::Attach(f) => f.name@,
    }
}

/// An observation that calls for nothing: it binds what is wanted, and an
/// attach was already answered.
pub open spec fn settled(want: DesiredForward, observed: Seq<ForwardObs>) -> bool {
    match lookup(observed, want.name@) {
        None => false,
        Some(have) => same_spec(have, want) && have.status != AttachStatus::Pending,
    }
}

/// Carrying out one list after another.
proof fn lemma_applied_append(
    observed: Seq<ForwardObs>,
    a: Seq<Action>,
    b: Seq<Action>,
    replies: Seq<Result<(), String>>,
    times: Seq<Timestamp>,
)
    requires
        replies.len() == a.len() + b.len(),
        times.len() == a.len() + b.len(),
    ensures
        applied(observed, a + b, replies, times) == applied(
            applied(observed, a, replies.take(a.len() as int), times.take(a.len() as int)),
            b,
            replies.skip(a.len() as int),
            times.skip(a.len() as int),
        ),
    decreases b.len(),
{
    let n = a.len() as int;
    if b.len() == 0 {
        assert(a + b =~= a);
        assert(replies.take(n) =~= replies);
        assert(times.take(n) =~= times);
    } else {
        let (r, t) = (replies.drop_last(), times.drop_last());
        lemma_applied_append(observed, a, b.drop_last(), r, t);
        assert((a + b).drop_last() =~= a + b.drop_last());
        assert(r.take(n) =~= replies.take(n));
        assert(t.take(n) =~= times.take(n));
        assert(r.skip(n) =~= replies.skip(n).drop_last());
        assert(t.skip(n) =~= times.skip(n).drop_last());
    }
}

/// One action changes what is observed under its own name only. In particular
/// an attach that failed leaves its neighbours as they were.
pub proof fn law_an_action_touches_its_own_name_only(
    observed: Seq<ForwardObs>,
    action: Action,
    reply: Result<(), String>,
    now: Timestamp,
    name: Seq<char>,
)
    requires
        name != about(action),
    ensures
        lookup(after(observed, action, reply, now), name) == lookup(observed, name),
        has_name(after(observed, action, reply, now), name) == has_name(observed, name),
{
    match action {
        Action::Cancel(f) => lemma_without(observed, f.name@, name),
        Action::Attach(f) => lemma_put(observed, attached(f, reply, now), name),
    }
}

/// A list of actions changes nothing under a name that none of them is about.
pub proof fn law_actions_leave_other_names_alone(
    observed: Seq<ForwardObs>,
    actions: Seq<Action>,
    replies: Seq<Result<(), String>>,
    times: Seq<Timestamp>,
    name: Seq<char>,
)
    requires
        forall|i: int| 0 <= i < actions.len() ==> about(#[trigger] actions[i]) != name,
    ensures
        lookup(applied(observed, actions, replies, times), name) == lookup(observed, name),
        has_name(applied(observed, actions, replies, times), name) == has_name(observed, name),
    decreases actions.len(),
{
    if actions.len() > 0 {
        let rest = actions.drop_last();
        assert forall|i: int| 0 <= i < rest.len() implies about(#[trigger] rest[i]) != name by {
            assert(rest[i] == actions[i]);
        }
        law_actions_leave_other_names_alone(
            observed,
            rest,
            replies.drop_last(),
            times.drop_last(),
            name,
        );
        law_an_action_touches_its_own_name_only(
            applied(observed, rest, replies.drop_last(), times.drop_last()),
            actions.last(),
            replies.last(),
            times.last(),
            name,
        );
    }
}

/// Observed forwards keep distinct names, whatever is carried out.
pub proof fn law_actions_keep_names_distinct(
    observed: Seq<ForwardObs>,
    actions: Seq<Action>,
    replies: Seq<Result<(), String>>,
    times: Seq<Timestamp>,
)
    requires
        distinct_names(observed),
    ensures
        distinct_names(applied(observed, actions, replies, times)),
    decreases actions.len(),
{
    if actions.len() > 0 {
        let (r, t) = (replies.drop_last(), times.drop_last());
        law_actions_keep_names_distinct(observed, actions.drop_last(), r, t);
        let before = applied(observed, actions.drop_last(), r, t);
        match actions.last() {
            Action::Cancel(f) => lemma_without_keeps_distinct(before, f.name@),
            Action::Attach(f) => lemma_put_keeps_distinct(
                before,
                attached(f, replies.last(), times.last()),
            ),
        }
    }
}

/// What is wanted is about wanted names.
proof fn lemma_wanted_names(desired: Seq<DesiredForward>, observed: Seq<ForwardObs>, i: int)
    requires
        0 <= i < wanted_actions(desired, observed).len(),
    ensures
        has_name(desired, about(wanted_actions(desired, observed)[i])),
    decreases desired.len(),
{
    let rest = desired.drop_last();
    let want = desired.last();
    let first = wanted_actions(rest, observed);
    let all = wanted_actions(desired, observed);
    if i < first.len() {
        lemma_wanted_names(rest, observed, i);
        assert(all[i] == first[i]);
        let k = choose|k: int|
            0 <= k < rest.len() && #[trigger] rest[k].named() == about(first[i]);
        assert(desired[k].named() == about(all[i]));
    } else {
        lemma_position_points(observed, want.name@);
        assert(desired[desired.len() - 1].named() == want.name@);
        assert(all[i] == actions_for(want, observed)[i - first.len()]);
    }
}

/// What is stale is about names that nobody wants.
proof fn lemma_stale_names(desired: Seq<DesiredForward>, observed: Seq<ForwardObs>, i: int)
    requires
        0 <= i < stale_actions(desired, observed).len(),
    ensures
        !has_name(desired, about(stale_actions(desired, observed)[i])),
        stale_actions(desired, observed)[i] is Cancel,
    decreases observed.len(),
{
    let first = stale_actions(desired, observed.drop_last());
    if i < first.len() {
        lemma_stale_names(desired, observed.drop_last(), i);
    }
}

/// The actions for one forward settle it, and leave it as it was when it was
/// settled already.
proof fn lemma_one_forward_settles(
    want: DesiredForward,
    observed: Seq<ForwardObs>,
    start: Seq<ForwardObs>,
    replies: Seq<Result<(), String>>,
    times: Seq<Timestamp>,
)
    requires
        lookup(start, want.name@) == lookup(observed, want.name@),
        replies.len() == actions_for(want, observed).len(),
        times.len() == actions_for(want, observed).len(),
    ensures
        settled(want, applied(start, actions_for(want, observed), replies, times)),
        settled(want, observed) ==> actions_for(want, observed).len() == 0,
        settled(want, observed) ==> lookup(
            applied(start, actions_for(want, observed), replies, times),
            want.name@,
        ) == lookup(observed, want.name@),
{
    let actions = actions_for(want, observed);
    let end = applied(start, actions, replies, times);
    if actions.len() == 1 {
        assert(actions.drop_last() =~= seq![]);
        let obs = attached(want, replies[0], times[0]);
        lemma_put(start, obs, want.name@);
        assert(actions.last() == Action::Attach(want));
        assert(applied(start, actions.drop_last(), replies.drop_last(), times.drop_last())
            == start);
        assert(end == put(start, obs));
        assert(obs.named() == want.name@);
        assert(lookup(end, want.name@) == Some(obs));
    } else if actions.len() == 2 {
        reveal_with_fuel(applied, 3);
        let rest = actions.drop_last();
        assert(rest.drop_last() =~= seq![]);
        let mid = applied(start, rest, replies.drop_last(), times.drop_last());
        let obs = attached(want, replies[1], times[1]);
        lemma_put(mid, obs, want.name@);
        assert(actions.last() == Action::Attach(want));
        assert(end == put(mid, obs));
        assert(obs.named() == want.name@);
        assert(lookup(end, want.name@) == Some(obs));
    }
}

/// Carrying out what the wanted forwards call for settles each of them.
proof fn lemma_wanted_settle(
    desired: Seq<DesiredForward>,
    observed: Seq<ForwardObs>,
    replies: Seq<Result<(), String>>,
    times: Seq<Timestamp>,
)
    requires
        distinct_names(desired),
        replies.len() == wanted_actions(desired, observed).len(),
        times.len() == wanted_actions(desired, observed).len(),
    ensures
        forall|j: int|
            0 <= j < desired.len() ==> settled(
                #[trigger] desired[j],
                applied(observed, wanted_actions(desired, observed), replies, times),
            ),
        forall|j: int|
            0 <= j < desired.len() && settled(#[trigger] desired[j], observed) ==> lookup(
                applied(observed, wanted_actions(desired, observed), replies, times),
                desired[j].name@,
            ) == lookup(observed, desired[j].name@),
    decreases desired.len(),
{
    if desired.len() > 0 {
        let rest = desired.drop_last();
        let want = desired.last();
        let a = wanted_actions(rest, observed);
        let b = actions_for(want, observed);
        let n = a.len() as int;
        let end = applied(observed, wanted_actions(desired, observed), replies, times);
        let mid = applied(observed, a, replies.take(n), times.take(n));
        assert forall|i: int, j: int| 0 <= i < j < rest.len() implies #[trigger] rest[i].named()
            != #[trigger] rest[j].named() by {
            assert(rest[i] == desired[i] && rest[j] == desired[j]);
        }
        lemma_wanted_settle(rest, observed, replies.take(n), times.take(n));
        lemma_applied_append(observed, a, b, replies, times);
        assert forall|i: int| 0 <= i < a.len() implies about(#[trigger] a[i]) != want.name@ by {
            lemma_wanted_names(rest, observed, i);
            let k = choose|k: int| 0 <= k < rest.len() && #[trigger] rest[k].named() == about(a[i]);
            assert(rest[k] == desired[k]);
            assert(desired[k].named() != desired[desired.len() - 1].named());
        }
        law_actions_leave_other_names_alone(
            observed,
            a,
            replies.take(n),
            times.take(n),
            want.name@,
        );
        lemma_one_forward_settles(want, observed, mid, replies.skip(n), times.skip(n));
        lemma_position_points(observed, want.name@);
        assert forall|j: int| 0 <= j < desired.len() implies settled(#[trigger] desired[j], end)
            && (settled(desired[j], observed) ==> lookup(end, desired[j].name@) == lookup(
            observed,
            desired[j].name@,
        )) by {
            if j < rest.len() {
                assert(desired[j] == rest[j]);
                assert(settled(rest[j], mid));
                assert(desired[j].named() != desired[desired.len() - 1].named());
                assert forall|i: int| 0 <= i < b.len() implies about(#[trigger] b[i])
                    != desired[j].name@ by {}
                law_actions_leave_other_names_alone(
                    mid,
                    b,
                    replies.skip(n),
                    times.skip(n),
                    desired[j].name@,
                );
            }
        }
    }
}

/// Carrying out the stale cancels leaves no name that nobody wants.
proof fn lemma_stale_leave(
    desired: Seq<DesiredForward>,
    observed: Seq<ForwardObs>,
    start: Seq<ForwardObs>,
    replies: Seq<Result<(), String>>,
    times: Seq<Timestamp>,
    name: Seq<char>,
)
    requires
        !has_name(desired, name),
        has_name(start, name) ==> has_name(observed, name),
    ensures
        !has_name(applied(start, stale_actions(desired, observed), replies, times), name),
    decreases observed.len(),
{
    if observed.len() > 0 {
        let rest = observed.drop_last();
        let have = observed.last();
        assert(observed =~= rest.push(have));
        lemma_lookup_push(rest, have, name);
        let all = stale_actions(desired, observed);
        if has_name(desired, have.name@) {
            lemma_stale_leave(desired, rest, start, replies, times, name);
        } else {
            let (r, t) = (replies.drop_last(), times.drop_last());
            assert(all.drop_last() =~= stale_actions(desired, rest));
            let mid = applied(start, all.drop_last(), r, t);
            lemma_without(mid, have.name@, name);
            if name != have.name@ {
                lemma_stale_leave(desired, rest, start, r, t, name);
            }
        }
    }
}

/// There is nothing to do exactly when every wanted forward is settled and
/// every observed one is wanted.
pub proof fn law_nothing_to_do_when_reality_matches(
    desired: Seq<DesiredForward>,
    observed: Seq<ForwardObs>,
)
    ensures
        difference(desired, observed).len() == 0 <==> {
            &&& forall|j: int| 0 <= j < desired.len() ==> settled(#[trigger] desired[j], observed)
            &&& forall|j: int|
                0 <= j < observed.len() ==> has_name(desired, #[trigger] observed[j].name@)
        },
{
    lemma_all_settled(desired, observed);
    lemma_none_stale(desired, observed);
}

proof fn lemma_all_settled(desired: Seq<DesiredForward>, observed: Seq<ForwardObs>)
    ensures
        wanted_actions(desired, observed).len() == 0 <==> forall|j: int|
            0 <= j < desired.len() ==> settled(#[trigger] desired[j], observed),
    decreases desired.len(),
{
    if desired.len() > 0 {
        let rest = desired.drop_last();
        lemma_all_settled(rest, observed);
        assert(actions_for(desired.last(), observed).len() == 0 <==> settled(
            desired.last(),
            observed,
        ));
        if wanted_actions(desired, observed).len() == 0 {
            assert forall|j: int| 0 <= j < desired.len() implies settled(
                #[trigger] desired[j],
                observed,
            ) by {
                if j < rest.len() {
                    assert(rest[j] == desired[j]);
                }
            }
        }
        if forall|j: int| 0 <= j < desired.len() ==> settled(#[trigger] desired[j], observed) {
            assert forall|j: int| 0 <= j < rest.len() implies settled(
                #[trigger] rest[j],
                observed,
            ) by {
                assert(rest[j] == desired[j]);
            }
            assert(settled(desired[desired.len() - 1], observed));
        }
    }
}

proof fn lemma_none_stale(desired: Seq<DesiredForward>, observed: Seq<ForwardObs>)
    ensures
        stale_actions(desired, observed).len() == 0 <==> forall|j: int|
            0 <= j < observed.len() ==> has_name(desired, #[trigger] observed[j].name@),
    decreases observed.len(),
{
    if observed.len() > 0 {
        let rest = observed.drop_last();
        lemma_none_stale(desired, rest);
        if stale_actions(desired, observed).len() == 0 {
            assert forall|j: int| 0 <= j < observed.len() implies has_name(
                desired,
                #[trigger] observed[j].name@,
            ) by {
                if j < rest.len() {
                    assert(rest[j] == observed[j]);
                }
            }
        }
        if forall|j: int| 0 <= j < observed.len() ==> has_name(desired, #[trigger] observed[j].name@) {
            assert forall|j: int| 0 <= j < rest.len() implies has_name(
                desired,
                #[trigger] rest[j].name@,
            ) by {
                assert(rest[j] == observed[j]);
            }
            assert(has_name(desired, observed[observed.len() - 1].name@));
        }
    }
}

/// One pass is enough: whatever ssh replied to each request, carrying out the
/// difference leaves nothing more to do, and a forward that was settled
/// beforehand is observed exactly as it was.
pub proof fn law_one_pass_converges(
    desired: Seq<DesiredForward>,
    observed: Seq<ForwardObs>,
    replies: Seq<Result<(), String>>,
    times: Seq<Timestamp>,
)
    requires
        distinct_names(desired),
        replies.len() == difference(desired, observed).len(),
        times.len() == difference(desired, observed).len(),
    ensures
        difference(
            desired,
            applied(observed, difference(desired, observed), replies, times),
        ).len() == 0,
        forall|j: int|
            0 <= j < desired.len() && settled(#[trigger] desired[j], observed) ==> lookup(
                applied(observed, difference(desired, observed), replies, times),
                desired[j].name@,
            ) == lookup(observed, desired[j].name@),
{
    let a = wanted_actions(desired, observed);
    let b = stale_actions(desired, observed);
    let n = a.len() as int;
    let mid = applied(observed, a, replies.take(n), times.take(n));
    let end = applied(observed, difference(desired, observed), replies, times);
    lemma_applied_append(observed, a, b, replies, times);
    lemma_wanted_settle(desired, observed, replies.take(n), times.take(n));
    assert forall|j: int| 0 <= j < desired.len() implies settled(#[trigger] desired[j], end)
        && lookup(end, desired[j].name@) == lookup(mid, desired[j].name@) by {
        assert(settled(desired[j], mid));
        assert forall|i: int| 0 <= i < b.len() implies about(#[trigger] b[i])
            != desired[j].name@ by {
            lemma_stale_names(desired, observed, i);
            assert(desired[j].named() == desired[j].name@);
        }
        law_actions_leave_other_names_alone(
            mid,
            b,
            replies.skip(n),
            times.skip(n),
            desired[j].name@,
        );
    }
    assert forall|j: int| 0 <= j < end.len() implies has_name(
        desired,
        #[trigger] end[j].name@,
    ) by {
        let name = end[j].name@;
        assert(end[j].named() == name);
        if !has_name(desired, name) {
            assert forall|i: int| 0 <= i < a.len() implies about(#[trigger] a[i]) != name by {
                lemma_wanted_names(desired, observed, i);
            }
            law_actions_leave_other_names_alone(
                observed,
                a,
                replies.take(n),
                times.take(n),
                name,
            );
            lemma_stale_leave(desired, observed, mid, replies.skip(n), times.skip(n), name);
        }
    }
    law_nothing_to_do_when_reality_matches(desired, end);
}

/// Where the actions for one wanted forward stand in the difference.
proof fn lemma_wanted_place(
    desired: Seq<DesiredForward>,
    observed: Seq<ForwardObs>,
    j: int,
) -> (at: int)
    requires
        0 <= j < desired.len(),
    ensures
        0 <= at,
        at + actions_for(desired[j], observed).len() <= wanted_actions(desired, observed).len(),
        forall|i: int|
            0 <= i < actions_for(desired[j], observed).len() ==> wanted_actions(
                desired,
                observed,
            )[at + i] == #[trigger] actions_for(desired[j], observed)[i],
    decreases desired.len(),
{
    let rest = desired.drop_last();
    if j == rest.len() {
        wanted_actions(rest, observed).len() as int
    } else {
        assert(rest[j] == desired[j]);
        lemma_wanted_place(rest, observed, j)
    }
}

/// A changed forward is cancelled right before it is attached anew, so the new
/// bind never races the old one.
pub proof fn law_a_change_cancels_then_attaches(
    desired: Seq<DesiredForward>,
    observed: Seq<ForwardObs>,
    j: int,
)
    requires
        0 <= j < desired.len(),
        has_name(observed, desired[j].name@),
        !same_spec(lookup(observed, desired[j].name@)->0, desired[j]),
    ensures
        exists|at: int|
            0 <= at && at + 1 < difference(desired, observed).len() && #[trigger] difference(
                desired,
                observed,
            )[at] == Action::Cancel(lookup(observed, desired[j].name@)->0) && difference(
                desired,
                observed,
            )[at + 1] == Action::Attach(desired[j]),
{
    let at = lemma_wanted_place(desired, observed, j);
    let mine = actions_for(desired[j], observed);
    let all = wanted_actions(desired, observed);
    assert(all[at + 0] == mine[0] && all[at + 1] == mine[1]);
    assert(difference(desired, observed)[at] == all[at]);
    assert(difference(desired, observed)[at + 1] == all[at + 1]);
}

/// When nothing is known to be attached, as after the master was replaced,
/// every wanted forward is attached again.
pub proof fn law_a_new_master_reattaches_everything(
    desired: Seq<DesiredForward>,
    observed: Seq<ForwardObs>,
    j: int,
)
    requires
        0 <= j < desired.len(),
        forall|i: int|
            0 <= i < observed.len() ==> (#[trigger] observed[i]).status == AttachStatus::Pending,
    ensures
        difference(desired, observed).contains(Action::Attach(desired[j])),
{
    lemma_position_points(observed, desired[j].name@);
    let at = lemma_wanted_place(desired, observed, j);
    let mine = actions_for(desired[j], observed);
    let all = wanted_actions(desired, observed);
    let last = mine.len() - 1;
    assert(mine[last] == Action::Attach(desired[j]));
    assert(all[at + last] == mine[last]);
    assert(difference(desired, observed)[at + last] == all[at + last]);
}

/// A forward that failed and still asks for the same bind is left alone: no
/// action is about it, so a port in use cannot spin a retry loop.
pub proof fn law_a_settled_forward_is_left_alone(
    desired: Seq<DesiredForward>,
    observed: Seq<ForwardObs>,
    j: int,
    i: int,
)
    requires
        distinct_names(desired),
        0 <= j < desired.len(),
        settled(desired[j], observed),
        0 <= i < difference(desired, observed).len(),
    ensures
        about(difference(desired, observed)[i]) != desired[j].name@,
    decreases desired.len(),
{
    let a = wanted_actions(desired, observed);
    assert(desired[j].named() == desired[j].name@);
    if i >= a.len() {
        lemma_stale_names(desired, observed, i - a.len());
    } else {
        lemma_settled_not_wanted(desired, observed, j, i);
    }
}

proof fn lemma_settled_not_wanted(
    desired: Seq<DesiredForward>,
    observed: Seq<ForwardObs>,
    j: int,
    i: int,
)
    requires
        distinct_names(desired),
        0 <= j < desired.len(),
        settled(desired[j], observed),
        0 <= i < wanted_actions(desired, observed).len(),
    ensures
        about(wanted_actions(desired, observed)[i]) != desired[j].name@,
    decreases desired.len(),
{
    let rest = desired.drop_last();
    let first = wanted_actions(rest, observed);
    assert forall|x: int, y: int| 0 <= x < y < rest.len() implies #[trigger] rest[x].named()
        != #[trigger] rest[y].named() by {
        assert(rest[x] == desired[x] && rest[y] == desired[y]);
    }
    if i < first.len() {
        if j < rest.len() {
            assert(rest[j] == desired[j]);
            lemma_settled_not_wanted(rest, observed, j, i);
        } else {
            lemma_wanted_names(rest, observed, i);
            let k = choose|k: int|
                0 <= k < rest.len() && #[trigger] rest[k].named() == about(first[i]);
            assert(rest[k] == desired[k]);
            assert(desired[k].named() != desired[j].named());
        }
    } else {
        assert(desired[j].named() != desired[desired.len() - 1].named() || j == rest.len());
        lemma_position_points(observed, desired.last().name@);
        let mine = actions_for(desired.last(), observed);
        assert(wanted_actions(desired, observed)[i] == mine[i - first.len()]);
    }
}

/// With nothing observed, every wanted forward is attached, in order, and
/// nothing else is done.
pub proof fn law_from_nothing_everything_is_attached(desired: Seq<DesiredForward>)
    ensures
        difference(desired, seq![]) == Seq::new(
            desired.len(),
            |i: int| Action::Attach(desired[i]),
        ),
    decreases desired.len(),
{
    let all = Seq::new(desired.len(), |i: int| Action::Attach(desired[i]));
    if desired.len() > 0 {
        let rest = desired.drop_last();
        law_from_nothing_everything_is_attached(rest);
        lemma_position_points(Seq::<ForwardObs>::empty(), desired.last().name@);
        assert(difference(rest, seq![]) =~= wanted_actions(rest, seq![]));
        assert(difference(desired, seq![]) =~= wanted_actions(desired, seq![]));
        assert(actions_for(desired.last(), seq![]) =~= seq![Action::Attach(desired.last())]);
        assert(all =~= Seq::new(rest.len(), |i: int| Action::Attach(rest[i])).push(
            Action::Attach(desired.last()),
        ));
    } else {
        assert(difference(desired, seq![]) =~= all);
    }
}

/// A forward that no action is about is bound already, and exactly as it is
/// wanted: the same local port, the same remote host and the same remote port.
pub proof fn law_nothing_is_left_alone_that_binds_something_else(
    desired: Seq<DesiredForward>,
    observed: Seq<ForwardObs>,
    j: int,
)
    requires
        0 <= j < desired.len(),
        forall|i: int|
            0 <= i < difference(desired, observed).len() ==> match #[trigger] difference(
                desired,
                observed,
            )[i] {
                Action::Attach(f) => f.name@ != desired[j].name@,
                Action::Cancel(f) => f.name@ != desired[j].name@,
            },
    ensures
        exists|k: int|
            0 <= k < observed.len() && (#[trigger] observed[k]).name@ == desired[j].name@
                && observed[k].local_port == desired[j].local_port && observed[k].remote_port
                == desired[j].remote_port && observed[k].remote_host@ == desired[j].remote_host@
                && observed[k].status != AttachStatus::Pending,
{
    let name = desired[j].name@;
    let at = lemma_wanted_place(desired, observed, j);
    let mine = actions_for(desired[j], observed);
    let all = wanted_actions(desired, observed);
    lemma_position_points(observed, name);
    if mine.len() > 0 {
        assert(all[at + 0] == mine[0]);
        assert(difference(desired, observed)[at] == mine[0]);
    }
    assert(observed[position(observed, name)].name@ == name);
}

/// A wanted forward that nothing is observed of is attached.
pub proof fn law_what_is_missing_is_attached(
    desired: Seq<DesiredForward>,
    observed: Seq<ForwardObs>,
    j: int,
)
    requires
        0 <= j < desired.len(),
        forall|k: int| 0 <= k < observed.len() ==> (#[trigger] observed[k]).name@
            != desired[j].name@,
    ensures
        difference(desired, observed).contains(Action::Attach(desired[j])),
{
    let at = lemma_wanted_place(desired, observed, j);
    let mine = actions_for(desired[j], observed);
    lemma_position_points(observed, desired[j].name@);
    if has_name(observed, desired[j].name@) {
        let k = position(observed, desired[j].name@);
        assert(observed[k].name@ == desired[j].name@);
    }
    assert(wanted_actions(desired, observed)[at + 0] == mine[0]);
    assert(difference(desired, observed)[at] == Action::Attach(desired[j]));
}

/// What is observed and wanted by nobody is cancelled.
pub proof fn law_what_nobody_wants_is_cancelled(
    desired: Seq<DesiredForward>,
    observed: Seq<ForwardObs>,
    k: int,
)
    requires
        0 <= k < observed.len(),
        forall|j: int| 0 <= j < desired.len() ==> (#[trigger] desired[j]).name@
            != observed[k].name@,
    ensures
        difference(desired, observed).contains(Action::Cancel(observed[k])),
{
    lemma_stale_place(desired, observed, k);
    let b = stale_actions(desired, observed);
    let i = choose|i: int| 0 <= i < b.len() && b[i] == Action::Cancel(observed[k]);
    assert(difference(desired, observed)[wanted_actions(desired, observed).len() + i] == b[i]);
}

proof fn lemma_stale_place(desired: Seq<DesiredForward>, observed: Seq<ForwardObs>, k: int)
    requires
        0 <= k < observed.len(),
        forall|j: int| 0 <= j < desired.len() ==> (#[trigger] desired[j]).name@
            != observed[k].name@,
    ensures
        stale_actions(desired, observed).contains(Action::Cancel(observed[k])),
    decreases observed.len(),
{
    let rest = observed.drop_last();
    let all = stale_actions(desired, observed);
    if k < rest.len() {
        assert(rest[k] == observed[k]);
        lemma_stale_place(desired, rest, k);
        let first = stale_actions(desired, rest);
        let i = choose|i: int| 0 <= i < first.len() && first[i] == Action::Cancel(observed[k]);
        assert(all[i] == first[i]);
    } else {
        if has_name(desired, observed[k].name@) {
            let j = choose|j: int|
                0 <= j < desired.len() && #[trigger] desired[j].named() == observed[k].name@;
            assert(desired[j].name@ == observed[k].name@);
        }
        assert(all.last() == Action::Cancel(observed[k]));
        assert(all[all.len() - 1] == Action::Cancel(observed[k]));
    }
}

/// A forward whose ports or remote host changed is cancelled as it was observed,
/// and right after that attached as it is wanted.
pub proof fn law_a_moved_forward_is_cancelled_and_attached(
    desired: Seq<DesiredForward>,
    observed: Seq<ForwardObs>,
    j: int,
    k: int,
)
    requires
        0 <= j < desired.len(),
        0 <= k < observed.len(),
        observed[k].name@ == desired[j].name@,
        forall|m: int| 0 <= m < k ==> (#[trigger] observed[m]).name@ != desired[j].name@,
        observed[k].local_port != desired[j].local_port || observed[k].remote_port
            != desired[j].remote_port || observed[k].remote_host@ != desired[j].remote_host@,
    ensures
        exists|at: int|
            0 <= at && at + 1 < difference(desired, observed).len() && #[trigger] difference(
                desired,
                observed,
            )[at] == Action::Cancel(observed[k]) && difference(desired, observed)[at + 1]
                == Action::Attach(desired[j]),
{
    lemma_first(observed, desired[j].name@, k);
    law_a_change_cancels_then_attaches(desired, observed, j);
}

proof fn lemma_first(observed: Seq<ForwardObs>, name: Seq<char>, k: int)
    requires
        0 <= k < observed.len(),
        observed[k].name@ == name,
        forall|m: int| 0 <= m < k ==> (#[trigger] observed[m]).name@ != name,
    ensures
        has_name(observed, name),
        lookup(observed, name) == Some(observed[k]),
{
    assert forall|m: int| 0 <= m < k implies #[trigger] observed[m].named() != name by {
        assert(observed[m].name@ != name);
    }
    lemma_position(observed, name, k);
}

/// Whatever is attached is wanted, and was not bound that way: it was not
/// observed, is to be asked for again, or was bound to something else.
pub proof fn law_only_what_is_wanted_is_attached(
    desired: Seq<DesiredForward>,
    observed: Seq<ForwardObs>,
    i: int,
)
    requires
        0 <= i < difference(desired, observed).len(),
        difference(desired, observed)[i] is Attach,
    ensures
        desired.contains(difference(desired, observed)[i]->Attach_0),
        forall|k: int|
            0 <= k < observed.len() && (#[trigger] observed[k]).name@ == difference(
                desired,
                observed,
            )[i]->Attach_0.name@ && (forall|m: int|
                0 <= m < k ==> (#[trigger] observed[m]).name@ != difference(
                    desired,
                    observed,
                )[i]->Attach_0.name@) ==> {
                let f = difference(desired, observed)[i]->Attach_0;
                observed[k].status == AttachStatus::Pending || observed[k].local_port
                    != f.local_port || observed[k].remote_port != f.remote_port
                    || observed[k].remote_host@ != f.remote_host@
            },
{
    let a = wanted_actions(desired, observed);
    if i >= a.len() {
        lemma_stale_names(desired, observed, i - a.len());
    } else {
        let j = lemma_wanted_source(desired, observed, i);
        let f = difference(desired, observed)[i]->Attach_0;
        assert(desired[j] == f);
        assert forall|k: int|
            0 <= k < observed.len() && (#[trigger] observed[k]).name@ == f.name@ && (forall|m: int|
                0 <= m < k ==> (#[trigger] observed[m]).name@ != f.name@) implies
            observed[k].status == AttachStatus::Pending || observed[k].local_port != f.local_port
            || observed[k].remote_port != f.remote_port || observed[k].remote_host@
            != f.remote_host@ by {
            lemma_first(observed, f.name@, k);
        }
    }
}

/// Which wanted forward an action is there for.
proof fn lemma_wanted_source(
    desired: Seq<DesiredForward>,
    observed: Seq<ForwardObs>,
    i: int,
) -> (j: int)
    requires
        0 <= i < wanted_actions(desired, observed).len(),
    ensures
        0 <= j < desired.len(),
        actions_for(desired[j], observed).contains(wanted_actions(desired, observed)[i]),
    decreases desired.len(),
{
    let rest = desired.drop_last();
    let first = wanted_actions(rest, observed);
    if i < first.len() {
        let j = lemma_wanted_source(rest, observed, i);
        assert(rest[j] == desired[j]);
        assert(wanted_actions(desired, observed)[i] == first[i]);
        j
    } else {
        let mine = actions_for(desired.last(), observed);
        assert(wanted_actions(desired, observed)[i] == mine[i - first.len()]);
        assert(mine.contains(mine[i - first.len()]));
        desired.len() - 1
    }
}

/// Whatever is cancelled was observed, and is not wanted the way it is bound.
pub proof fn law_only_what_is_out_of_place_is_cancelled(
    desired: Seq<DesiredForward>,
    observed: Seq<ForwardObs>,
    i: int,
)
    requires
        forall|x: int, y: int|
            0 <= x < y < desired.len() ==> (#[trigger] desired[x]).name@ != (
            #[trigger] desired[y]).name@,
        0 <= i < difference(desired, observed).len(),
        difference(desired, observed)[i] is Cancel,
    ensures
        observed.contains(difference(desired, observed)[i]->Cancel_0),
        forall|j: int|
            0 <= j < desired.len() && (#[trigger] desired[j]).name@ == difference(
                desired,
                observed,
            )[i]->Cancel_0.name@ ==> {
                let o = difference(desired, observed)[i]->Cancel_0;
                o.local_port != desired[j].local_port || o.remote_port != desired[j].remote_port
                    || o.remote_host@ != desired[j].remote_host@
            },
{
    let a = wanted_actions(desired, observed);
    let o = difference(desired, observed)[i]->Cancel_0;
    if i >= a.len() {
        lemma_stale_names(desired, observed, i - a.len());
        lemma_stale_source(desired, observed, i - a.len());
        assert forall|j: int| 0 <= j < desired.len() implies (#[trigger] desired[j]).name@
            != o.name@ by {
            assert(desired[j].named() == desired[j].name@);
        }
    } else {
        let j = lemma_wanted_source(desired, observed, i);
        lemma_position_points(observed, desired[j].name@);
        assert(observed[position(observed, desired[j].name@)] == o);
        assert(o.name@ == desired[j].name@);
        assert forall|k: int| 0 <= k < desired.len() && (#[trigger] desired[k]).name@
            == o.name@ implies k == j by {
            if k < j {
                assert(desired[k].name@ != desired[j].name@);
            } else if j < k {
                assert(desired[j].name@ != desired[k].name@);
            }
        }
    }
}

proof fn lemma_stale_source(desired: Seq<DesiredForward>, observed: Seq<ForwardObs>, i: int)
    requires
        0 <= i < stale_actions(desired, observed).len(),
    ensures
        stale_actions(desired, observed)[i] is Cancel,
        observed.contains(stale_actions(desired, observed)[i]->Cancel_0),
    decreases observed.len(),
{
    let rest = observed.drop_last();
    let first = stale_actions(desired, rest);
    if i < first.len() {
        lemma_stale_source(desired, rest, i);
        let o = first[i]->Cancel_0;
        let k = choose|k: int| 0 <= k < rest.len() && rest[k] == o;
        assert(observed[k] == o);
        assert(stale_actions(desired, observed)[i] == first[i]);
    } else {
        assert(observed[observed.len() - 1] == observed.last());
    }
}

/// The reply decides what is observed: an attach that ssh accepted is forwarded
/// since then, one that it refused has failed with ssh's own words, and either
/// binds what was asked for. What was cancelled is gone, whatever ssh said.
pub proof fn law_the_reply_decides_what_is_observed(
    observed: Seq<ForwardObs>,
    action: Action,
    reply: Result<(), String>,
    now: Timestamp,
)
    ensures
        match action {
            Action::Cancel(f) => forall|k: int|
                0 <= k < after(observed, action, reply, now).len() ==> (#[trigger] after(
                    observed,
                    action,
                    reply,
                    now,
                )[k]).name@ != f.name@,
            Action::Attach(f) => exists|k: int|
                0 <= k < after(observed, action, reply, now).len() && {
                    let o = #[trigger] after(observed, action, reply, now)[k];
                    &&& o.name@ == f.name@
                    &&& o.local_port == f.local_port
                    &&& o.remote_host@ == f.remote_host@
                    &&& o.remote_port == f.remote_port
                    &&& match reply {
                        Ok(_) => o.status == AttachStatus::Forwarded && o.attached_at == Some(now)
                            && o.error is None,
                        Err(e) => o.status == AttachStatus::Failed && o.attached_at is None
                            && o.error == Some(e),
                    }
                },
        },
{
    let end = after(observed, action, reply, now);
    match action {
        Action::Cancel(f) => {
            lemma_without(observed, f.name@, f.name@);
            assert forall|k: int| 0 <= k < end.len() implies (#[trigger] end[k]).name@
                != f.name@ by {
                assert(end[k].named() == end[k].name@);
            }
        },
        Action::Attach(f) => {
            lemma_position_points(observed, f.name@);
            let k = if has_name(observed, f.name@) {
                position(observed, f.name@)
            } else {
                observed.len() as int
            };
            assert(end[k].name@ == f.name@);
        },
    }
}

/// Every action becomes one request to its host, in order: an attach asks for
/// the forward that it is about, a cancel for the one that was observed. Each
/// leaves one line in the log, with ssh's words where it refused.
pub proof fn law_every_action_is_one_request(
    host: Seq<char>,
    actions: Seq<Action>,
    replies: Seq<Result<(), String>>,
    times: Seq<Timestamp>,
    asked: Seq<SshEvent>,
    asked_after: Seq<SshEvent>,
    observed: Seq<ForwardObs>,
    observed_after: Seq<ForwardObs>,
    logs: Seq<Seq<char>>,
    i: int,
)
    requires
        carried_out(
            host,
            actions,
            replies,
            times,
            asked,
            asked_after,
            observed,
            observed_after,
            logs,
        ),
        0 <= i < actions.len(),
    ensures
        asked_after.len() == asked.len() + actions.len(),
        asked_after.take(asked.len() as int) == asked,
        logs.len() == actions.len(),
        match actions[i] {
            Action::Attach(f) => asked_after[asked.len() + i] == (SshEvent::Forward {
                host,
                want: f,
                reply: replies[i],
            }) && logs[i] == (match replies[i] {
                Ok(_) => "attached "@ + decimal(f.local_port as nat) + " -> "@ + f.remote_host@ + (
                ":"@ + decimal(f.remote_port as nat)),
                Err(e) => "attach of "@ + decimal(f.local_port as nat) + " failed: "@ + e@,
            }),
            Action::Cancel(f) => asked_after[asked.len() + i] == (SshEvent::Cancel {
                host,
                have: f,
                reply: replies[i],
            }) && logs[i] == (match replies[i] {
                Ok(_) => "cancelled "@ + decimal(f.local_port as nat) + ":"@ + decimal(
                    f.remote_port as nat,
                ),
                Err(e) => "cancel of "@ + decimal(f.local_port as nat) + " failed: "@ + e@,
            }),
        },
{
    assert(asked_after.take(asked.len() as int) =~= asked);
}

/// After a pass nothing is observed that nobody wants, whatever ssh replied.
pub proof fn law_what_nobody_wants_goes(
    desired: Seq<DesiredForward>,
    observed: Seq<ForwardObs>,
    replies: Seq<Result<(), String>>,
    times: Seq<Timestamp>,
    name: Seq<char>,
)
    requires
        replies.len() == difference(desired, observed).len(),
        times.len() == difference(desired, observed).len(),
        forall|j: int| 0 <= j < desired.len() ==> (#[trigger] desired[j]).name@ != name,
    ensures
        forall|i: int|
            0 <= i < applied(observed, difference(desired, observed), replies, times).len() ==> (
            #[trigger] applied(observed, difference(desired, observed), replies, times)[i]).name@
                != name,
{
    let a = wanted_actions(desired, observed);
    let b = stale_actions(desired, observed);
    let n = a.len() as int;
    let mid = applied(observed, a, replies.take(n), times.take(n));
    let end = applied(observed, difference(desired, observed), replies, times);
    if has_name(desired, name) {
        let j = choose|j: int| 0 <= j < desired.len() && #[trigger] desired[j].named() == name;
        assert(desired[j].name@ == name);
    }
    lemma_applied_append(observed, a, b, replies, times);
    assert forall|i: int| 0 <= i < a.len() implies about(#[trigger] a[i]) != name by {
        lemma_wanted_names(desired, observed, i);
    }
    law_actions_leave_other_names_alone(observed, a, replies.take(n), times.take(n), name);
    lemma_stale_leave(desired, observed, mid, replies.skip(n), times.skip(n), name);
    assert forall|i: int| 0 <= i < end.len() implies (#[trigger] end[i]).name@ != name by {
        assert(end[i].named() == end[i].name@);
    }
}

/// A forward that is attached dates from when the clock said so.
pub proof fn law_an_attach_dates_from_the_clock(
    host: Seq<char>,
    f: DesiredForward,
    reply: Result<(), String>,
    now: Timestamp,
    asked: Seq<SshEvent>,
    asked_after: Seq<SshEvent>,
    observed: Seq<ForwardObs>,
    observed_after: Seq<ForwardObs>,
    logs: Seq<Seq<char>>,
)
    requires
        carried_out(
            host,
            seq![Action::Attach(f)],
            seq![reply],
            seq![now],
            asked,
            asked_after,
            observed,
            observed_after,
            logs,
        ),
        reply is Ok,
    ensures
        exists|k: int|
            0 <= k < observed_after.len() && (#[trigger] observed_after[k]).name@ == f.name@
                && observed_after[k].attached_at == Some(now) && clock_read(now),
{
    let actions = seq![Action::Attach(f)];
    assert(actions.drop_last() =~= seq![]);
    assert(seq![now][0] == now);
    assert(applied(observed, actions.drop_last(), seq![reply].drop_last(), seq![now].drop_last())
        == observed);
    law_the_reply_decides_what_is_observed(observed, Action::Attach(f), reply, now);
    assert(observed_after == after(observed, Action::Attach(f), reply, now));
}

}
