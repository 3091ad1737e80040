//! What the dashboard says of an action, and how a machine is restarted.

use crate::commands::{default_name, StartPlan, StartRequest};
use crate::error::{error_text, PfError, Result};
use crate::process::Processes;
use crate::session::machine::{Phase, Watcher};
use crate::session::types::SessionState;
use crate::session::watcher::ExitReason;
use crate::text::{concat2, concat3, concat4, dec, decimal, str_eq};
use crate::watcher::{default_policy, RetryPolicy};
use vstd::prelude::*;
use vstd::string::*;

verus! {

/// `message` tells how an action went: `done` where it worked, and where it did
/// not, `failed` and why.
pub open spec fn tells(
    outcome: Result<()>,
    message: std::result::Result<String, String>,
    done: Seq<char>,
    failed: Seq<char>,
) -> bool {
    match (outcome, message) {
        (Ok(_), Ok(m)) => m@ == done,
        (Err(e), Err(m)) => m@ == failed + ": "@ + error_text(e@),
        _ => false,
    }
}

/// Whether `r` starts `name` on `host` as the dashboard does: towards the
/// machine itself, reconnecting, at the default pace.
pub open spec fn starts_as_usual(
    r: StartRequest,
    name: Seq<char>,
    host: Seq<char>,
    local_port: u16,
    remote_port: u16,
) -> bool {
    &&& r.plan.name@ == name
    &&& r.plan.host@ == host
    &&& r.plan.local_port == local_port
    &&& r.plan.remote_port == remote_port
    &&& r.plan.remote_host@ == "localhost"@
    &&& r.reconnect
    &&& r.policy == default_policy()
}

/// What the dashboard starts for a profile.
pub fn profile_start(name: &str, host: &str, local_port: u16, remote_port: u16) -> (r: StartRequest)
    ensures
        starts_as_usual(r, name@, host@, local_port, remote_port),
{
    StartRequest {
        plan: StartPlan {
            name: name.to_owned(),
            host: host.to_owned(),
            local_port,
            remote_port,
            remote_host: "localhost".to_owned(),
        },
        reconnect: true,
        policy: RetryPolicy::default(),
    }
}

/// What the dashboard starts for a forward that was typed in.
pub fn adhoc_start(host: &str, local_port: u16, remote_port: u16, name: Option<&str>) -> (r:
    StartRequest)
    ensures
        starts_as_usual(
            r,
            given_name(host@, local_port, name),
            host@,
            local_port,
            remote_port,
        ),
{
    profile_start(adhoc_name(host, local_port, name).as_str(), host, local_port, remote_port)
}

/// What is said of starting `name` from a profile.
pub fn start_profile(name: &str, outcome: Result<()>) -> (r: std::result::Result<String, String>)
    ensures
        tells(outcome, r, "Started "@ + name@, "Failed to start "@ + name@),
{
    match outcome {
        Ok(_) => Ok(concat2("Started ", name)),
        Err(e) => Err(concat4("Failed to start ", name, ": ", e.message().as_str())),
    }
}

/// The name of a forward that is started by hand: the one that was typed, or one
/// made of the host and the port.
pub open spec fn given_name(host: Seq<char>, local_port: u16, name: Option<&str>) -> Seq<char> {
    match name {
        Some(n) => if n@.len() == 0 {
            default_name(host, local_port)
        } else {
            n@
        },
        None => default_name(host, local_port),
    }
}

/// The name of a forward that is started by hand.
pub fn adhoc_name(host: &str, local_port: u16, name: Option<&str>) -> (out: String)
    ensures
        out@ == given_name(host@, local_port, name),
{
    proof {
        reveal_strlit("");
    }
    match name {
        Some(n) => {
            assert(n@.len() == 0 ==> n@ =~= ""@);
            if str_eq(n, "") {
                concat3(host, "-", dec(local_port as u64).as_str())
            } else {
                n.to_owned()
            }
        },
        None => concat3(host, "-", dec(local_port as u64).as_str()),
    }
}

/// What is said of a forward that was started by hand.
pub fn start_adhoc(host: &str, local_port: u16, name: Option<&str>, outcome: Result<()>) -> (r:
    std::result::Result<String, String>)
    ensures
        tells(
            outcome,
            r,
            "Started "@ + given_name(host@, local_port, name),
            "Failed to start "@ + given_name(host@, local_port, name),
        ),
{
    start_profile(adhoc_name(host, local_port, name).as_str(), outcome)
}

/// What is said of stopping a forward.
pub fn stop_forward(name: &str, outcome: Result<()>) -> (r: std::result::Result<String, String>)
    ensures
        tells(outcome, r, "Stopped "@ + name@, "Failed to stop "@ + name@),
{
    match outcome {
        Ok(_) => Ok(concat2("Stopped ", name)),
        Err(e) => Err(concat4("Failed to stop ", name, ": ", e.message().as_str())),
    }
}

/// What is said of stopping every forward on a host.
pub fn stop_host(host: &str, outcome: Result<()>) -> (r: std::result::Result<String, String>)
    ensures
        tells(outcome, r, "Stopped all forwards on "@ + host@, "Failed to stop "@ + host@),
{
    match outcome {
        Ok(_) => Ok(concat2("Stopped all forwards on ", host)),
        Err(e) => Err(concat4("Failed to stop ", host, ": ", e.message().as_str())),
    }
}

/// How a machine is restarted.
#[derive(Debug, PartialEq, Eq)]
pub enum RestartPlan {
    /// Its watcher gave up: start a fresh one.
    SpawnWatcher,
    /// Kill the master. The watcher notices, backs off, reconnects, and attaches
    /// the desired set to the new connection.
    KillMaster(u32),
    /// It cannot be restarted, for the reason given.
    Refuse(String),
}

/// Whether `plan` is how a machine is restarted, given its observed state and
/// whether its watcher is alive. A watcher that gave up left no master behind.
pub open spec fn restarts(
    host: Seq<char>,
    state: Result<Option<SessionState>>,
    alive: bool,
    plan: RestartPlan,
) -> bool {
    match (state, plan) {
        (Err(e), RestartPlan::Refuse(m)) => m@ == "Failed to read "@ + host + ": "@ + error_text(
            e@,
        ),
        (Ok(None), RestartPlan::Refuse(m)) => m@ == host + " is not connected"@,
        (Ok(Some(s)), RestartPlan::KillMaster(pid)) => s.master_pid == Some(pid),
        (Ok(Some(s)), RestartPlan::SpawnWatcher) => s.master_pid is None && !alive,
        (Ok(Some(s)), RestartPlan::Refuse(m)) => s.master_pid is None && alive && m@ == host
            + " has no live master"@,
        _ => false,
    }
}

/// Whether `plan` is how a machine is restarted, going by what was answered about
/// its watcher.
pub open spec fn restarts_asking<P: Processes>(
    host: Seq<char>,
    state: Result<Option<SessionState>>,
    plan: RestartPlan,
    asked: Seq<(u32, bool)>,
    asked_after: Seq<(u32, bool)>,
) -> bool {
    let alive = !(plan is SpawnWatcher);
    &&& restarts(host, state, alive, plan)
    &&& match state {
        Ok(Some(s)) => if s.master_pid is None {
            P::said(s.watcher_pid, alive) && asked_after == asked.push((s.watcher_pid, alive))
        } else {
            asked_after == asked
        },
        _ => asked_after == asked,
    }
}

/// How a machine is restarted. Only where it has no master does it matter
/// whether its watcher is alive.
pub fn restart_host<P: Processes>(
    host: &str,
    state: &Result<Option<SessionState>>,
    procs: &mut P,
) -> (plan: RestartPlan)
    ensures
        restarts_asking::<P>(host@, *state, plan, old(procs).asked(), final(procs).asked()),
{
    let alive = match state {
        Ok(Some(s)) => match s.master_pid {
            Some(_) => true,
            None => procs.alive(s.watcher_pid),
        },
        _ => true,
    };
    restart_plan(host, state, alive)
}

/// How a machine is restarted, given its observed state and whether its watcher
/// is alive.
pub fn restart_plan(host: &str, state: &Result<Option<SessionState>>, alive: bool) -> (plan:
    RestartPlan)
    ensures
        restarts(host@, *state, alive, plan),
{
    match state {
        Err(e) => RestartPlan::Refuse(
            concat4("Failed to read ", host, ": ", e.message().as_str()),
        ),
        Ok(None) => RestartPlan::Refuse(concat2(host, " is not connected")),
        Ok(Some(s)) => match s.master_pid {
            Some(pid) => RestartPlan::KillMaster(pid),
            None => if alive {
                RestartPlan::Refuse(concat2(host, " has no live master"))
            } else {
                RestartPlan::SpawnWatcher
            },
        },
    }
}

/// What is said of restarting a machine.
pub fn reconnect_message(host: &str, outcome: Result<()>) -> (r: std::result::Result<
    String,
    String,
>)
    ensures
        tells(outcome, r, "Reconnecting "@ + host@, "Failed to reconnect "@ + host@),
{
    match outcome {
        Ok(_) => Ok(concat2("Reconnecting ", host)),
        Err(e) => Err(concat4("Failed to reconnect ", host, ": ", e.message().as_str())),
    }
}

/// Where restarting a forward stands.
#[derive(Debug)]
pub enum RestartOutcome {
    /// Its parameters could not be loaded.
    NotLoaded(PfError),
    /// It could not be stopped.
    NotStopped(PfError),
    /// It was stopped, and started again with this outcome.
    Started(Result<()>),
}

/// What is said of restarting a forward.
pub fn restart_forward(name: &str, outcome: RestartOutcome) -> (r: std::result::Result<
    String,
    String,
>)
    ensures
        match outcome {
            RestartOutcome::NotLoaded(e) => tells(
                Err(e),
                r,
                seq![],
                "Failed to load state for "@ + name@,
            ),
            RestartOutcome::NotStopped(e) => tells(Err(e), r, seq![], "Failed to stop "@ + name@),
            RestartOutcome::Started(o) => tells(
                o,
                r,
                "Restarted "@ + name@,
                "Failed to restart "@ + name@,
            ),
        },
{
    match outcome {
        RestartOutcome::NotLoaded(e) => Err(
            concat4("Failed to load state for ", name, ": ", e.message().as_str()),
        ),
        RestartOutcome::NotStopped(e) => Err(
            concat4("Failed to stop ", name, ": ", e.message().as_str()),
        ),
        RestartOutcome::Started(o) => match o {
            Ok(_) => Ok(concat2("Restarted ", name)),
            Err(e) => Err(concat4("Failed to restart ", name, ": ", e.message().as_str())),
        },
    }
}

/// A machine whose watcher gave up is not stuck: restarting it once that watcher
/// is gone starts a fresh one.
pub proof fn law_a_machine_that_gave_up_can_be_restarted(
    w: Watcher,
    host: Seq<char>,
    plan: RestartPlan,
)
    requires
        w@.consistent(),
        w.phase == Phase::Done(ExitReason::GaveUp),
        restarts(host, Ok(Some(w.state)), false, plan),
    ensures
        plan == RestartPlan::SpawnWatcher,
{
}

/// What a machine is restarted by: a recorded master is killed, whoever watches
/// it; without one a fresh watcher is started where none lives, and where one
/// does there is nothing to reconnect. A machine without a state is not
/// connected, and one whose state cannot be read is left alone.
pub proof fn law_how_a_machine_is_restarted(
    host: &str,
    state: Result<Option<SessionState>>,
    alive: bool,
    plan: RestartPlan,
)
    requires
        call_ensures(restart_plan, (host, &state, alive), plan),
    ensures
        state is Ok && state->Ok_0 is Some && (state->Ok_0->0).master_pid is Some ==> plan
            == RestartPlan::KillMaster((state->Ok_0->0).master_pid->0),
        state is Ok && state->Ok_0 is Some && (state->Ok_0->0).master_pid is None && !alive ==> plan
            == RestartPlan::SpawnWatcher,
        state is Ok && state->Ok_0 is Some && (state->Ok_0->0).master_pid is None && alive
            ==> plan is Refuse && plan->Refuse_0@ == host@ + " has no live master"@,
        state is Ok && state->Ok_0 is None ==> plan is Refuse && plan->Refuse_0@ == host@
            + " is not connected"@,
        state is Err ==> plan is Refuse,
{
}

/// What the dashboard starts leads to the machine itself, reconnects, and keeps
/// the default pace; a forward without a name is called after host and port.
pub proof fn law_what_the_dashboard_starts(
    host: &str,
    local: u16,
    remote: u16,
    name: Option<&str>,
    adhoc: StartRequest,
    profile: &str,
    saved: StartRequest,
)
    requires
        call_ensures(adhoc_start, (host, local, remote, name), adhoc),
        call_ensures(profile_start, (profile, host, local, remote), saved),
    ensures
        adhoc.plan.host@ == host@ && saved.plan.host@ == host@,
        adhoc.plan.local_port == local && saved.plan.local_port == local,
        adhoc.plan.remote_port == remote && saved.plan.remote_port == remote,
        adhoc.plan.remote_host@ == "localhost"@ && saved.plan.remote_host@ == "localhost"@,
        adhoc.reconnect && saved.reconnect,
        adhoc.policy.max_retries == 0 && adhoc.policy.initial_delay == 5 && adhoc.policy.max_delay
            == 300,
        saved.policy == adhoc.policy,
        saved.plan.name@ == profile@,
        name is Some && name->0@.len() > 0 ==> adhoc.plan.name@ == name->0@,
        name is None || name->0@.len() == 0 ==> adhoc.plan.name@ == host@ + "-"@ + decimal(
            local as nat,
        ),
{
}

/// What is said of an action says whether it worked, names what it was about,
/// and where it failed, why.
pub proof fn law_actions_tell_how_they_went(
    name: &str,
    outcome: Result<()>,
    started: std::result::Result<String, String>,
    stopped: std::result::Result<String, String>,
    host_stopped: std::result::Result<String, String>,
    reconnected: std::result::Result<String, String>,
)
    requires
        call_ensures(start_profile, (name, outcome), started),
        call_ensures(stop_forward, (name, outcome), stopped),
        call_ensures(stop_host, (name, outcome), host_stopped),
        call_ensures(reconnect_message, (name, outcome), reconnected),
    ensures
        outcome is Ok ==> started is Ok && started->Ok_0@ == "Started "@ + name@,
        outcome is Ok ==> stopped is Ok && stopped->Ok_0@ == "Stopped "@ + name@,
        outcome is Ok ==> host_stopped is Ok && host_stopped->Ok_0@ == "Stopped all forwards on "@
            + name@,
        outcome is Ok ==> reconnected is Ok && reconnected->Ok_0@ == "Reconnecting "@ + name@,
        outcome is Err ==> {
            let why = error_text(outcome->Err_0@);
            &&& started is Err && started->Err_0@ == "Failed to start "@ + name@ + ": "@ + why
            &&& stopped is Err && stopped->Err_0@ == "Failed to stop "@ + name@ + ": "@ + why
            &&& host_stopped is Err && host_stopped->Err_0@ == "Failed to stop "@ + name@ + ": "@
                + why
            &&& reconnected is Err && reconnected->Err_0@ == "Failed to reconnect "@ + name@
                + ": "@ + why
        },
{
}

/// What is said of restarting a forward says which step failed, if any did.
pub proof fn law_a_restart_tells_how_it_went(
    name: &str,
    outcome: RestartOutcome,
    r: std::result::Result<String, String>,
)
    requires
        call_ensures(restart_forward, (name, outcome), r),
    ensures
        match outcome {
            RestartOutcome::NotLoaded(e) => r is Err && r->Err_0@ == "Failed to load state for "@
                + name@ + ": "@ + error_text(e@),
            RestartOutcome::NotStopped(e) => r is Err && r->Err_0@ == "Failed to stop "@ + name@
                + ": "@ + error_text(e@),
            RestartOutcome::Started(Ok(_)) => r is Ok && r->Ok_0@ == "Restarted "@ + name@,
            RestartOutcome::Started(Err(e)) => r is Err && r->Err_0@ == "Failed to restart "@
                + name@ + ": "@ + error_text(e@),
        },
{
}

/// A machine that has a master is reconnected by ending it. One that has none
/// gets a fresh watcher exactly when its own does not answer.
pub proof fn law_a_restart_goes_by_who_lives<P: Processes>(
    host: Seq<char>,
    s: SessionState,
    plan: RestartPlan,
    asked: Seq<(u32, bool)>,
    asked_after: Seq<(u32, bool)>,
)
    requires
        restarts_asking::<P>(host, Ok(Some(s)), plan, asked, asked_after),
    ensures
        s.master_pid is Some ==> plan == RestartPlan::KillMaster(s.master_pid->0),
        s.master_pid is None && !P::said(s.watcher_pid, true) ==> plan
            == RestartPlan::SpawnWatcher,
        s.master_pid is None && !P::said(s.watcher_pid, false) ==> plan is Refuse,
{
}

/// A forward that was typed in is told of by the name that it got.
pub proof fn law_a_typed_forward_is_told_of_by_its_name(
    host: &str,
    local: u16,
    name: Option<&str>,
    outcome: Result<()>,
    given: String,
    r: std::result::Result<String, String>,
)
    requires
        call_ensures(adhoc_name, (host, local, name), given),
        call_ensures(start_adhoc, (host, local, name, outcome), r),
    ensures
        name is Some && name->0@.len() > 0 ==> given@ == name->0@,
        name is None || name->0@.len() == 0 ==> given@ == host@ + "-"@ + decimal(local as nat),
        outcome is Ok ==> r is Ok && r->Ok_0@ == "Started "@ + given@,
        outcome is Err ==> r is Err && r->Err_0@ == "Failed to start "@ + given@ + ": "@
            + error_text(outcome->Err_0@),
{
}

}
