//! What each command decides, before and after it touches the world.

use crate::cli::ShellType;
use crate::config::Profile;
use crate::error::{ErrorView, PfError, Result};
use crate::hosts::HostSet;
use crate::names::{
    distinct_names, find_named, has_name, lemma_filter_keeps_distinct, lemma_position, lookup,
    Named,
};
use crate::order::{sort_stably, sorted};
use crate::process::{
    answers, ask_all, host_of_forward, lemma_owner_points, owner_at, questions, wants, Processes,
};
use crate::session::types::{DesiredSession, SessionState};
use crate::ssh_hosts::{hosts_matching, lemma_sorted_set, starting_with};
use crate::state::ForwardState;
use crate::text::{
    chars_of, concat3, dec, decimal, find_char, find_from, is_digit, law_a_number_is_read_back,
    lemma_find_char, lemma_find_char_bounds, lemma_find_char_first, occurs_at, occurs_in, parse_port,
    port_number, str_eq, string_of, views,
};
use crate::watcher::{RetryPolicy, DEFAULT_MAX_DELAY};
use vstd::prelude::*;
use vstd::string::*;

verus! {

/// The two ports of a mapping: what stands before and after its only colon.
pub open spec fn port_mapping(s: Seq<char>) -> Option<(u16, u16)> {
    let at = find_char(s, ':');
    if at < s.len() && !s.skip(at + 1).contains(':') {
        match (port_number(s.take(at)), port_number(s.skip(at + 1))) {
            (Some(local), Some(remote)) => Some((local, remote)),
            _ => None,
        }
    } else {
        None
    }
}

/// Read a `LOCAL:REMOTE` port mapping.
pub fn parse_ports(ports: &str) -> (r: Result<(u16, u16)>)
    ensures
        match r {
            Ok(p) => port_mapping(ports@) == Some(p),
            Err(e) => port_mapping(ports@) is None && e@ == ErrorView::InvalidPortMapping(ports@),
        },
{
    let c = chars_of(ports);
    let at: usize = find_from(&c, 0, ':');
    assert(c@.skip(0) =~= c@);
    if at >= c.len() {
        return Err(PfError::InvalidPortMapping(ports.to_owned()));
    }
    let next: usize = find_from(&c, at + 1, ':');
    proof {
        let rest = ports@.skip(at + 1);
        if next < c@.len() {
            assert(rest[next - at - 1] == ':');
        } else {
            assert forall|k: int| 0 <= k < rest.len() implies rest[k] != ':' by {
                assert(rest[k] == c@[at + 1 + k]);
            }
        }
    }
    if next < c.len() {
        return Err(PfError::InvalidPortMapping(ports.to_owned()));
    }
    let before = string_of(&c, 0, at);
    let after = string_of(&c, at + 1, c.len());
    assert(before@ =~= ports@.take(at as int));
    assert(after@ =~= ports@.skip(at + 1));
    match (parse_port(before.as_str()), parse_port(after.as_str())) {
        (Some(local), Some(remote)) => Ok((local, remote)),
        _ => Err(PfError::InvalidPortMapping(ports.to_owned())),
    }
}

/// What to start.
#[derive(Debug)]
pub struct StartPlan {
    pub name: String,
    pub host: String,
    pub local_port: u16,
    pub remote_port: u16,
    pub remote_host: String,
}

/// A forward to start, and how its machine is kept connected.
#[derive(Debug)]
pub struct StartRequest {
    pub plan: StartPlan,
    pub reconnect: bool,
    pub policy: RetryPolicy,
}

/// The complaint of a start that names neither a profile nor ports.
pub open spec fn no_ports(name: Seq<char>) -> Seq<char> {
    "No profile named '"@ + name
        + "' found and no ports specified.\nUsage: pf start <HOST> <LOCAL:REMOTE> or pf start <PROFILE>"@
}

/// The name of a forward that was given none.
pub open spec fn default_name(host: Seq<char>, local_port: u16) -> Seq<char> {
    host + "-"@ + decimal(local_port as nat)
}

/// What `pf start` does, given the profile of that name, if there is one.
///
/// A single argument that names a saved profile stands for that profile.
/// Anything else is a host and its ports.
pub fn plan_start(
    profile: Option<&Profile>,
    name_or_host: &str,
    ports: &Option<String>,
    name: &Option<String>,
) -> (r: Result<StartPlan>)
    ensures
        match *ports {
            Some(p) => match (port_mapping(p@), r) {
                (Some((local, remote)), Ok(plan)) => {
                    &&& plan.name@ == (match *name {
                        Some(n) => n@,
                        None => default_name(name_or_host@, local),
                    })
                    &&& plan.host@ == name_or_host@
                    &&& plan.local_port == local
                    &&& plan.remote_port == remote
                    &&& plan.remote_host@ == "localhost"@
                },
                (None, Err(e)) => e@ == ErrorView::InvalidPortMapping(p@),
                _ => false,
            },
            None => match (profile, r) {
                (Some(p), Ok(plan)) => {
                    &&& plan.name@ == name_or_host@
                    &&& plan.host == p.host
                    &&& plan.local_port == p.local_port
                    &&& plan.remote_port == p.remote_port
                    &&& plan.remote_host == p.remote_host
                },
                (None, Err(e)) => e@ == ErrorView::Other(no_ports(name_or_host@)),
                _ => false,
            },
        },
{
    match ports {
        Some(p) => match parse_ports(p.as_str()) {
            Err(e) => Err(e),
            Ok((local_port, remote_port)) => Ok(
                StartPlan {
                    name: match name {
                        Some(n) => n.clone(),
                        None => concat3(name_or_host, "-", dec(local_port as u64).as_str()),
                    },
                    host: name_or_host.to_owned(),
                    local_port,
                    remote_port,
                    remote_host: "localhost".to_owned(),
                },
            ),
        },
        None => match profile {
            Some(p) => Ok(
                StartPlan {
                    name: name_or_host.to_owned(),
                    host: p.host.clone(),
                    local_port: p.local_port,
                    remote_port: p.remote_port,
                    remote_host: p.remote_host.clone(),
                },
            ),
            None => Err(
                PfError::Other(
                    concat3(
                        "No profile named '",
                        name_or_host,
                        "' found and no ports specified.\nUsage: pf start <HOST> <LOCAL:REMOTE> or pf start <PROFILE>",
                    ),
                ),
            ),
        },
    }
}

/// The pacing that the flags of `pf start` ask for.
pub fn retry_policy(max_retries: u32, retry_delay: u64) -> (p: RetryPolicy)
    ensures
        p.max_retries == max_retries,
        p.initial_delay == retry_delay,
        p.max_delay == DEFAULT_MAX_DELAY,
{
    RetryPolicy { max_retries, initial_delay: retry_delay, max_delay: DEFAULT_MAX_DELAY }
}

/// What `pf start` asks for, with its flags.
pub fn start_request(plan: StartPlan, no_reconnect: bool, max_retries: u32, retry_delay: u64) -> (r:
    StartRequest)
    ensures
        r.plan == plan,
        r.reconnect == !no_reconnect,
        r.policy.max_retries == max_retries,
        r.policy.initial_delay == retry_delay,
        r.policy.max_delay == DEFAULT_MAX_DELAY,
{
    StartRequest {
        plan,
        reconnect: !no_reconnect,
        policy: retry_policy(max_retries, retry_delay),
    }
}

/// What brings a running forward back as it was.
pub fn restart_request(state: &ForwardState) -> (r: StartRequest)
    ensures
        r.plan.name == state.name,
        r.plan.host == state.host,
        r.plan.local_port == state.local_port,
        r.plan.remote_port == state.remote_port,
        r.plan.remote_host == state.remote_host,
        r.reconnect == state.auto_reconnect,
        r.policy.max_retries == state.max_retries,
        r.policy.initial_delay == state.retry_delay,
        r.policy.max_delay == state.max_retry_delay,
{
    StartRequest {
        plan: StartPlan {
            name: state.name.clone(),
            host: state.host.clone(),
            local_port: state.local_port,
            remote_port: state.remote_port,
            remote_host: state.remote_host.clone(),
        },
        reconnect: state.auto_reconnect,
        policy: policy_of(state),
    }
}

/// The pacing that a running forward has.
pub fn policy_of(state: &ForwardState) -> (p: RetryPolicy)
    ensures
        p.max_retries == state.max_retries,
        p.initial_delay == state.retry_delay,
        p.max_delay == state.max_retry_delay,
{
    RetryPolicy {
        max_retries: state.max_retries,
        initial_delay: state.retry_delay,
        max_delay: state.max_retry_delay,
    }
}

/// What a command applies to.
#[derive(Debug, PartialEq, Eq)]
pub enum Target {
    All,
    Host(String),
    Forward(String),
}

/// What a command applies to: everything, a machine, or a forward, whichever of
/// them is asked for first in that order.
pub fn target(name: Option<String>, all: bool, host: Option<String>) -> (r: Result<Target>)
    ensures
        match r {
            Ok(Target::All) => all,
            Ok(Target::Host(h)) => !all && host == Some(h),
            Ok(Target::Forward(n)) => !all && host is None && name == Some(n),
            Err(e) => !all && host is None && name is None && e@ == ErrorView::Other(
                "Name required (or use --all)"@,
            ),
        },
{
    if all {
        return Ok(Target::All);
    }
    match host {
        Some(h) => Ok(Target::Host(h)),
        None => match name {
            Some(n) => Ok(Target::Forward(n)),
            None => Err(PfError::Other("Name required (or use --all)".to_owned())),
        },
    }
}

/// Which machine's log to show: the one that is named, or the one that the
/// forward runs on.
pub fn log_host(name: &Option<String>, host: &Option<String>, sessions: &[DesiredSession]) -> (r:
    Result<String>)
    ensures
        match *host {
            Some(h) => r is Ok && r->Ok_0 == h,
            None => match *name {
                Some(n) => {
                    let at = owner_at(sessions@, n@);
                    match r {
                        Ok(h) => at < sessions@.len() && h == sessions@[at].host,
                        Err(e) => at >= sessions@.len() && e@ == ErrorView::NotFound(n@),
                    }
                },
                None => r is Err && r->Err_0@ == ErrorView::Other(
                    "Name required (or use --host)"@,
                ),
            },
        },
{
    match host {
        Some(h) => Ok(h.clone()),
        None => match name {
            Some(n) => host_of_forward(sessions, n.as_str()),
            None => Err(PfError::Other("Name required (or use --host)".to_owned())),
        },
    }
}

/// The failure for a log that does not exist.
pub fn no_logs(name: &str) -> (e: PfError)
    ensures
        e@ == ErrorView::NotFound("No logs for '"@ + name@ + "'"@),
{
    PfError::NotFound(concat3("No logs for '", name, "'"))
}

/// Whether `host` has a session, desired or observed.
pub open spec fn has_session(
    desired: Seq<DesiredSession>,
    states: Seq<SessionState>,
    host: Seq<char>,
) -> bool {
    ||| exists|i: int| 0 <= i < desired.len() && (#[trigger] desired[i]).host@ == host
    ||| exists|i: int| 0 <= i < states.len() && (#[trigger] states[i]).host@ == host
}

/// Every host that has a session, desired or observed, in order and each once.
pub fn session_hosts(desired: &[DesiredSession], states: &[SessionState]) -> (out: Vec<String>)
    ensures
        sorted(out@),
        distinct_names(out@),
        forall|h: Seq<char>| #[trigger] has_name(out@, h) == has_session(desired@, states@, h),
{
    let mut hosts = HostSet::new();
    let mut i: usize = 0;
    while i < desired.len()
        invariant
            i <= desired@.len(),
            hosts.well_formed(),
            forall|h: Seq<char>| #[trigger]
                hosts@.contains(h) == exists|k: int| 0 <= k < i && (#[trigger] desired@[k]).host@ == h,
        decreases desired@.len() - i,
    {
        let ghost before = hosts@;
        hosts.insert(desired[i].host.clone());
        proof {
            assert forall|h: Seq<char>| #[trigger]
                hosts@.contains(h) == exists|k: int|
                    0 <= k < i + 1 && (#[trigger] desired@[k]).host@ == h by {
                assert(before.contains(h) == exists|k: int|
                    0 <= k < i && (#[trigger] desired@[k]).host@ == h);
                if hosts@.contains(h) {
                    if before.contains(h) {
                        let k = choose|k: int| 0 <= k < i && (#[trigger] desired@[k]).host@ == h;
                        assert(desired@[k].host@ == h);
                    } else {
                        assert(desired@[i as int].host@ == h);
                    }
                }
            }
        }
        i += 1;
    }
    let ghost first = hosts@;
    let mut j: usize = 0;
    while j < states.len()
        invariant
            j <= states@.len(),
            hosts.well_formed(),
            forall|h: Seq<char>| #[trigger]
                hosts@.contains(h) == (first.contains(h) || exists|k: int|
                    0 <= k < j && (#[trigger] states@[k]).host@ == h),
        decreases states@.len() - j,
    {
        let ghost before = hosts@;
        hosts.insert(states[j].host.clone());
        proof {
            assert forall|h: Seq<char>| #[trigger]
                hosts@.contains(h) == (first.contains(h) || exists|k: int|
                    0 <= k < j + 1 && (#[trigger] states@[k]).host@ == h) by {
                assert(before.contains(h) == (first.contains(h) || exists|k: int|
                    0 <= k < j && (#[trigger] states@[k]).host@ == h));
                if hosts@.contains(h) && !first.contains(h) {
                    if before.contains(h) {
                        let k = choose|k: int| 0 <= k < j && (#[trigger] states@[k]).host@ == h;
                        assert(states@[k].host@ == h);
                    } else {
                        assert(states@[j as int].host@ == h);
                    }
                }
            }
        }
        j += 1;
    }
    let mut out = hosts.hosts;
    let ghost list = out@;
    proof {
        assert forall|h: Seq<char>| #[trigger]
            has_name(list, h) == has_session(desired@, states@, h) by {
            assert(hosts@.contains(h) == has_name(list, h));
        }
    }
    sort_stably(&mut out);
    proof {
        lemma_sorted_set(list, out@);
    }
    out
}

/// The hosts among `hosts` that are not `live`.
pub open spec fn not_live(hosts: Seq<String>, live: Seq<bool>) -> Seq<String>
    decreases hosts.len(),
{
    if hosts.len() == 0 {
        seq![]
    } else {
        let above = not_live(hosts.drop_last(), live.drop_last());
        if live.last() {
            above
        } else {
            above.push(hosts.last())
        }
    }
}

/// The sessions to forget, given which hosts have a live watcher.
pub fn orphans(hosts: &Vec<String>, live: &Vec<bool>) -> (out: Vec<String>)
    requires
        hosts@.len() == live@.len(),
    ensures
        out@ == not_live(hosts@, live@),
{
    let mut out: Vec<String> = Vec::new();
    let mut i: usize = 0;
    assert(hosts@.take(0) =~= seq![]);
    while i < hosts.len()
        invariant
            i <= hosts@.len(),
            hosts@.len() == live@.len(),
            out@ == not_live(hosts@.take(i as int), live@.take(i as int)),
        decreases hosts@.len() - i,
    {
        proof {
            assert(hosts@.take(i + 1).drop_last() =~= hosts@.take(i as int));
            assert(live@.take(i + 1).drop_last() =~= live@.take(i as int));
        }
        if !live[i] {
            out.push(hosts[i].clone());
        }
        i += 1;
    }
    assert(hosts@.take(i as int) =~= hosts@);
    assert(live@.take(i as int) =~= live@);
    out
}

/// The watchers of the sessions of `hosts`, where they have an observed state.
pub open spec fn watchers_of(hosts: Seq<String>, states: Seq<SessionState>) -> Seq<Option<u32>> {
    Seq::new(
        hosts.len(),
        |i: int|
            match lookup(states, hosts[i]@) {
                Some(s) => Some(s.watcher_pid),
                None => None,
            },
    )
}

/// Whether `hosts` are those that have a session, in order.
pub open spec fn are_session_hosts(
    hosts: Seq<String>,
    desired: Seq<DesiredSession>,
    states: Seq<SessionState>,
) -> bool {
    &&& sorted(hosts)
    &&& distinct_names(hosts)
    &&& forall|h: Seq<char>| #[trigger] has_name(hosts, h) == has_session(desired, states, h)
}

/// Whether `out` are the sessions that no live watcher owns, going by what was
/// answered about the watcher of each.
pub open spec fn finds_stale<P: Processes>(
    desired: Seq<DesiredSession>,
    states: Seq<SessionState>,
    out: Seq<String>,
    asked: Seq<(u32, bool)>,
    asked_after: Seq<(u32, bool)>,
) -> bool {
    exists|hosts: Seq<String>, live: Seq<bool>|
        are_session_hosts(hosts, desired, states) && answers::<P>(
            watchers_of(hosts, states),
            live,
        ) && asked_after == asked + questions(watchers_of(hosts, states), live) && out
            == #[trigger] not_live(hosts, live)
}

/// The sessions that no live watcher owns, in the order of their hosts: intent
/// that outlived its watcher, and what a watcher left behind.
pub fn stale_hosts<P: Processes>(
    desired: &[DesiredSession],
    states: &[SessionState],
    procs: &mut P,
) -> (out: Vec<String>)
    ensures
        finds_stale::<P>(desired@, states@, out@, old(procs).asked(), final(procs).asked()),
{
    let hosts = session_hosts(desired, states);
    let mut pids: Vec<Option<u32>> = Vec::new();
    let mut i: usize = 0;
    while i < hosts.len()
        invariant
            i <= hosts@.len(),
            pids@ == watchers_of(hosts@, states@).take(i as int),
        decreases hosts@.len() - i,
    {
        let pid: Option<u32> = match find_named(states, hosts[i].as_str()) {
            Some(k) => Some(states[k].watcher_pid),
            None => None,
        };
        pids.push(pid);
        assert(pids@ =~= watchers_of(hosts@, states@).take(i + 1));
        i += 1;
    }
    assert(pids@ =~= watchers_of(hosts@, states@));
    let live = ask_all(&pids, procs);
    let out = orphans(&hosts, &live);
    assert(are_session_hosts(hosts@, desired@, states@));
    assert(out@ == not_live(hosts@, live@));
    out
}

/// What `pf clean` prints, given the hosts that it forgot.
pub open spec fn clean_text(forgotten: Seq<Seq<char>>) -> Seq<Seq<char>> {
    if forgotten.len() == 0 {
        seq!["No stale state files found."@]
    } else {
        Seq::new(
            forgotten.len(),
            |i: int| "Cleaned stale state for '"@ + forgotten[i] + "'"@,
        ).push("Cleaned "@ + decimal(forgotten.len()) + " stale state file(s)."@)
    }
}

/// What `pf clean` prints, given the hosts that it forgot.
pub fn clean_report(forgotten: &Vec<String>) -> (out: Vec<String>)
    ensures
        views(out@) == clean_text(views(forgotten@)),
{
    let mut out: Vec<String> = Vec::new();
    if forgotten.len() == 0 {
        out.push("No stale state files found.".to_owned());
        assert(views(out@) =~= clean_text(views(forgotten@)));
        return out;
    }
    let ghost want = clean_text(views(forgotten@));
    let mut i: usize = 0;
    while i < forgotten.len()
        invariant
            i <= forgotten@.len(),
            forgotten@.len() > 0,
            want == clean_text(views(forgotten@)),
            views(out@) == want.take(i as int),
        decreases forgotten@.len() - i,
    {
        let ghost before = out@;
        let line = concat3("Cleaned stale state for '", forgotten[i].as_str(), "'");
        let ghost said = line@;
        out.push(line);
        i += 1;
        proof {
            assert(views(out@) =~= views(before).push(said));
            assert(views(out@) =~= want.take(i as int));
        }
    }
    let ghost before = out@;
    let line = concat3(
        "Cleaned ",
        dec(forgotten.len() as u64).as_str(),
        " stale state file(s).",
    );
    let ghost said = line@;
    out.push(line);
    proof {
        assert(views(out@) =~= views(before).push(said));
        assert(views(out@) =~= want);
    }
    out
}

/// What `pf hosts` prints.
pub fn hosts_report(hosts: Vec<String>) -> (out: Vec<String>)
    ensures
        hosts@.len() > 0 ==> out@ == hosts@,
        hosts@.len() == 0 ==> views(out@) == seq!["No hosts found in SSH config."@],
{
    if hosts.len() > 0 {
        return hosts;
    }
    let mut out: Vec<String> = Vec::new();
    out.push("No hosts found in SSH config.".to_owned());
    assert(views(out@) =~= seq!["No hosts found in SSH config."@]);
    out
}

/// Picks what is not among `known`.
pub open spec fn not_among(known: Seq<String>) -> spec_fn(String) -> bool {
    |s: String| !has_name(known, s@)
}

fn drop_known(hosts: Vec<String>, known: &Vec<String>) -> (out: Vec<String>)
    ensures
        out@ == hosts@.filter(not_among(known@)),
{
    let ghost keep = not_among(known@);
    let mut out: Vec<String> = Vec::new();
    let mut i: usize = 0;
    proof {
        assert(hosts@.take(0) =~= seq![]);
        reveal(Seq::filter);
    }
    while i < hosts.len()
        invariant
            i <= hosts@.len(),
            keep == not_among(known@),
            out@ == hosts@.take(i as int).filter(keep),
        decreases hosts@.len() - i,
    {
        proof {
            assert(hosts@.take(i + 1) =~= hosts@.take(i as int).push(hosts@[i as int]));
            hosts@.take(i as int).lemma_filter_push(hosts@[i as int], keep);
        }
        match find_named(known.as_slice(), hosts[i].as_str()) {
            Some(_) => {},
            None => {
                out.push(hosts[i].clone());
            },
        }
        i += 1;
    }
    assert(hosts@.take(i as int) =~= hosts@);
    out
}

/// Which words may follow a subcommand.
pub open spec fn completed(
    subcommand: Seq<char>,
    prefix: Seq<char>,
    profiles: Seq<String>,
    hosts: Seq<String>,
    forwards: Seq<String>,
) -> Seq<String> {
    let pick = starting_with(prefix);
    if subcommand == "start"@ {
        profiles.filter(pick) + hosts.filter(pick).filter(not_among(profiles.filter(pick)))
    } else if subcommand == "stop"@ || subcommand == "restart"@ || subcommand == "logs"@ {
        forwards.filter(pick)
    } else {
        seq![]
    }
}

/// Complete a word: profiles first, since they are named shortcuts, then hosts
/// that are no profile; or the names of running forwards.
pub fn complete(
    subcommand: &str,
    prefix: &str,
    profiles: &[String],
    hosts: &[String],
    forwards: &[String],
) -> (out: Vec<String>)
    ensures
        out@ == completed(subcommand@, prefix@, profiles@, hosts@, forwards@),
{
    if str_eq(subcommand, "start") {
        let mut out = hosts_matching(profiles, prefix);
        let mut more = drop_known(hosts_matching(hosts, prefix), &out);
        let ghost (a, b) = (out@, more@);
        out.append(&mut more);
        assert(out@ =~= a + b);
        out
    } else if str_eq(subcommand, "stop") || str_eq(subcommand, "restart") || str_eq(
        subcommand,
        "logs",
    ) {
        hosts_matching(forwards, prefix)
    } else {
        Vec::new()
    }
}

/// The word for a shell.
pub fn shell_name(shell: ShellType) -> (out: &'static str)
    ensures
        out@ == (match shell {
            ShellType::Bash => "bash"@,
            ShellType::Zsh => "zsh"@,
            ShellType::Fish => "fish"@,
        }),
{
    match shell {
        ShellType::Bash => "bash",
        ShellType::Zsh => "zsh",
        ShellType::Fish => "fish",
    }
}

/// The lines that make a shell ask `pf` itself for hosts, profiles and forwards.
pub open spec fn dynamic_completions(shell: ShellType) -> Seq<char> {
    match shell {
        ShellType::Zsh => "
# Dynamic completions for pf start (SSH hosts + profiles)
# Add this after the generated completions above:
_pf_dynamic() {
  local sub=$words[2]
  if (( CURRENT > 2 )) && [[ \"$sub\" == (start|stop|restart|logs) && \"$words[CURRENT]\" != -* ]]; then
    local -a completions
    completions=(${(@f)$(pf complete --subcommand \"$sub\" --prefix \"$words[CURRENT]\" 2>/dev/null)})
    compadd -a completions
  else
    _pf \"$@\"
  fi
}
compdef _pf_dynamic pf
"@,
        ShellType::Bash => "
# Dynamic completions for pf start (SSH hosts + profiles)
_pf_dynamic() {
  local cur=${COMP_WORDS[COMP_CWORD]}
  local sub=${COMP_WORDS[1]}
  if [[ \"$sub\" == \"start\" || \"$sub\" == \"stop\" || \"$sub\" == \"restart\" || \"$sub\" == \"logs\" ]]; then
    COMPREPLY=($(pf complete --subcommand \"$sub\" --prefix \"$cur\" 2>/dev/null))
  fi
}
complete -F _pf_dynamic pf
"@,
        ShellType::Fish => "
# Dynamic completions for pf start (SSH hosts + profiles)
complete -c pf -n '__fish_seen_subcommand_from start' -f -a '(pf complete --subcommand start 2>/dev/null)'
complete -c pf -n '__fish_seen_subcommand_from stop restart logs' -f -a '(pf complete --subcommand stop 2>/dev/null)'
"@,
    }
}

/// The lines that make a shell ask `pf` itself for hosts, profiles and forwards.
pub fn dynamic_script(shell: ShellType) -> (out: &'static str)
    ensures
        out@ == dynamic_completions(shell),
{
    match shell {
        ShellType::Zsh => "
# Dynamic completions for pf start (SSH hosts + profiles)
# Add this after the generated completions above:
_pf_dynamic() {
  local sub=$words[2]
  if (( CURRENT > 2 )) && [[ \"$sub\" == (start|stop|restart|logs) && \"$words[CURRENT]\" != -* ]]; then
    local -a completions
    completions=(${(@f)$(pf complete --subcommand \"$sub\" --prefix \"$words[CURRENT]\" 2>/dev/null)})
    compadd -a completions
  else
    _pf \"$@\"
  fi
}
compdef _pf_dynamic pf
",
        ShellType::Bash => "
# Dynamic completions for pf start (SSH hosts + profiles)
_pf_dynamic() {
  local cur=${COMP_WORDS[COMP_CWORD]}
  local sub=${COMP_WORDS[1]}
  if [[ \"$sub\" == \"start\" || \"$sub\" == \"stop\" || \"$sub\" == \"restart\" || \"$sub\" == \"logs\" ]]; then
    COMPREPLY=($(pf complete --subcommand \"$sub\" --prefix \"$cur\" 2>/dev/null))
  fi
}
complete -F _pf_dynamic pf
",
        ShellType::Fish => "
# Dynamic completions for pf start (SSH hosts + profiles)
complete -c pf -n '__fish_seen_subcommand_from start' -f -a '(pf complete --subcommand start 2>/dev/null)'
complete -c pf -n '__fish_seen_subcommand_from stop restart logs' -f -a '(pf complete --subcommand stop 2>/dev/null)'
",
    }
}

/// A completion that is offered for `pf start` starts with what was typed.
pub proof fn law_completions_extend_what_was_typed(
    prefix: Seq<char>,
    profiles: Seq<String>,
    hosts: Seq<String>,
    i: int,
)
    requires
        0 <= i < completed("start"@, prefix, profiles, hosts, seq![]).len(),
    ensures
        prefix.is_prefix_of(completed("start"@, prefix, profiles, hosts, seq![])[i]@),
{
    let pick = starting_with(prefix);
    let a = profiles.filter(pick);
    let fresh = not_among(a);
    let b = hosts.filter(pick).filter(fresh);
    let all = completed("start"@, prefix, profiles, hosts, seq![]);
    if i < a.len() {
        profiles.lemma_filter_pred(pick, i);
        assert(all[i] == a[i]);
    } else {
        let x = b[i - a.len()];
        assert(all[i] == x);
        assert(b.contains(x));
        hosts.filter(pick).lemma_filter_contains_rev(fresh, x);
        let k = choose|k: int| 0 <= k < hosts.filter(pick).len() && hosts.filter(pick)[k] == x;
        hosts.lemma_filter_pred(pick, k);
    }
}

/// No word is offered twice for `pf start`, a host that is also a profile
/// included.
pub proof fn law_no_completion_is_offered_twice(
    prefix: Seq<char>,
    profiles: Seq<String>,
    hosts: Seq<String>,
)
    requires
        distinct_names(profiles),
        distinct_names(hosts),
    ensures
        distinct_names(completed("start"@, prefix, profiles, hosts, seq![])),
{
    let pick = starting_with(prefix);
    let a = profiles.filter(pick);
    let fresh = not_among(a);
    let b = hosts.filter(pick).filter(fresh);
    let all = completed("start"@, prefix, profiles, hosts, seq![]);
    lemma_filter_keeps_distinct(profiles, pick);
    lemma_filter_keeps_distinct(hosts, pick);
    lemma_filter_keeps_distinct(hosts.filter(pick), fresh);
    assert forall|i: int, j: int| 0 <= i < j < all.len() implies #[trigger] all[i].named()
        != #[trigger] all[j].named() by {
        if j < a.len() {
            assert(all[i] == a[i] && all[j] == a[j]);
        } else if i >= a.len() {
            assert(all[i] == b[i - a.len()] && all[j] == b[j - a.len()]);
        } else {
            assert(all[i] == a[i] && all[j] == b[j - a.len()]);
            hosts.filter(pick).lemma_filter_pred(fresh, j - a.len());
            assert(!has_name(a, all[j]@));
        }
    }
}

/// A mapping is read back as it is written: the local port, a colon, and the
/// remote port, in that order.
pub proof fn law_a_mapping_is_read_back(
    text: &str,
    local: u16,
    remote: u16,
    r: Result<(u16, u16)>,
)
    requires
        call_ensures(parse_ports, (text,), r),
        text@ == decimal(local as nat) + ":"@ + decimal(remote as nat),
    ensures
        r == Result::<(u16, u16)>::Ok((local, remote)),
{
    lemma_mapping_of(text@, local, remote);
}

/// Whether `text` is two port numbers with one colon between them.
pub open spec fn is_mapping(text: Seq<char>, at: int) -> bool {
    &&& 0 <= at < text.len()
    &&& text[at] == ':'
    &&& forall|k: int| 0 <= k < text.len() && k != at ==> #[trigger] text[k] != ':'
    &&& port_number(text.take(at)) is Some
    &&& port_number(text.skip(at + 1)) is Some
}

/// Nothing but two ports around one colon is taken for a mapping, and what is
/// refused is named in the complaint.
pub proof fn law_only_mappings_are_read(text: &str, r: Result<(u16, u16)>)
    requires
        call_ensures(parse_ports, (text,), r),
    ensures
        r is Ok ==> exists|at: int|
            is_mapping(text@, at) && r->Ok_0.0 == port_number(#[trigger] text@.take(at))->0
                && r->Ok_0.1 == port_number(text@.skip(at + 1))->0,
        r is Err ==> r->Err_0@ == ErrorView::InvalidPortMapping(text@) && forall|at: int|
            !is_mapping(text@, at),
{
    let f = find_char(text@, ':');
    lemma_find_char_bounds(text@, ':');
    lemma_find_char_first(text@, ':');
    if r is Ok {
        assert forall|k: int| 0 <= k < text@.len() && k != f implies #[trigger] text@[k]
            != ':' by {
            if k > f {
                assert(text@.skip(f + 1)[k - f - 1] == text@[k]);
            }
        }
        assert(is_mapping(text@, f));
        assert(text@.take(f) == text@.take(f));
    } else {
        assert forall|at: int| !is_mapping(text@, at) by {
            if is_mapping(text@, at) {
                lemma_find_char(text@, ':', at);
                let rest = text@.skip(at + 1);
                assert forall|k: int| 0 <= k < rest.len() implies rest[k] != ':' by {
                    assert(rest[k] == text@[at + 1 + k]);
                }
            }
        }
    }
}

/// With ports, the argument of `pf start` is a host: the forward leads to that
/// machine itself, and is called after host and port unless it is named. A
/// profile of the same name is not consulted.
pub proof fn law_ports_make_it_a_host(
    profile: Option<&Profile>,
    host: &str,
    text: String,
    local: u16,
    remote: u16,
    name: Option<String>,
    r: Result<StartPlan>,
)
    requires
        call_ensures(plan_start, (profile, host, &Some(text), &name), r),
        text@ == decimal(local as nat) + ":"@ + decimal(remote as nat),
    ensures
        r is Ok,
        r->Ok_0.host@ == host@,
        r->Ok_0.local_port == local,
        r->Ok_0.remote_port == remote,
        r->Ok_0.remote_host@ == "localhost"@,
        name is Some ==> r->Ok_0.name@ == name->0@,
        name is None ==> r->Ok_0.name@ == host@ + "-"@ + decimal(local as nat),
{
    lemma_mapping_of(text@, local, remote);
}

proof fn lemma_mapping_of(text: Seq<char>, local: u16, remote: u16)
    requires
        text == decimal(local as nat) + ":"@ + decimal(remote as nat),
    ensures
        port_mapping(text) == Some((local, remote)),
{
    reveal_strlit(":");
    let (a, b) = (decimal(local as nat), decimal(remote as nat));
    law_a_number_is_read_back(local as nat);
    law_a_number_is_read_back(remote as nat);
    assert forall|k: int| 0 <= k < a.len() implies text[k] != ':' by {
        assert(text[k] == a[k]);
        assert(is_digit(a[k]));
    }
    assert(text[a.len() as int] == ':');
    lemma_find_char(text, ':', a.len() as int);
    assert(text.take(a.len() as int) =~= a);
    assert(text.skip(a.len() as int + 1) =~= b);
    assert forall|k: int| 0 <= k < b.len() implies b[k] != ':' by {
        assert(is_digit(b[k]));
    }
}

/// Without ports it is a profile, which says everything, and the forward is
/// called after it. Where there is no such profile nothing is started.
pub proof fn law_without_ports_it_is_a_profile(
    profile: Option<&Profile>,
    host: &str,
    name: Option<String>,
    r: Result<StartPlan>,
)
    requires
        call_ensures(plan_start, (profile, host, &None::<String>, &name), r),
    ensures
        r is Ok <==> profile is Some,
        profile is Some ==> {
            &&& r->Ok_0.name@ == host@
            &&& r->Ok_0.host@ == profile->0.host@
            &&& r->Ok_0.local_port == profile->0.local_port
            &&& r->Ok_0.remote_port == profile->0.remote_port
            &&& r->Ok_0.remote_host@ == profile->0.remote_host@
        },
        profile is None ==> r->Err_0@ is Other,
{
}

/// The flags of `pf start` say how the machine is kept up: unlimited retries are
/// written as none, and the delay never grows beyond five minutes.
pub proof fn law_flags_say_how_a_machine_is_kept_up(
    plan: StartPlan,
    no_reconnect: bool,
    max_retries: u32,
    retry_delay: u64,
    r: StartRequest,
)
    requires
        call_ensures(start_request, (plan, no_reconnect, max_retries, retry_delay), r),
    ensures
        r.plan == plan,
        r.reconnect <==> !no_reconnect,
        r.policy.max_retries == max_retries,
        r.policy.initial_delay == retry_delay,
        r.policy.max_delay == 300,
{
}

/// A command means everything, a machine or a forward, and nothing is guessed.
pub proof fn law_what_a_command_means(
    name: Option<String>,
    all: bool,
    host: Option<String>,
    r: Result<Target>,
)
    requires
        call_ensures(target, (name, all, host), r),
    ensures
        all ==> r is Ok && r->Ok_0 is All,
        !all && host is Some ==> r is Ok && r->Ok_0 == Target::Host(host->0),
        !all && host is None && name is Some ==> r is Ok && r->Ok_0 == Target::Forward(name->0),
        r is Err <==> !all && host is None && name is None,
{
}

/// The log that is shown is that of the machine that is named, or else of the
/// one that wants the forward.
pub proof fn law_whose_log_is_shown(
    name: Option<String>,
    host: Option<String>,
    sessions: &[DesiredSession],
    r: Result<String>,
)
    requires
        call_ensures(log_host, (&name, &host, sessions), r),
    ensures
        host is Some ==> r is Ok && r->Ok_0 == host->0,
        host is None && name is None ==> r is Err,
        host is None && name is Some && r is Ok ==> exists|i: int|
            0 <= i < sessions@.len() && r->Ok_0 == (#[trigger] sessions@[i]).host && wants(
                sessions@[i],
                name->0@,
            ),
        host is None && name is Some && r is Err ==> r->Err_0@ == ErrorView::NotFound(name->0@)
            && forall|i: int|
            0 <= i < sessions@.len() ==> !wants(#[trigger] sessions@[i], name->0@),
{
    if host is None && name is Some {
        lemma_owner_points(sessions@, name->0@);
        let at = owner_at(sessions@, name->0@);
        if at < sessions@.len() {
            assert(r->Ok_0 == sessions@[at].host);
        }
    }
}

/// `pf clean` looks at every host that has a session, desired or observed, and
/// at no other.
pub proof fn law_every_session_is_looked_at(
    desired: &[DesiredSession],
    states: &[SessionState],
    hosts: Vec<String>,
    i: int,
)
    requires
        call_ensures(session_hosts, (desired, states), hosts),
    ensures
        0 <= i < desired@.len() ==> exists|k: int|
            0 <= k < hosts@.len() && (#[trigger] hosts@[k])@ == desired@[i].host@,
        0 <= i < states@.len() ==> exists|k: int|
            0 <= k < hosts@.len() && (#[trigger] hosts@[k])@ == states@[i].host@,
        0 <= i < hosts@.len() ==> (exists|k: int|
            0 <= k < desired@.len() && (#[trigger] desired@[k]).host@ == hosts@[i]@) || (exists|
            k: int,
        |
            0 <= k < states@.len() && (#[trigger] states@[k]).host@ == hosts@[i]@),
{
    if 0 <= i < desired@.len() {
        let h = desired@[i].host@;
        assert(has_session(desired@, states@, h));
        assert(has_name(hosts@, h));
        let k = choose|k: int| 0 <= k < hosts@.len() && #[trigger] hosts@[k].named() == h;
        assert(hosts@[k]@ == h);
    }
    if 0 <= i < states@.len() {
        let h = states@[i].host@;
        assert(has_session(desired@, states@, h));
        assert(has_name(hosts@, h));
        let k = choose|k: int| 0 <= k < hosts@.len() && #[trigger] hosts@[k].named() == h;
        assert(hosts@[k]@ == h);
    }
    if 0 <= i < hosts@.len() {
        assert(hosts@[i].named() == hosts@[i]@);
        assert(has_name(hosts@, hosts@[i]@));
    }
}

proof fn lemma_not_live(hosts: Seq<String>, live: Seq<bool>, x: String)
    requires
        hosts.len() == live.len(),
    ensures
        not_live(hosts, live).contains(x) <==> exists|i: int|
            0 <= i < hosts.len() && hosts[i] == x && !#[trigger] live[i],
    decreases hosts.len(),
{
    if hosts.len() > 0 {
        let (h, l) = (hosts.drop_last(), live.drop_last());
        lemma_not_live(h, l, x);
        let above = not_live(h, l);
        let all = not_live(hosts, live);
        if all.contains(x) {
            let k = choose|k: int| 0 <= k < all.len() && all[k] == x;
            if k < above.len() {
                assert(above[k] == x);
                let i = choose|i: int| 0 <= i < h.len() && h[i] == x && !#[trigger] l[i];
                assert(hosts[i] == x && !live[i]);
            } else {
                assert(!live[hosts.len() - 1]);
            }
        }
        if exists|i: int| 0 <= i < hosts.len() && hosts[i] == x && !#[trigger] live[i] {
            let i = choose|i: int| 0 <= i < hosts.len() && hosts[i] == x && !#[trigger] live[i];
            if i < h.len() {
                assert(h[i] == x && !l[i]);
                let k = choose|k: int| 0 <= k < above.len() && above[k] == x;
                assert(all[k] == x);
            } else {
                assert(all[all.len() - 1] == x);
            }
        }
    }
}

/// `pf clean` forgets a session exactly when no live watcher owns it: it has no
/// observed state, or the process that its state names is not alive. A session
/// whose watcher lives is never forgotten.
pub proof fn law_only_dead_sessions_are_forgotten<P: Processes>(
    hosts: Seq<String>,
    states: Seq<SessionState>,
    live: Seq<bool>,
    i: int,
    k: int,
)
    requires
        forall|a: int, b: int| 0 <= a < b < hosts.len() ==> hosts[a]@ != hosts[b]@,
        answers::<P>(watchers_of(hosts, states), live),
        0 <= i < hosts.len(),
    ensures
        not_live(hosts, live).contains(hosts[i]) <==> !live[i],
        (forall|m: int| 0 <= m < states.len() ==> (#[trigger] states[m]).host@ != hosts[i]@)
            ==> not_live(hosts, live).contains(hosts[i]),
        0 <= k < states.len() && states[k].host@ == hosts[i]@ && (forall|m: int|
            0 <= m < k ==> (#[trigger] states[m]).host@ != hosts[i]@) ==> P::said(
            states[k].watcher_pid,
            live[i],
        ),
{
    let pids = watchers_of(hosts, states);
    assert(live.len() == hosts.len());
    lemma_not_live(hosts, live, hosts[i]);
    if not_live(hosts, live).contains(hosts[i]) {
        let j = choose|j: int| 0 <= j < hosts.len() && hosts[j] == hosts[i] && !#[trigger] live[j];
        if j < i {
            assert(hosts[j]@ != hosts[i]@);
        } else if i < j {
            assert(hosts[i]@ != hosts[j]@);
        }
    }
    assert(match pids[i] {
        Some(pid) => P::said(pid, live[i]),
        None => !live[i],
    });
    if has_name(states, hosts[i]@) {
        let m = choose|m: int| 0 <= m < states.len() && #[trigger] states[m].named() == hosts[i]@;
        assert(states[m].host@ == hosts[i]@);
    }
    if 0 <= k < states.len() && states[k].host@ == hosts[i]@ && (forall|m: int|
        0 <= m < k ==> (#[trigger] states[m]).host@ != hosts[i]@) {
        assert forall|m: int| 0 <= m < k implies #[trigger] states[m].named() != hosts[i]@ by {
            assert(states[m].host@ != hosts[i]@);
        }
        lemma_position(states, hosts[i]@, k);
    }
}

/// `pf clean` names each session that it forgot, and says how many there were.
pub proof fn law_cleaning_is_reported(forgotten: Vec<String>, out: Vec<String>, i: int)
    requires
        call_ensures(clean_report, (&forgotten,), out),
    ensures
        forgotten@.len() == 0 ==> out@.len() == 1 && out@[0]@ == "No stale state files found."@,
        forgotten@.len() > 0 ==> out@.len() == forgotten@.len() + 1 && out@.last()@ == "Cleaned "@
            + decimal(forgotten@.len()) + " stale state file(s)."@,
        0 <= i < forgotten@.len() ==> out@[i]@ == "Cleaned stale state for '"@ + forgotten@[i]@
            + "'"@,
{
    let v = views(out@);
    assert(v.len() == out@.len());
    assert(views(forgotten@).len() == forgotten@.len());
    assert(v.last() == out@.last()@);
    if 0 <= i < forgotten@.len() {
        assert(v[i] == out@[i]@);
        assert(views(forgotten@)[i] == forgotten@[i]@);
    }
    if forgotten@.len() == 0 {
        assert(v[0] == out@[0]@);
    }
}

/// Every host that is configured is printed.
pub proof fn law_every_host_is_printed(hosts: Vec<String>, out: Vec<String>)
    requires
        call_ensures(hosts_report, (hosts,), out),
    ensures
        hosts@.len() > 0 ==> out@ == hosts@,
        hosts@.len() == 0 ==> out@.len() == 1 && out@[0]@ == "No hosts found in SSH config."@,
{
    if hosts@.len() == 0 {
        assert(views(out@).len() == out@.len());
        assert(views(out@)[0] == out@[0]@);
    }
}

/// Whether `x` starts with `prefix`.
pub open spec fn begins(x: Seq<char>, prefix: Seq<char>) -> bool {
    x.len() >= prefix.len() && x.take(prefix.len() as int) == prefix
}

proof fn lemma_picked(all: Seq<String>, prefix: Seq<char>, x: String)
    ensures
        all.filter(starting_with(prefix)).contains(x) <==> all.contains(x) && begins(x@, prefix),
{
    let pick = starting_with(prefix);
    let out = all.filter(pick);
    if out.contains(x) {
        all.lemma_filter_contains_rev(pick, x);
        let k = choose|k: int| 0 <= k < out.len() && out[k] == x;
        all.lemma_filter_pred(pick, k);
    }
    if all.contains(x) && begins(x@, prefix) {
        let k = choose|k: int| 0 <= k < all.len() && all[k] == x;
        all.lemma_filter_contains(pick, k);
    }
}

/// After `start` profiles and hosts are offered, after `stop`, `restart` and
/// `logs` the forwards that run, and in each case exactly those that start with
/// what was typed. Nothing is offered after anything else.
pub proof fn law_what_is_offered(
    subcommand: &str,
    prefix: &str,
    profiles: &[String],
    hosts: &[String],
    forwards: &[String],
    out: Vec<String>,
    x: String,
)
    requires
        call_ensures(complete, (subcommand, prefix, profiles, hosts, forwards), out),
    ensures
        subcommand@ == "start"@ && profiles@.contains(x) ==> (out@.contains(x) <==> begins(
            x@,
            prefix@,
        )),
        subcommand@ == "start"@ && hosts@.contains(x) && begins(x@, prefix@) ==> exists|k: int|
            0 <= k < out@.len() && (#[trigger] out@[k])@ == x@,
        subcommand@ == "start"@ && out@.contains(x) ==> begins(x@, prefix@) && (profiles@.contains(
            x,
        ) || hosts@.contains(x)),
        subcommand@ == "stop"@ || subcommand@ == "restart"@ || subcommand@ == "logs"@ ==> (
        out@.contains(x) <==> forwards@.contains(x) && begins(x@, prefix@)),
        out@.len() > 0 ==> subcommand@ == "start"@ || subcommand@ == "stop"@ || subcommand@
            == "restart"@ || subcommand@ == "logs"@,
{
    reveal_strlit("start");
    reveal_strlit("stop");
    reveal_strlit("restart");
    reveal_strlit("logs");
    assert("start"@[1] == 't' && "start"@[2] == 'a' && "stop"@[2] == 'o' && "restart"@[0] == 'r'
        && "logs"@[0] == 'l' && "start"@[0] == 's' && "stop"@[0] == 's');
    let pick = starting_with(prefix@);
    let a = profiles@.filter(pick);
    let h = hosts@.filter(pick);
    let fresh = not_among(a);
    let b = h.filter(fresh);
    lemma_picked(profiles@, prefix@, x);
    lemma_picked(hosts@, prefix@, x);
    lemma_picked(forwards@, prefix@, x);
    if subcommand@ == "start"@ {
        if a.contains(x) {
            let k = choose|k: int| 0 <= k < a.len() && a[k] == x;
            assert(out@[k] == x);
        }
        if out@.contains(x) {
            let k = choose|k: int| 0 <= k < out@.len() && out@[k] == x;
            if k < a.len() {
                assert(a[k] == x);
                assert(a.contains(x));
            } else {
                assert(b[k - a.len()] == x);
                assert(b.contains(x));
                h.lemma_filter_contains_rev(fresh, x);
            }
        }
        if h.contains(x) {
            if has_name(a, x@) {
                let k = choose|k: int| 0 <= k < a.len() && #[trigger] a[k].named() == x@;
                assert(out@[k]@ == x@);
            } else {
                let m = choose|m: int| 0 <= m < h.len() && h[m] == x;
                h.lemma_filter_contains(fresh, m);
                let k = choose|k: int| 0 <= k < b.len() && b[k] == x;
                assert(out@[a.len() + k]@ == x@);
            }
        }
    }
}

/// Profiles are offered before hosts.
pub proof fn law_profiles_are_offered_first(
    prefix: &str,
    profiles: &[String],
    hosts: &[String],
    forwards: &[String],
    out: Vec<String>,
    i: int,
    j: int,
)
    requires
        call_ensures(complete, ("start", prefix, profiles, hosts, forwards), out),
        0 <= i < j < out@.len(),
        profiles@.contains(out@[j]),
    ensures
        profiles@.contains(out@[i]),
{
    let pick = starting_with(prefix@);
    let a = profiles@.filter(pick);
    let h = hosts@.filter(pick);
    let fresh = not_among(a);
    let b = h.filter(fresh);
    lemma_picked(profiles@, prefix@, out@[j]);
    lemma_picked(profiles@, prefix@, out@[i]);
    if j >= a.len() {
        assert(out@[j] == b[j - a.len()]);
        h.lemma_filter_pred(fresh, j - a.len());
        assert(b.contains(out@[j]));
        h.lemma_filter_contains_rev(fresh, out@[j]);
        lemma_picked(hosts@, prefix@, out@[j]);
        let k = choose|k: int| 0 <= k < a.len() && a[k] == out@[j];
        assert(a[k].named() == out@[j]@);
    } else {
        assert(out@[i] == a[i]);
        assert(a.contains(out@[i]));
    }
}

/// A shell is called by its own name.
pub proof fn law_shells_have_their_names(shell: ShellType, out: &'static str)
    requires
        call_ensures(shell_name, (shell,), out),
    ensures
        shell == ShellType::Bash ==> out@ == "bash"@,
        shell == ShellType::Zsh ==> out@ == "zsh"@,
        shell == ShellType::Fish ==> out@ == "fish"@,
{
}

/// A machine without a log is told of by the name that was asked for.
pub proof fn law_a_missing_log_is_named(name: &str, e: PfError)
    requires
        call_ensures(no_logs, (name,), e),
    ensures
        e@ == ErrorView::NotFound("No logs for '"@ + name@ + "'"@),
{
}

/// The pace of a running forward is the one that its listing tells.
pub proof fn law_the_pace_of_a_forward(f: ForwardState, p: RetryPolicy)
    requires
        call_ensures(policy_of, (&f,), p),
    ensures
        p.max_retries == f.max_retries,
        p.initial_delay == f.retry_delay,
        p.max_delay == f.max_retry_delay,
{
}

/// Of the sessions exactly those that are not live are orphans.
pub proof fn law_orphans_are_not_live(
    hosts: Vec<String>,
    live: Vec<bool>,
    out: Vec<String>,
    x: String,
)
    requires
        call_ensures(orphans, (&hosts, &live), out),
        hosts@.len() == live@.len(),
    ensures
        out@.contains(x) <==> exists|i: int|
            0 <= i < hosts@.len() && hosts@[i] == x && !#[trigger] live@[i],
{
    lemma_not_live(hosts@, live@, x);
}

/// `pf clean` never forgets a session whose watcher answers, forgets every one
/// that has no observed state, and forgets nothing that is no session.
pub proof fn law_cleaning_spares_the_living<P: Processes>(
    desired: Seq<DesiredSession>,
    states: Seq<SessionState>,
    out: Seq<String>,
    asked: Seq<(u32, bool)>,
    asked_after: Seq<(u32, bool)>,
    i: int,
    k: int,
)
    requires
        finds_stale::<P>(desired, states, out, asked, asked_after),
    ensures
        0 <= k < states.len() && (forall|m: int|
            0 <= m < k ==> (#[trigger] states[m]).host@ != states[k].host@) && !P::said(
            states[k].watcher_pid,
            false,
        ) ==> forall|j: int| 0 <= j < out.len() ==> (#[trigger] out[j])@ != states[k].host@,
        0 <= k < states.len() && (forall|m: int|
            0 <= m < k ==> (#[trigger] states[m]).host@ != states[k].host@) && !P::said(
            states[k].watcher_pid,
            true,
        ) ==> exists|j: int| 0 <= j < out.len() && (#[trigger] out[j])@ == states[k].host@,
        0 <= i < desired.len() && (forall|m: int|
            0 <= m < states.len() ==> (#[trigger] states[m]).host@ != desired[i].host@)
            ==> exists|j: int| 0 <= j < out.len() && (#[trigger] out[j])@ == desired[i].host@,
        0 <= i < out.len() ==> (exists|m: int|
            0 <= m < desired.len() && (#[trigger] desired[m]).host@ == out[i]@) || (exists|m: int|
            0 <= m < states.len() && (#[trigger] states[m]).host@ == out[i]@),
        asked.is_prefix_of(asked_after),
{
    let (hosts, live) = choose|hosts: Seq<String>, live: Seq<bool>|
        are_session_hosts(hosts, desired, states) && answers::<P>(
            watchers_of(hosts, states),
            live,
        ) && asked_after == asked + questions(watchers_of(hosts, states), live) && out
            == #[trigger] not_live(hosts, live);
    assert(asked_after.subrange(0, asked.len() as int) =~= asked);
    assert forall|a: int, b: int| 0 <= a < b < hosts.len() implies hosts[a]@ != hosts[b]@ by {
        assert(hosts[a].named() != hosts[b].named());
    }
    if 0 <= k < states.len() && (forall|m: int|
        0 <= m < k ==> (#[trigger] states[m]).host@ != states[k].host@) {
        let h = states[k].host@;
        assert(has_session(desired, states, h));
        assert(has_name(hosts, h));
        let at = choose|at: int| 0 <= at < hosts.len() && #[trigger] hosts[at].named() == h;
        assert(hosts[at]@ == h);
        law_only_dead_sessions_are_forgotten::<P>(hosts, states, live, at, k);
        if !P::said(states[k].watcher_pid, false) {
            assert forall|j: int| 0 <= j < out.len() implies (#[trigger] out[j])@ != h by {
                assert(out.contains(out[j]));
                lemma_not_live(hosts, live, out[j]);
                let b = choose|b: int|
                    0 <= b < hosts.len() && hosts[b] == out[j] && !#[trigger] live[b];
                if out[j]@ == h && b != at {
                    assert(hosts[b].named() == hosts[at].named());
                }
            }
        }
        if !P::said(states[k].watcher_pid, true) {
            let j = choose|j: int| 0 <= j < out.len() && out[j] == hosts[at];
            assert(out[j]@ == h);
        }
    }
    if 0 <= i < desired.len() && (forall|m: int|
        0 <= m < states.len() ==> (#[trigger] states[m]).host@ != desired[i].host@) {
        let h = desired[i].host@;
        assert(has_session(desired, states, h));
        assert(has_name(hosts, h));
        let at = choose|at: int| 0 <= at < hosts.len() && #[trigger] hosts[at].named() == h;
        assert(hosts[at]@ == h);
        law_only_dead_sessions_are_forgotten::<P>(hosts, states, live, at, 0);
        let j = choose|j: int| 0 <= j < out.len() && out[j] == hosts[at];
        assert(out[j]@ == h);
    }
    if 0 <= i < out.len() {
        assert(out.contains(out[i]));
        assert(live.len() == hosts.len());
        lemma_not_live(hosts, live, out[i]);
        let b = choose|b: int| 0 <= b < hosts.len() && hosts[b] == out[i] && !#[trigger] live[b];
        assert(hosts[b].named() == out[i]@);
        assert(has_name(hosts, out[i]@));
    }
}

/// Each shell is made to ask for what may follow the subcommand that is being
/// typed: hosts and profiles after `start`, running forwards after the others.
pub proof fn law_the_scripts_ask_for_every_subcommand(shell: ShellType, out: &'static str)
    requires
        call_ensures(dynamic_script, (shell,), out),
    ensures
        shell == ShellType::Bash ==> occurs_in(
            out@,
            "\"$sub\" == \"start\""@,
        ),
        shell == ShellType::Bash ==> occurs_in(
            out@,
            "\"$sub\" == \"stop\""@,
        ),
        shell == ShellType::Bash ==> occurs_in(
            out@,
            "\"$sub\" == \"restart\""@,
        ),
        shell == ShellType::Bash ==> occurs_in(
            out@,
            "\"$sub\" == \"logs\""@,
        ),
        shell == ShellType::Bash ==> occurs_in(
            out@,
            "COMPREPLY=($(pf complete --subcommand \"$sub\" --prefix \"$cur\""@,
        ),
        shell == ShellType::Bash ==> occurs_in(
            out@,
            "complete -F _pf_dynamic pf"@,
        ),
        shell == ShellType::Zsh ==> occurs_in(
            out@,
            "\"$sub\" == (start|stop|restart|logs)"@,
        ),
        shell == ShellType::Zsh ==> occurs_in(
            out@,
            "pf complete --subcommand \"$sub\" --prefix \"$words[CURRENT]\""@,
        ),
        shell == ShellType::Zsh ==> occurs_in(
            out@,
            "compadd -a completions"@,
        ),
        shell == ShellType::Zsh ==> occurs_in(
            out@,
            "compdef _pf_dynamic pf"@,
        ),
        shell == ShellType::Fish ==> occurs_in(
            out@,
            "__fish_seen_subcommand_from start' -f -a '(pf complete --subcommand start"@,
        ),
        shell == ShellType::Fish ==> occurs_in(
            out@,
            "__fish_seen_subcommand_from stop restart logs' -f -a '(pf complete --subcommand stop"@,
        ),
{
    if shell == ShellType::Bash {
        reveal_strlit("
# Dynamic completions for pf start (SSH hosts + profiles)
_pf_dynamic() {
  local cur=${COMP_WORDS[COMP_CWORD]}
  local sub=${COMP_WORDS[1]}
  if [[ \"$sub\" == \"start\" || \"$sub\" == \"stop\" || \"$sub\" == \"restart\" || \"$sub\" == \"logs\" ]]; then
    COMPREPLY=($(pf complete --subcommand \"$sub\" --prefix \"$cur\" 2>/dev/null))
  fi
}
complete -F _pf_dynamic pf
");
        reveal_strlit("\"$sub\" == \"start\"");
        assert(out@.subrange(150, 167) =~= "\"$sub\" == \"start\""@);
        assert(occurs_at(out@, "\"$sub\" == \"start\""@, 150));
        reveal_strlit("\"$sub\" == \"stop\"");
        assert(out@.subrange(171, 187) =~= "\"$sub\" == \"stop\""@);
        assert(occurs_at(out@, "\"$sub\" == \"stop\""@, 171));
        reveal_strlit("\"$sub\" == \"restart\"");
        assert(out@.subrange(191, 210) =~= "\"$sub\" == \"restart\""@);
        assert(occurs_at(out@, "\"$sub\" == \"restart\""@, 191));
        reveal_strlit("\"$sub\" == \"logs\"");
        assert(out@.subrange(214, 230) =~= "\"$sub\" == \"logs\""@);
        assert(occurs_at(out@, "\"$sub\" == \"logs\""@, 214));
        reveal_strlit("COMPREPLY=($(pf complete --subcommand \"$sub\" --prefix \"$cur\"");
        assert(out@.subrange(244, 304) =~= "COMPREPLY=($(pf complete --subcommand \"$sub\" --prefix \"$cur\""@);
        assert(occurs_at(out@, "COMPREPLY=($(pf complete --subcommand \"$sub\" --prefix \"$cur\""@, 244));
        reveal_strlit("complete -F _pf_dynamic pf");
        assert(out@.subrange(326, 352) =~= "complete -F _pf_dynamic pf"@);
        assert(occurs_at(out@, "complete -F _pf_dynamic pf"@, 326));
    }
    if shell == ShellType::Zsh {
        reveal_strlit("
# Dynamic completions for pf start (SSH hosts + profiles)
# Add this after the generated completions above:
_pf_dynamic() {
  local sub=$words[2]
  if (( CURRENT > 2 )) && [[ \"$sub\" == (start|stop|restart|logs) && \"$words[CURRENT]\" != -* ]]; then
    local -a completions
    completions=(${(@f)$(pf complete --subcommand \"$sub\" --prefix \"$words[CURRENT]\" 2>/dev/null)})
    compadd -a completions
  else
    _pf \"$@\"
  fi
}
compdef _pf_dynamic pf
");
        reveal_strlit("\"$sub\" == (start|stop|restart|logs)");
        assert(out@.subrange(176, 211) =~= "\"$sub\" == (start|stop|restart|logs)"@);
        assert(occurs_at(out@, "\"$sub\" == (start|stop|restart|logs)"@, 176));
        reveal_strlit("pf complete --subcommand \"$sub\" --prefix \"$words[CURRENT]\"");
        assert(out@.subrange(298, 356) =~= "pf complete --subcommand \"$sub\" --prefix \"$words[CURRENT]\""@);
        assert(occurs_at(out@, "pf complete --subcommand \"$sub\" --prefix \"$words[CURRENT]\""@, 298));
        reveal_strlit("compadd -a completions");
        assert(out@.subrange(376, 398) =~= "compadd -a completions"@);
        assert(occurs_at(out@, "compadd -a completions"@, 376));
        reveal_strlit("compdef _pf_dynamic pf");
        assert(out@.subrange(426, 448) =~= "compdef _pf_dynamic pf"@);
        assert(occurs_at(out@, "compdef _pf_dynamic pf"@, 426));
    }
    if shell == ShellType::Fish {
        reveal_strlit("
# Dynamic completions for pf start (SSH hosts + profiles)
complete -c pf -n '__fish_seen_subcommand_from start' -f -a '(pf complete --subcommand start 2>/dev/null)'
complete -c pf -n '__fish_seen_subcommand_from stop restart logs' -f -a '(pf complete --subcommand stop 2>/dev/null)'
");
        reveal_strlit("__fish_seen_subcommand_from start' -f -a '(pf complete --subcommand start");
        assert(out@.subrange(78, 151) =~= "__fish_seen_subcommand_from start' -f -a '(pf complete --subcommand start"@);
        assert(occurs_at(out@, "__fish_seen_subcommand_from start' -f -a '(pf complete --subcommand start"@, 78));
        reveal_strlit("__fish_seen_subcommand_from stop restart logs' -f -a '(pf complete --subcommand stop");
        assert(out@.subrange(185, 269) =~= "__fish_seen_subcommand_from stop restart logs' -f -a '(pf complete --subcommand stop"@);
        assert(occurs_at(out@, "__fish_seen_subcommand_from stop restart logs' -f -a '(pf complete --subcommand stop"@, 185));
    }
}

}
