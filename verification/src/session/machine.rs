//! The watcher as a state machine.
//!
//! One watcher runs per machine: it owns the ssh master, and brings the forwards
//! attached to it in line with what is desired. Its [`Phase`] says what it needs
//! to learn next; the method for that phase takes the answer, updates the
//! watcher, and returns a [`Turn`] that says what to log, whether to write the
//! state to disk, and how long to sleep before the next phase.

use crate::names::{distinct_names, has_name, Named};
use crate::session::reconcile::{
    apply, carried_out, difference, law_actions_keep_names_distinct,
    law_every_action_is_one_request, law_one_pass_converges, law_what_is_missing_is_attached,
    law_what_nobody_wants_goes, law_what_nobody_wants_is_cancelled, reconcile, Action,
};
use crate::session::ssh::{
    answered_since, lemma_answered_both, lemma_answered_nothing, lemma_answered_one, SshControl,
    SshEvent,
};
use crate::session::store::{desired_path, lock_path, socket_path, state_path};
use crate::session::types::{
    AttachStatus, DesiredForward, DesiredSession, ForwardObs, SessionState, SessionStatus, SessionView,
};
use crate::session::watcher::{
    all_failed, all_pending, law_giving_up_names_what_is_not_running,
    law_only_retirement_discards_intent,
    law_losing_the_master_reattaches_everything, mark_all_failed, mark_all_pending, needs_master,
    should_exit, shows_failure, tear_down_files, torn_down, ExitReason, POLL_INTERVAL_MS,
};
use crate::text::{concat2, concat3, concat5, dec, decimal, views};
use crate::time::{clock_read, Timestamp};
use crate::watcher::{
    backoff_delay, capped, is_jitter, jitter_nanos, jittered, next_retry_count, retries_after,
    HEALTHY_UPTIME_SECS,
};
use vstd::arithmetic::div_mod::lemma_small_mod;
use vstd::arithmetic::power2::{lemma2_to64, lemma_pow2_unfold, pow2};
use vstd::prelude::*;
use vstd::string::*;

verus! {

/// Length of one slice of the rest between two passes, in milliseconds.
pub const REST_SLICE_MS: u64 = 50;

/// Slices in a rest: together they make up the poll interval.
pub const REST_SLICES: u32 = 10;

/// Length of one slice of a longer wait, in milliseconds.
pub const WAIT_SLICE_MS: u64 = 100;

/// Slices in one second of backing off.
pub const SLICES_PER_SECOND: u32 = 10;

/// How many times a new master is asked whether it is ready.
pub const READY_ATTEMPTS: u32 = 100;

/// What the watcher needs to learn next.
#[derive(Debug, Clone, Copy, PartialEq, Eq, Structural)]
pub enum Phase {
    /// Whether a shutdown signal has arrived.
    Looking,
    /// What the desired file holds.
    Reading,
    /// Whether the master has exited.
    Reaping,
    /// Whether the control socket answers, with or without a master of its own.
    Checking,
    /// What came of starting a master.
    Spawning,
    /// Whether the new master is ready, after so many attempts.
    Waiting(u32),
    /// Whether a signal arrived while backing off: whole seconds left, and
    /// slices of the current one that have passed.
    BackingOff(u64, u32),
    /// Whether a signal arrived during this slice of the rest.
    Resting(u32),
    /// Nothing: the watcher is leaving.
    Done(ExitReason),
}

/// What to do between two phases.
#[derive(Debug)]
pub struct Turn {
    /// Lines for the session log.
    pub logs: Vec<String>,
    /// Whether to write the session state to disk.
    pub save: bool,
    /// Whether to forget about wake-ups that arrived so far.
    pub clear_wake: bool,
    /// How long to sleep, in milliseconds.
    pub pause_ms: u64,
}

/// What a turn holds, with its lines as sequences.
#[verifier::ext_equal]
pub struct TurnView {
    pub logs: Seq<Seq<char>>,
    pub save: bool,
    pub clear_wake: bool,
    pub pause_ms: u64,
}

impl View for Turn {
    type V = TurnView;

    open spec fn view(&self) -> TurnView {
        TurnView {
            logs: views(self.logs@),
            save: self.save,
            clear_wake: self.clear_wake,
            pause_ms: self.pause_ms,
        }
    }
}

/// A turn that only logs.
pub open spec fn says(logs: Seq<Seq<char>>) -> TurnView {
    TurnView { logs, save: false, clear_wake: false, pause_ms: 0 }
}

fn quiet() -> (t: Turn)
    ensures
        t@ == says(seq![]),
{
    let t = Turn { logs: Vec::new(), save: false, clear_wake: false, pause_ms: 0 };
    assert(t@.logs =~= seq![]);
    t
}

fn say(line: String) -> (t: Turn)
    ensures
        t@ == says(seq![line@]),
{
    let mut t = quiet();
    t.logs.push(line);
    assert(t@.logs =~= seq![line@]);
    t
}

/// What reading the desired file gave.
#[derive(Debug)]
pub enum DesiredRead {
    Present(DesiredSession),
    Missing,
    Unreadable(String),
}

/// How a master ended.
#[derive(Debug)]
pub struct MasterExit {
    /// Its exit status, as text.
    pub status: String,
    /// How long it had been up, in seconds.
    pub uptime: u64,
}

/// What came of starting a master.
#[derive(Debug)]
pub enum Launch {
    Started(u32),
    NoLogPath(String),
    NoLog(String),
    NoLogHandle(String),
    NotSpawned(String),
}

/// A machine's watcher.
#[derive(Debug)]
pub struct Watcher {
    /// Observed state, as it is written to disk.
    pub state: SessionState,
    /// Desired state, as it was last read.
    pub desired: DesiredSession,
    pub retries: u32,
    /// Whether it holds a master process.
    pub has_master: bool,
    pub phase: Phase,
}

/// What a watcher holds, with its state as a view.
#[verifier::ext_equal]
pub struct WatcherView {
    pub state: SessionView,
    pub desired: DesiredSession,
    pub retries: u32,
    pub has_master: bool,
    pub phase: Phase,
}

impl View for Watcher {
    type V = WatcherView;

    open spec fn view(&self) -> WatcherView {
        WatcherView {
            state: self.state@,
            desired: self.desired,
            retries: self.retries,
            has_master: self.has_master,
            phase: self.phase,
        }
    }
}

impl WatcherView {
    /// What holds of a watcher at all times: no two observed forwards share a
    /// name, a master is recorded exactly when one is held, each phase that is
    /// about the master agrees on whether there is one, and a watcher that gave
    /// up holds none.
    pub open spec fn consistent(self) -> bool {
        &&& distinct_names(self.state.forwards)
        &&& self.has_master == (self.state.master_pid is Some)
        &&& match self.phase {
            Phase::Reaping => self.has_master,
            Phase::Waiting(n) => self.has_master && n <= READY_ATTEMPTS,
            Phase::Spawning => !self.has_master,
            Phase::BackingOff(_, slice) => !self.has_master && slice < SLICES_PER_SECOND,
            Phase::Resting(n) => n <= REST_SLICES,
            Phase::Done(ExitReason::GaveUp) => !self.has_master,
            _ => true,
        }
    }

    /// The same watcher in another phase.
    pub open spec fn in_phase(self, phase: Phase) -> WatcherView {
        WatcherView { phase, ..self }
    }
}

/// A watcher that stops trying: `after` is `before` on its way out, with every
/// desired forward marked as failed for the reason `why`, which is logged after
/// `first`.
pub open spec fn gave_up(
    before: WatcherView,
    after: WatcherView,
    turn: TurnView,
    first: Seq<Seq<char>>,
    why: Seq<char>,
) -> bool {
    exists|reason: String|
        #![trigger reason@]
        reason@ == why && after == (WatcherView {
            state: SessionView {
                status: SessionStatus::Failed,
                forwards: all_failed(before.state.forwards, before.desired.forwards@, reason),
                ..before.state
            },
            phase: Phase::Done(ExitReason::GaveUp),
            ..before
        }) && turn == (TurnView { save: true, ..says(first.push(why)) })
}

/// The log line for a desired file that cannot be read.
pub open spec fn unreadable(why: Seq<char>) -> Seq<char> {
    "Cannot read desired state: "@ + why
}

/// What the watcher does at the top of its loop.
pub open spec fn after_looking(w: WatcherView, interrupted: bool) -> (WatcherView, TurnView) {
    if interrupted {
        (
            w.in_phase(Phase::Done(ExitReason::Signalled)),
            says(seq!["Received shutdown signal"@]),
        )
    } else {
        (w.in_phase(Phase::Reading), says(seq![]))
    }
}

/// What the watcher does with what it read.
pub open spec fn after_reading(
    w: WatcherView,
    read: DesiredRead,
) -> (WatcherView, TurnView) {
    match read {
        DesiredRead::Missing => (
            w.in_phase(Phase::Done(ExitReason::Retired)),
            says(seq!["Desired state removed; shutting down"@]),
        ),
        DesiredRead::Unreadable(e) => (
            w.in_phase(Phase::Looking),
            TurnView { pause_ms: POLL_INTERVAL_MS, ..says(seq![unreadable(e@)]) },
        ),
        DesiredRead::Present(d) => if d.forwards@.len() == 0 {
            (
                w.in_phase(Phase::Done(ExitReason::Retired)),
                says(seq!["No forwards remain; shutting down session"@]),
            )
        } else {
            (
                WatcherView {
                    state: SessionView {
                        auto_reconnect: d.auto_reconnect,
                        retry: d.retry,
                        ..w.state
                    },
                    desired: d,
                    phase: if w.has_master {
                        Phase::Reaping
                    } else {
                        Phase::Checking
                    },
                    ..w
                },
                says(seq![]),
            )
        },
    }
}

/// The watcher right after its master was gone.
pub open spec fn masterless(w: WatcherView) -> WatcherView {
    WatcherView {
        state: SessionView {
            master_pid: None,
            connected_at: None,
            forwards: all_pending(w.state.forwards),
            ..w.state
        },
        has_master: false,
        ..w
    }
}

/// The log line for a master that ended.
pub open spec fn exit_line(exit: MasterExit) -> Seq<char> {
    "Master exited with "@ + exit.status@ + " after "@ + decimal(exit.uptime as nat) + "s"@
}

/// The reason for which a watcher that ran out of retries leaves.
pub open spec fn exhausted(max_retries: u32) -> Seq<char> {
    "Max retries ("@ + decimal(max_retries as nat) + ") exceeded, giving up"@
}

/// The log line for the next attempt.
pub open spec fn reconnect_line(delay: u64, retries: u32) -> Seq<char> {
    "Reconnecting in "@ + decimal(delay as nat) + "s (attempt "@ + decimal(retries as nat)
        + ")..."@
}

/// What the watcher does with what became of its master, where `jitter` varies
/// the delay.
pub open spec fn reaps(
    w: WatcherView,
    exit: Option<MasterExit>,
    jitter: u32,
    after: WatcherView,
    turn: TurnView,
) -> bool {
    match exit {
        None => after == w.in_phase(Phase::Checking) && turn == says(seq![]),
        Some(e) => {
            let lost = masterless(w);
            let first = seq![exit_line(e)];
            let retries = retries_after(w.retries, e.uptime);
            let policy = w.desired.retry;
            if !w.desired.auto_reconnect {
                gave_up(lost, after, turn, first, "Auto-reconnect disabled, exiting"@)
            } else if policy.max_retries > 0 && retries > policy.max_retries {
                gave_up(
                    WatcherView { retries, ..lost },
                    after,
                    turn,
                    first,
                    exhausted(policy.max_retries),
                )
            } else {
                let delay = jittered(capped(policy, retries as nat), jitter as nat) as u64;
                &&& after == (WatcherView {
                    state: SessionView {
                        status: SessionStatus::Reconnecting,
                        reconnect_count: (w.state.reconnect_count + 1) as u32,
                        ..lost.state
                    },
                    retries,
                    phase: Phase::BackingOff(delay, 0),
                    ..lost
                })
                &&& turn == (TurnView {
                    save: true,
                    ..says(first.push(reconnect_line(delay, retries)))
                })
            }
        },
    }
}

/// What the watcher does with what became of its master, where the clock varies
/// the delay.
pub open spec fn reaps_by_clock(
    w: WatcherView,
    exit: Option<MasterExit>,
    after: WatcherView,
    turn: TurnView,
) -> bool {
    exists|jitter: u32| is_jitter(jitter) && #[trigger] reaps(w, exit, jitter, after, turn)
}

/// The turn that ends a pass.
pub open spec fn pass_turn(logs: Seq<Seq<char>>) -> TurnView {
    TurnView { save: true, clear_wake: true, ..says(logs) }
}

/// The requests to ssh after the master of `host` was asked whether it is there.
pub open spec fn asked(events: Seq<SshEvent>, host: Seq<char>, alive: bool) -> Seq<SshEvent> {
    events.push(SshEvent::Check { host, alive })
}

/// The difference between intent and reality was carried out, with some replies
/// at some times.
pub open spec fn in_line(
    host: Seq<char>,
    desired: DesiredSession,
    events: Seq<SshEvent>,
    events_after: Seq<SshEvent>,
    observed: Seq<ForwardObs>,
    observed_after: Seq<ForwardObs>,
    logs: Seq<Seq<char>>,
) -> bool {
    exists|replies: Seq<Result<(), String>>, times: Seq<Timestamp>|
        carried_out(
            host,
            difference(desired.forwards@, observed),
            replies,
            times,
            events,
            events_after,
            observed,
            observed_after,
            logs,
        )
}

/// One attach pass: the master is asked whether it is there, and if it is, the
/// whole difference between intent and reality is carried out. `events` and
/// `events_after` are what ssh had been asked before and after.
pub open spec fn passes(
    w: WatcherView,
    after: WatcherView,
    turn: TurnView,
    events: Seq<SshEvent>,
    events_after: Seq<SshEvent>,
) -> bool {
    let host = w.state.host@;
    ||| {
        &&& events_after == asked(events, host, false)
        &&& after == w.in_phase(Phase::Resting(0))
        &&& turn == pass_turn(seq![])
    }
    ||| {
        &&& in_line(
            host,
            w.desired,
            asked(events, host, true),
            events_after,
            w.state.forwards,
            after.state.forwards,
            turn.logs,
        )
        &&& after == (WatcherView {
            state: SessionView {
                status: SessionStatus::Connected,
                forwards: after.state.forwards,
                ..w.state
            },
            phase: Phase::Resting(0),
            ..w
        })
        &&& turn == pass_turn(turn.logs)
    }
}

/// What the watcher does once it knows whether a master has exited: start one
/// where there is none and the control socket does not answer, or attach.
pub open spec fn checks(
    w: WatcherView,
    after: WatcherView,
    turn: TurnView,
    events: Seq<SshEvent>,
    events_after: Seq<SshEvent>,
) -> bool {
    let host = w.state.host@;
    if w.has_master {
        passes(w, after, turn, events, events_after)
    } else {
        ||| {
            &&& events_after == asked(events, host, false)
            &&& after == (WatcherView {
                state: SessionView { status: SessionStatus::Connecting, ..w.state },
                phase: Phase::Spawning,
                ..w
            })
            &&& turn == (TurnView { save: true, ..says(seq!["Starting SSH master"@]) })
        }
        ||| passes(
            w,
            after,
            turn,
            asked(events, host, true), events_after,
        )
    }
}

/// What the watcher does with what came of starting a master.
pub open spec fn launches(
    w: WatcherView,
    launch: Launch,
    after: WatcherView,
    turn: TurnView,
) -> bool {
    match launch {
        Launch::Started(pid) => {
            &&& after == (WatcherView {
                state: SessionView { master_pid: Some(pid), ..w.state },
                has_master: true,
                phase: Phase::Waiting(0),
                ..w
            })
            &&& turn == says(
                seq!["Master started (pid Some("@ + decimal(pid as nat) + "))"@],
            )
        },
        Launch::NotSpawned(e) => {
            &&& after == (WatcherView {
                state: SessionView { status: SessionStatus::Failed, ..w.state },
                phase: Phase::Looking,
                ..w
            })
            &&& turn == (TurnView {
                save: true,
                pause_ms: POLL_INTERVAL_MS,
                ..says(seq!["Failed to spawn master: "@ + e@])
            })
        },
        Launch::NoLogPath(e) => gave_up(
            w,
            after,
            turn,
            seq![],
            "Cannot resolve log path: "@ + e@,
        ),
        Launch::NoLog(e) => gave_up(w, after, turn, seq![], "Cannot open log: "@ + e@),
        Launch::NoLogHandle(e) => gave_up(
            w,
            after,
            turn,
            seq![],
            "Cannot clone log handle: "@ + e@,
        ),
    }
}

/// The watcher once its master answers.
pub open spec fn connected(w: WatcherView, uptime: u64, now: Timestamp) -> WatcherView {
    WatcherView {
        state: SessionView {
            status: SessionStatus::Connected,
            connected_at: Some(now),
            ..w.state
        },
        retries: if uptime >= HEALTHY_UPTIME_SECS {
            0
        } else {
            w.retries
        },
        ..w
    }
}

/// The last look at a new master: attach if it answers, start over if not.
pub open spec fn settles(
    w: WatcherView,
    uptime: u64,
    now: Timestamp,
    after: WatcherView,
    turn: TurnView,
    events: Seq<SshEvent>,
    events_after: Seq<SshEvent>,
) -> bool {
    let host = w.state.host@;
    ||| {
        &&& events_after == asked(events, host, false)
        &&& after == w.in_phase(Phase::Looking)
        &&& turn == says(seq!["Master did not become ready"@])
    }
    ||| passes(
        connected(w, uptime, now),
        after,
        turn,
        asked(events, host, true), events_after,
    )
}

/// What the watcher does while it waits for a new master: ask, sleep and ask
/// again until it answers, a signal arrives, or the attempts run out.
pub open spec fn waits(
    w: WatcherView,
    attempts: u32,
    interrupted: bool,
    uptime: u64,
    now: Timestamp,
    after: WatcherView,
    turn: TurnView,
    events: Seq<SshEvent>,
    events_after: Seq<SshEvent>,
) -> bool {
    let host = w.state.host@;
    if attempts >= READY_ATTEMPTS {
        settles(w, uptime, now, after, turn, events, events_after)
    } else {
        ||| {
            &&& !interrupted
            &&& events_after == asked(events, host, false)
            &&& after == w.in_phase(Phase::Waiting((attempts + 1) as u32))
            &&& turn == (TurnView { pause_ms: WAIT_SLICE_MS, ..says(seq![]) })
        }
        ||| exists|alive: bool|
            #![trigger asked(events, host, alive)]
            (alive || interrupted) && settles(
                w,
                uptime,
                now,
                after,
                turn,
                asked(events, host, alive),
                events_after,
            )
    }
}

/// What the watcher does while it waits for a new master, by the clock.
pub open spec fn waits_by_clock(
    w: WatcherView,
    interrupted: bool,
    uptime: u64,
    after: WatcherView,
    turn: TurnView,
    events: Seq<SshEvent>,
    events_after: Seq<SshEvent>,
) -> bool {
    exists|now: Timestamp|
        clock_read(now) && #[trigger] waits(
            w,
            w.phase->Waiting_0,
            interrupted,
            uptime,
            now,
            after,
            turn,
            events,
            events_after,
        )
}

/// The phase after one more slice of backing off.
pub open spec fn next_slice(seconds: u64, slice: u32) -> Phase {
    if slice + 1 >= SLICES_PER_SECOND {
        Phase::BackingOff((seconds - 1) as u64, 0)
    } else {
        Phase::BackingOff(seconds, (slice + 1) as u32)
    }
}

/// What the watcher does in one slice of backing off.
pub open spec fn after_backing_off(w: WatcherView, interrupted: bool) -> (WatcherView, TurnView) {
    let seconds = w.phase->BackingOff_0;
    let slice = w.phase->BackingOff_1;
    if seconds == 0 || interrupted {
        (w.in_phase(Phase::Looking), says(seq![]))
    } else {
        (
            w.in_phase(next_slice(seconds, slice)),
            TurnView { pause_ms: WAIT_SLICE_MS, ..says(seq![]) },
        )
    }
}

/// What the watcher does in one slice of its rest.
pub open spec fn after_resting(w: WatcherView, interrupted: bool, woken: bool) -> (
    WatcherView,
    TurnView,
) {
    let slice = w.phase->Resting_0;
    if slice >= REST_SLICES || interrupted || woken {
        (w.in_phase(Phase::Looking), says(seq![]))
    } else {
        (
            w.in_phase(Phase::Resting((slice + 1) as u32)),
            TurnView { pause_ms: REST_SLICE_MS, ..says(seq![]) },
        )
    }
}

/// What a watcher that is leaving asks of ssh, deletes, and says last.
pub open spec fn leaves(
    w: WatcherView,
    run: Seq<u8>,
    files: Seq<Seq<u8>>,
    line: Seq<char>,
    events: Seq<SshEvent>,
    events_after: Seq<SshEvent>,
) -> bool {
    &&& events_after == events.push(SshEvent::Exit { host: w.state.host@ })
    &&& files == torn_down(run, w.state.host@, w.phase->Done_0)
    &&& line == "Watcher exiting ("@ + w.phase->Done_0.name() + ")"@
}

/// How long a watcher that is not interrupted still backs off, in milliseconds.
pub open spec fn backing_off_left(phase: Phase) -> int {
    match phase {
        Phase::BackingOff(seconds, slice) => if seconds == 0 {
            0
        } else {
            1000 * seconds - WAIT_SLICE_MS * slice
        },
        _ => 0,
    }
}

impl Watcher {
    /// A watcher that starts at `now` with what it read, or the line that says
    /// why there is nothing to watch.
    pub fn start_at(host: String, pid: u32, read: DesiredRead, now: Timestamp) -> (r: Result<
        Watcher,
        String,
    >)
        ensures
            match (read, r) {
                (DesiredRead::Present(d), Ok(w)) => {
                    &&& w.state.is_fresh(host, pid, d.auto_reconnect, d.retry)
                    &&& w.state.started_at == now
                    &&& w.desired == d
                    &&& w.retries == 0
                    &&& !w.has_master
                    &&& w.phase == Phase::Looking
                    &&& w@.consistent()
                },
                (DesiredRead::Missing, Err(line)) => line@ == "No desired state; nothing to do"@,
                (DesiredRead::Unreadable(e), Err(line)) => line@ == unreadable(e@),
                _ => false,
            },
    {
        match read {
            DesiredRead::Present(d) => Ok(
                Watcher {
                    state: SessionState::starting_at(host, pid, d.auto_reconnect, d.retry, now),
                    desired: d,
                    retries: 0,
                    has_master: false,
                    phase: Phase::Looking,
                },
            ),
            DesiredRead::Missing => Err("No desired state; nothing to do".to_owned()),
            DesiredRead::Unreadable(e) => Err(concat2("Cannot read desired state: ", e.as_str())),
        }
    }

    /// A watcher that starts now.
    pub fn start(host: String, pid: u32, read: DesiredRead) -> (r: Result<Watcher, String>)
        ensures
            match (read, r) {
                (DesiredRead::Present(d), Ok(w)) => {
                    &&& w.state.is_fresh(host, pid, d.auto_reconnect, d.retry)
                    &&& clock_read(w.state.started_at)
                    &&& w.desired == d
                    &&& w.retries == 0
                    &&& !w.has_master
                    &&& w.phase == Phase::Looking
                    &&& w@.consistent()
                },
                (DesiredRead::Missing, Err(line)) => line@ == "No desired state; nothing to do"@,
                (DesiredRead::Unreadable(e), Err(line)) => line@ == unreadable(e@),
                _ => false,
            },
    {
        Watcher::start_at(host, pid, read, crate::time::now())
    }

    /// The top of the loop: leave if a shutdown signal arrived.
    pub fn look(&mut self, interrupted: bool) -> (t: Turn)
        requires
            old(self).phase == Phase::Looking,
        ensures
            (final(self)@, t@) == after_looking(old(self)@, interrupted),
            old(self)@.consistent() ==> final(self)@.consistent(),
    {
        if interrupted {
            self.phase = Phase::Done(ExitReason::Signalled);
            say("Received shutdown signal".to_owned())
        } else {
            self.phase = Phase::Reading;
            quiet()
        }
    }

    /// Take in the desired state: leave when nothing is desired any more.
    pub fn read(&mut self, read: DesiredRead) -> (t: Turn)
        requires
            old(self).phase == Phase::Reading,
        ensures
            (final(self)@, t@) == after_reading(old(self)@, read),
            old(self)@.consistent() ==> final(self)@.consistent(),
    {
        match read {
            DesiredRead::Missing => {
                self.phase = Phase::Done(ExitReason::Retired);
                say("Desired state removed; shutting down".to_owned())
            },
            DesiredRead::Unreadable(e) => {
                self.phase = Phase::Looking;
                let mut t = say(concat2("Cannot read desired state: ", e.as_str()));
                t.pause_ms = POLL_INTERVAL_MS;
                t
            },
            DesiredRead::Present(d) => {
                if should_exit(&d) {
                    self.phase = Phase::Done(ExitReason::Retired);
                    return say("No forwards remain; shutting down session".to_owned());
                }
                self.state.auto_reconnect = d.auto_reconnect;
                self.state.retry = d.retry;
                self.desired = d;
                self.phase = if self.has_master {
                    Phase::Reaping
                } else {
                    Phase::Checking
                };
                quiet()
            },
        }
    }

    /// Stop trying: record every desired forward as failed before leaving.
    ///
    /// A `Failed` status that is never written is a machine that disappears
    /// instead of one that explains itself.
    fn give_up(&mut self, turn: Turn, why: String) -> (t: Turn)
        requires
            !turn.save && !turn.clear_wake && turn.pause_ms == 0,
        ensures
            gave_up(old(self)@, final(self)@, t@, turn@.logs, why@),
            distinct_names(old(self).state.forwards@) && !old(self).has_master && old(
                self,
            ).state.master_pid is None ==> final(self)@.consistent(),
    {
        let mut t = turn;
        let ghost first = t@.logs;
        let ghost before = self.state.forwards@;
        self.state.status = SessionStatus::Failed;
        mark_all_failed(&self.desired, &mut self.state.forwards, why.as_str());
        let ghost reason = choose|reason: String|
            #![trigger reason@]
            reason@ == why@ && self.state.forwards@ == all_failed(
                before,
                self.desired.forwards@,
                reason,
            );
        self.phase = Phase::Done(ExitReason::GaveUp);
        let ghost line = why@;
        t.logs.push(why);
        t.save = true;
        proof {
            assert(t@.logs =~= first.push(line));
            assert(reason@ == line);
            if distinct_names(before) {
                law_giving_up_names_what_is_not_running(
                    before,
                    self.desired.forwards@,
                    reason,
                    line,
                );
            }
        }
        t
    }

    /// Take in what became of the master, with `jitter` to vary the delay.
    pub fn reap_with(&mut self, exit: Option<MasterExit>, jitter: u32) -> (t: Turn)
        requires
            old(self).phase == Phase::Reaping,
            old(self).state.reconnect_count < u32::MAX,
        ensures
            reaps(old(self)@, exit, jitter, final(self)@, t@),
            old(self)@.consistent() ==> final(self)@.consistent(),
    {
        match exit {
            None => {
                self.phase = Phase::Checking;
                quiet()
            },
            Some(e) => {
                let line = concat5(
                    "Master exited with ",
                    e.status.as_str(),
                    " after ",
                    dec(e.uptime).as_str(),
                    "s",
                );
                let mut t = say(line);
                self.has_master = false;
                self.state.master_pid = None;
                self.state.connected_at = None;
                let ghost before = self.state.forwards@;
                mark_all_pending(&mut self.state.forwards);
                proof {
                    if distinct_names(before) {
                        lemma_pending_keeps_distinct(before);
                    }
                }
                if !self.desired.auto_reconnect {
                    return self.give_up(t, "Auto-reconnect disabled, exiting".to_owned());
                }
                self.retries = next_retry_count(self.retries, e.uptime);
                let policy = self.desired.retry;
                if policy.max_retries > 0 && self.retries > policy.max_retries {
                    let why = concat3(
                        "Max retries (",
                        dec(policy.max_retries as u64).as_str(),
                        ") exceeded, giving up",
                    );
                    return self.give_up(t, why);
                }
                let delay: u64 = backoff_delay(&policy, self.retries, jitter);
                self.state.status = SessionStatus::Reconnecting;
                self.state.reconnect_count = self.state.reconnect_count + 1;
                self.phase = Phase::BackingOff(delay, 0);
                let more = concat5(
                    "Reconnecting in ",
                    dec(delay).as_str(),
                    "s (attempt ",
                    dec(self.retries as u64).as_str(),
                    ")...",
                );
                let ghost first = t@.logs;
                let ghost said = more@;
                t.logs.push(more);
                t.save = true;
                assert(t@.logs =~= first.push(said));
                t
            },
        }
    }

    /// Take in what became of the master. The clock varies the delay.
    pub fn reap(&mut self, exit: Option<MasterExit>) -> (t: Turn)
        requires
            old(self).phase == Phase::Reaping,
            old(self).state.reconnect_count < u32::MAX,
        ensures
            reaps_by_clock(old(self)@, exit, final(self)@, t@),
            old(self)@.consistent() ==> final(self)@.consistent(),
    {
        let jitter: u32 = jitter_nanos();
        self.reap_with(exit, jitter)
    }

    /// One attach pass.
    fn pass<S: SshControl>(&mut self, ssh: &mut S) -> (t: Turn)
        ensures
            passes(old(self)@, final(self)@, t@, old(ssh).events(), final(ssh).events()),
            answered_since(*old(ssh), *final(ssh)),
            old(self)@.consistent() ==> final(self)@.consistent(),
    {
        let ghost first = *ssh;
        let mut t = quiet();
        t.save = true;
        t.clear_wake = true;
        self.phase = Phase::Resting(0);
        let alive = ssh.check(self.state.host.as_str());
        let ghost asked_once = *ssh;
        proof {
            lemma_answered_nothing(first);
            lemma_answered_one(
                first,
                first,
                SshEvent::Check { host: self.state.host@, alive },
                asked_once,
            );
        }
        if !alive {
            return t;
        }
        self.state.status = SessionStatus::Connected;
        let actions = reconcile(&self.desired, self.state.forwards.as_slice());
        let ghost midway = ssh.events();
        let ghost before = self.state.forwards@;
        t.logs = apply(
            actions.as_slice(),
            self.state.host.as_str(),
            ssh,
            &mut self.state.forwards,
        );
        proof {
            let (replies, times) = choose|replies: Seq<Result<(), String>>, times: Seq<Timestamp>|
                carried_out(
                    self.state.host@,
                    actions@,
                    replies,
                    times,
                    midway,
                    ssh.events(),
                    before,
                    self.state.forwards@,
                    t@.logs,
                );
            lemma_answered_both(first, asked_once, *ssh);
            if distinct_names(before) {
                law_actions_keep_names_distinct(before, actions@, replies, times);
            }
            assert(in_line(
                self.state.host@,
                self.desired,
                midway,
                ssh.events(),
                before,
                self.state.forwards@,
                t@.logs,
            ));
        }
        t
    }

    /// Start a master where there is none and the control socket does not
    /// answer; otherwise attach.
    pub fn check<S: SshControl>(&mut self, ssh: &mut S) -> (t: Turn)
        requires
            old(self).phase == Phase::Checking,
        ensures
            checks(old(self)@, final(self)@, t@, old(ssh).events(), final(ssh).events()),
            answered_since(*old(ssh), *final(ssh)),
            old(self)@.consistent() ==> final(self)@.consistent(),
    {
        let ghost first = *ssh;
        let mut missing = false;
        proof {
            lemma_answered_nothing(first);
        }
        if !self.has_master {
            missing = needs_master(ssh, self.state.host.as_str());
            proof {
                lemma_answered_one(
                    first,
                    first,
                    SshEvent::Check { host: self.state.host@, alive: !missing },
                    *ssh,
                );
            }
        }
        let ghost asked_once = *ssh;
        if missing {
            self.state.status = SessionStatus::Connecting;
            self.phase = Phase::Spawning;
            let mut t = say("Starting SSH master".to_owned());
            t.save = true;
            t
        } else {
            let t = self.pass(ssh);
            proof {
                lemma_answered_both(first, asked_once, *ssh);
            }
            t
        }
    }

    /// Take in what came of starting a master.
    pub fn launch(&mut self, launch: Launch) -> (t: Turn)
        requires
            old(self).phase == Phase::Spawning,
        ensures
            launches(old(self)@, launch, final(self)@, t@),
            old(self)@.consistent() ==> final(self)@.consistent(),
    {
        match launch {
            Launch::Started(pid) => {
                self.state.master_pid = Some(pid);
                self.has_master = true;
                self.phase = Phase::Waiting(0);
                say(concat3("Master started (pid Some(", dec(pid as u64).as_str(), "))"))
            },
            Launch::NotSpawned(e) => {
                self.state.status = SessionStatus::Failed;
                self.phase = Phase::Looking;
                let mut t = say(concat2("Failed to spawn master: ", e.as_str()));
                t.save = true;
                t.pause_ms = POLL_INTERVAL_MS;
                t
            },
            Launch::NoLogPath(e) => self.give_up(
                quiet(),
                concat2("Cannot resolve log path: ", e.as_str()),
            ),
            Launch::NoLog(e) => self.give_up(quiet(), concat2("Cannot open log: ", e.as_str())),
            Launch::NoLogHandle(e) => self.give_up(
                quiet(),
                concat2("Cannot clone log handle: ", e.as_str()),
            ),
        }
    }

    fn settle<S: SshControl>(&mut self, ssh: &mut S, uptime: u64, now: Timestamp) -> (t: Turn)
        requires
            old(self).phase is Waiting,
        ensures
            settles(
                old(self)@,
                uptime,
                now,
                final(self)@,
                t@,
                old(ssh).events(), final(ssh).events(),
            ),
            answered_since(*old(ssh), *final(ssh)),
            old(self)@.consistent() ==> final(self)@.consistent(),
    {
        let ghost first = *ssh;
        let alive = ssh.check(self.state.host.as_str());
        let ghost asked_once = *ssh;
        proof {
            lemma_answered_nothing(first);
            lemma_answered_one(
                first,
                first,
                SshEvent::Check { host: self.state.host@, alive },
                asked_once,
            );
        }
        if !alive {
            self.phase = Phase::Looking;
            return say("Master did not become ready".to_owned());
        }
        self.state.status = SessionStatus::Connected;
        self.state.connected_at = Some(now);
        if uptime >= HEALTHY_UPTIME_SECS {
            self.retries = 0;
        }
        let t = self.pass(ssh);
        proof {
            lemma_answered_both(first, asked_once, *ssh);
        }
        t
    }

    /// Wait for the control socket to accept requests before attaching, as seen
    /// at `now`. Honouring a signal here matters: a host that never resolves
    /// would keep the watcher busy for ten seconds, and a shutdown does not wait
    /// that long.
    pub fn wait_at<S: SshControl>(
        &mut self,
        ssh: &mut S,
        interrupted: bool,
        uptime: u64,
        now: Timestamp,
    ) -> (t: Turn)
        requires
            old(self).phase is Waiting,
        ensures
            waits(
                old(self)@,
                old(self).phase->Waiting_0,
                interrupted,
                uptime,
                now,
                final(self)@,
                t@,
                old(ssh).events(), final(ssh).events(),
            ),
            answered_since(*old(ssh), *final(ssh)),
            old(self)@.consistent() ==> final(self)@.consistent(),
    {
        let ghost first = *ssh;
        proof {
            lemma_answered_nothing(first);
        }
        let attempts: u32 = match self.phase {
            Phase::Waiting(n) => n,
            _ => 0,
        };
        if attempts < READY_ATTEMPTS {
            let alive = ssh.check(self.state.host.as_str());
            assert(ssh.events() == asked(old(ssh).events(), self.state.host@, alive));
            proof {
                lemma_answered_one(
                    first,
                    first,
                    SshEvent::Check { host: self.state.host@, alive },
                    *ssh,
                );
            }
            if !alive && !interrupted {
                self.phase = Phase::Waiting(attempts + 1);
                let mut t = quiet();
                t.pause_ms = WAIT_SLICE_MS;
                return t;
            }
        }
        let ghost asked_once = *ssh;
        let t = self.settle(ssh, uptime, now);
        proof {
            lemma_answered_both(first, asked_once, *ssh);
        }
        t
    }

    /// Wait for the control socket to accept requests before attaching.
    pub fn wait<S: SshControl>(&mut self, ssh: &mut S, interrupted: bool, uptime: u64) -> (t: Turn)
        requires
            old(self).phase is Waiting,
        ensures
            waits_by_clock(
                old(self)@,
                interrupted,
                uptime,
                final(self)@,
                t@,
                old(ssh).events(),
                final(ssh).events(),
            ),
            answered_since(*old(ssh), *final(ssh)),
            old(self)@.consistent() ==> final(self)@.consistent(),
    {
        let now = crate::time::now();
        self.wait_at(ssh, interrupted, uptime, now)
    }

    /// One slice of backing off. A signal ends the wait.
    pub fn back_off(&mut self, interrupted: bool) -> (t: Turn)
        requires
            old(self).phase is BackingOff,
        ensures
            (final(self)@, t@) == after_backing_off(old(self)@, interrupted),
            old(self)@.consistent() ==> final(self)@.consistent(),
    {
        let (seconds, slice) = match self.phase {
            Phase::BackingOff(seconds, slice) => (seconds, slice),
            _ => (0u64, 0u32),
        };
        let mut t = quiet();
        if seconds == 0 || interrupted {
            self.phase = Phase::Looking;
        } else {
            self.phase = if slice >= SLICES_PER_SECOND - 1 {
                Phase::BackingOff(seconds - 1, 0)
            } else {
                Phase::BackingOff(seconds, slice + 1)
            };
            t.pause_ms = WAIT_SLICE_MS;
        }
        t
    }

    /// One slice of the rest between two passes. Either signal ends it.
    pub fn rest(&mut self, interrupted: bool, woken: bool) -> (t: Turn)
        requires
            old(self).phase is Resting,
        ensures
            (final(self)@, t@) == after_resting(old(self)@, interrupted, woken),
            old(self)@.consistent() ==> final(self)@.consistent(),
    {
        let slice: u32 = match self.phase {
            Phase::Resting(n) => n,
            _ => 0,
        };
        let mut t = quiet();
        if slice >= REST_SLICES || interrupted || woken {
            self.phase = Phase::Looking;
        } else {
            self.phase = Phase::Resting(slice + 1);
            t.pause_ms = REST_SLICE_MS;
        }
        t
    }

    /// Leave: ask the master to exit, and say which files to delete and what to
    /// log last. The connection always goes; which files go depends on why.
    pub fn leave<S: SshControl>(&self, ssh: &mut S, run: &[u8]) -> (r: (Vec<Vec<u8>>, String))
        requires
            self.phase is Done,
        ensures
            leaves(self@, run@, views(r.0@), r.1@, old(ssh).events(), final(ssh).events()),
            old(ssh).answers(SshEvent::Exit { host: self.state.host@ }, final(ssh)),
    {
        let reason = match self.phase {
            Phase::Done(reason) => reason,
            _ => ExitReason::Signalled,
        };
        ssh.exit(self.state.host.as_str());
        let files = tear_down_files(run, self.state.host.as_str(), reason);
        (files, concat3("Watcher exiting (", reason.label(), ")"))
    }
}

proof fn lemma_pending_keeps_distinct(observed: Seq<ForwardObs>)
    requires
        distinct_names(observed),
    ensures
        distinct_names(all_pending(observed)),
{
    let all = all_pending(observed);
    assert forall|i: int, j: int| 0 <= i < j < all.len() implies #[trigger] all[i].named()
        != #[trigger] all[j].named() by {
        assert(observed[i].named() != observed[j].named());
    }
}

/// A delay of so many seconds is slept in slices that add up to it: each slice
/// but the last leaves exactly its own length less to wait.
pub proof fn law_backing_off_lasts_its_delay(seconds: u64, slice: u32)
    requires
        seconds > 0,
        slice < SLICES_PER_SECOND,
    ensures
        backing_off_left(Phase::BackingOff(seconds, 0)) == 1000 * seconds,
        backing_off_left(next_slice(seconds, slice)) == backing_off_left(
            Phase::BackingOff(seconds, slice),
        ) - WAIT_SLICE_MS,
{
}

/// A pass that reached the master leaves nothing more to do, whatever each
/// request came to: the same pass right after it would ask ssh for nothing.
pub proof fn law_a_pass_leaves_nothing_to_do(
    host: Seq<char>,
    desired: DesiredSession,
    events: Seq<SshEvent>,
    events_after: Seq<SshEvent>,
    observed: Seq<ForwardObs>,
    observed_after: Seq<ForwardObs>,
    logs: Seq<Seq<char>>,
)
    requires
        distinct_names(desired.forwards@),
        in_line(host, desired, events, events_after, observed, observed_after, logs),
    ensures
        difference(desired.forwards@, observed_after).len() == 0,
{
    let wants = desired.forwards@;
    let (replies, times) = choose|replies: Seq<Result<(), String>>, times: Seq<Timestamp>|
        carried_out(
            host,
            difference(wants, observed),
            replies,
            times,
            events,
            events_after,
            observed,
            observed_after,
            logs,
        );
    law_one_pass_converges(wants, observed, replies, times);
}

/// A watcher that may reconnect as often as it likes never gives up over a lost
/// master: it backs off, and records that it does.
pub proof fn law_unlimited_retries_never_give_up(
    w: WatcherView,
    exit: MasterExit,
    jitter: u32,
    after: WatcherView,
    turn: TurnView,
)
    requires
        w.desired.auto_reconnect,
        w.desired.retry.max_retries == 0,
        reaps(w, Some(exit), jitter, after, turn),
    ensures
        after.phase is BackingOff,
        after.state.status == SessionStatus::Reconnecting,
        turn.save,
{
}

/// A connection that dropped and is to come back gets every desired forward
/// attached again: the next pass asks for all of them, failed ones included.
pub proof fn law_a_reconnect_reattaches_everything(
    w: WatcherView,
    exit: MasterExit,
    jitter: u32,
    after: WatcherView,
    turn: TurnView,
    j: int,
)
    requires
        reaps(w, Some(exit), jitter, after, turn),
        after.phase is BackingOff,
        0 <= j < w.desired.forwards@.len(),
    ensures
        difference(after.desired.forwards@, after.state.forwards).contains(
            Action::Attach(w.desired.forwards@[j]),
        ),
{
    law_losing_the_master_reattaches_everything(w.desired.forwards@, w.state.forwards, j);
}

/// A watcher that gives up leaves a failed session behind that names exactly the
/// desired forwards.
pub proof fn law_giving_up_leaves_a_failure_to_see(
    before: WatcherView,
    after: WatcherView,
    turn: TurnView,
    first: Seq<Seq<char>>,
    why: Seq<char>,
    name: Seq<char>,
)
    requires
        gave_up(before, after, turn, first, why),
    ensures
        after.phase == Phase::Done(ExitReason::GaveUp),
        after.state.status == SessionStatus::Failed,
        turn.save,
        has_name(after.state.forwards, name) == has_name(before.desired.forwards@, name),
        has_name(before.desired.forwards@, name) ==> exists|reason: String|
            #![trigger reason@]
            reason@ == why && shows_failure(after.state.forwards, name, reason),
{
    let reason = choose|reason: String|
        #![trigger reason@]
        reason@ == why && after.state.forwards == all_failed(
            before.state.forwards,
            before.desired.forwards@,
            reason,
        );
    law_giving_up_names_what_is_not_running(
        before.state.forwards,
        before.desired.forwards@,
        reason,
        name,
    );
}

/// Whether two watchers differ in their phase at most.
pub open spec fn same_but_phase(a: WatcherView, b: WatcherView) -> bool {
    &&& a.state == b.state
    &&& a.desired == b.desired
    &&& a.retries == b.retries
    &&& a.has_master == b.has_master
}

/// A desired session that asks for something becomes what the watcher works
/// towards, whether or not it holds a master. What it observed stays as it was.
pub proof fn law_reading_makes_it_the_intent(w: WatcherView, d: DesiredSession)
    requires
        d.forwards@.len() > 0,
    ensures
        ({
            let (after, turn) = after_reading(w, DesiredRead::Present(d));
            &&& after.desired == d
            &&& after.state.auto_reconnect == d.auto_reconnect
            &&& after.state.retry == d.retry
            &&& after.state.forwards == w.state.forwards
            &&& after.state.host == w.state.host
            &&& after.state.watcher_pid == w.state.watcher_pid
            &&& after.state.master_pid == w.state.master_pid
            &&& after.state.status == w.state.status
            &&& after.state.started_at == w.state.started_at
            &&& after.state.connected_at == w.state.connected_at
            &&& after.state.reconnect_count == w.state.reconnect_count
            &&& after.retries == w.retries
            &&& after.has_master == w.has_master
            &&& (w.has_master ==> after.phase == Phase::Reaping)
            &&& (!w.has_master ==> after.phase == Phase::Checking)
            &&& turn.logs.len() == 0 && !turn.save && !turn.clear_wake && turn.pause_ms == 0
        }),
{
}

/// A session that was deleted, or asks for nothing any more, is retired. One
/// that cannot be read changes nothing: the watcher keeps what it knows, says
/// so, and reads again half a second later.
pub proof fn law_only_a_decision_retires(w: WatcherView, read: DesiredRead)
    ensures
        ({
            let (after, turn) = after_reading(w, read);
            &&& after.phase == Phase::Done(ExitReason::Retired) <==> (read is Missing || (
            read is Present && read->Present_0.forwards@.len() == 0))
            &&& (after.phase is Done ==> same_but_phase(after, w) && turn.logs.len() == 1
                && turn.pause_ms == 0)
            &&& (read is Unreadable ==> same_but_phase(after, w) && after.phase == Phase::Looking
                && turn.pause_ms == 500 && turn.logs == seq![
                "Cannot read desired state: "@ + read->Unreadable_0@,
            ])
        }),
{
}

/// A shutdown signal is heeded at the top of the loop, and nothing else ends it
/// there. Either way nothing that the watcher knows changes.
pub proof fn law_a_signal_ends_the_loop(w: WatcherView, interrupted: bool)
    ensures
        ({
            let (after, turn) = after_looking(w, interrupted);
            &&& same_but_phase(after, w)
            &&& interrupted ==> after.phase == Phase::Done(ExitReason::Signalled)
            &&& !interrupted ==> after.phase == Phase::Reading
            &&& turn.logs.len() == (if interrupted {
                1int
            } else {
                0
            })
            &&& !turn.save && turn.pause_ms == 0
        }),
{
}

/// A watcher rests for half a second in slices of a twentieth, unless a signal
/// or a nudge ends the rest at once.
pub proof fn law_a_rest_lasts_half_a_second(
    w: WatcherView,
    slice: u32,
    interrupted: bool,
    woken: bool,
)
    requires
        w.phase == Phase::Resting(slice),
        slice <= 10,
    ensures
        ({
            let (after, turn) = after_resting(w, interrupted, woken);
            &&& same_but_phase(after, w)
            &&& turn.logs.len() == 0 && !turn.save
            &&& (interrupted || woken ==> after.phase == Phase::Looking && turn.pause_ms == 0)
            &&& (!interrupted && !woken ==> if 50 * slice < 500 {
                after.phase == Phase::Resting((slice + 1) as u32) && turn.pause_ms == 50
            } else {
                after.phase == Phase::Looking && turn.pause_ms == 0
            })
        }),
{
}

/// Backing off takes a tenth of a second at a time off what is left, and ends
/// when nothing is left or a signal arrives.
pub proof fn law_backing_off_counts_down(
    w: WatcherView,
    seconds: u64,
    slice: u32,
    interrupted: bool,
)
    requires
        w.phase == Phase::BackingOff(seconds, slice),
        slice < 10,
        seconds == 0 ==> slice == 0,
    ensures
        ({
            let (after, turn) = after_backing_off(w, interrupted);
            &&& same_but_phase(after, w)
            &&& turn.logs.len() == 0 && !turn.save
            &&& (interrupted || seconds == 0) <==> after.phase == Phase::Looking
            &&& (after.phase == Phase::Looking ==> turn.pause_ms == 0)
            &&& (after.phase != Phase::Looking ==> after.phase is BackingOff && turn.pause_ms == 100
                && 10 * after.phase->BackingOff_0 - after.phase->BackingOff_1 == 10 * seconds
                - slice - 1 && after.phase->BackingOff_1 < 10)
        }),
{
}

/// The most that a watcher waits before attempt number `n`, in seconds: the
/// initial delay, doubled with every attempt but the first (thirty-two times at
/// most), and never more than the bound.
pub open spec fn longest_wait(initial: u64, bound: u64, n: u32) -> int {
    let doubled = initial * pow2(
        if n <= 33 {
            (n - 1) as nat
        } else {
            32
        },
    );
    if doubled <= bound {
        doubled
    } else {
        bound as int
    }
}

/// The wait after a lost master grows with the failures: it lies between half
/// of and the whole of the initial delay doubled once for every failure before
/// this one. A master that had been up for a minute starts the count again.
pub proof fn law_the_wait_grows_with_the_failures(
    w: WatcherView,
    exit: MasterExit,
    jitter: u32,
    after: WatcherView,
    turn: TurnView,
)
    requires
        reaps(w, Some(exit), jitter, after, turn),
        after.phase is BackingOff,
    ensures
        exit.uptime >= 60 ==> after.retries == 1,
        exit.uptime < 60 && w.retries < u32::MAX ==> after.retries == w.retries + 1,
        after.retries >= 1,
        ({
            let most = longest_wait(
                w.desired.retry.initial_delay,
                w.desired.retry.max_delay,
                after.retries,
            );
            &&& most / 2 <= after.phase->BackingOff_0 <= most
            &&& after.phase->BackingOff_1 == 0
        }),
{
}

/// Below the bound, one more quick failure doubles the longest wait.
pub proof fn law_one_more_failure_doubles_the_wait(initial: u64, bound: u64, n: u32)
    requires
        1 <= n < 33,
        2 * longest_wait(initial, bound, n) <= bound,
    ensures
        longest_wait(initial, bound, 1) == (if initial <= bound {
            initial
        } else {
            bound
        }),
        longest_wait(initial, bound, (n + 1) as u32) == 2 * longest_wait(initial, bound, n),
{
    lemma2_to64();
    lemma_pow2_unfold(n as nat);
    let p = pow2((n - 1) as nat);
    assert(initial * (2 * p) == 2 * (initial * p)) by (nonlinear_arith);
    assert(initial * 1 == initial);
    if initial * p > bound {
        assert(bound == 0);
        assert(2 * (initial * p) > bound);
    }
}

/// Jitter reaches every wait between the shortest and the longest: two watchers
/// that failed together need not come back together.
pub proof fn law_jitter_reaches_every_wait(
    w: WatcherView,
    exit: MasterExit,
    jitter: u32,
    after: WatcherView,
    turn: TurnView,
)
    requires
        reaps(w, Some(exit), jitter, after, turn),
        after.phase is BackingOff,
        longest_wait(w.desired.retry.initial_delay, w.desired.retry.max_delay, after.retries) >= 2,
        jitter <= longest_wait(
            w.desired.retry.initial_delay,
            w.desired.retry.max_delay,
            after.retries,
        ) / 2,
    ensures
        after.phase->BackingOff_0 == longest_wait(
            w.desired.retry.initial_delay,
            w.desired.retry.max_delay,
            after.retries,
        ) / 2 + jitter,
{
    let half = longest_wait(
        w.desired.retry.initial_delay,
        w.desired.retry.max_delay,
        after.retries,
    ) / 2;
    lemma_small_mod(jitter as nat, (half + 1) as nat);
}

/// A master that exited leaves nothing of its connection behind: no process, no
/// time of connecting, and every forward to be asked for again, bound as it was
/// and without its error. What is desired stays. While it runs nothing changes.
pub proof fn law_a_lost_master_leaves_nothing_behind(
    w: WatcherView,
    exit: Option<MasterExit>,
    jitter: u32,
    after: WatcherView,
    turn: TurnView,
    i: int,
)
    requires
        reaps(w, exit, jitter, after, turn),
    ensures
        exit is None ==> same_but_phase(after, w) && after.phase == Phase::Checking
            && turn.logs.len() == 0 && !turn.save && turn.pause_ms == 0,
        exit is Some ==> {
            &&& !after.has_master
            &&& after.state.master_pid is None
            &&& after.state.connected_at is None
            &&& after.desired == w.desired
            &&& after.state.host == w.state.host
            &&& after.state.watcher_pid == w.state.watcher_pid
            &&& after.state.started_at == w.state.started_at
            &&& turn.save
            &&& turn.logs.len() == 2
            &&& turn.logs[0] == "Master exited with "@ + exit->0.status@ + " after "@ + decimal(
                exit->0.uptime as nat,
            ) + "s"@
        },
        exit is Some && after.phase is BackingOff ==> {
            &&& after.state.status == SessionStatus::Reconnecting
            &&& after.state.reconnect_count == (w.state.reconnect_count + 1) as u32
            &&& after.state.forwards.len() == w.state.forwards.len()
            &&& turn.logs[1] == "Reconnecting in "@ + decimal(after.phase->BackingOff_0 as nat)
                + "s (attempt "@ + decimal(after.retries as nat) + ")..."@
        },
        exit is Some && after.phase is BackingOff && 0 <= i < w.state.forwards.len() ==> {
            let (old, new) = (w.state.forwards[i], after.state.forwards[i]);
            &&& new.status == AttachStatus::Pending
            &&& new.attached_at is None
            &&& new.error is None
            &&& new.name == old.name
            &&& new.local_port == old.local_port
            &&& new.remote_host == old.remote_host
            &&& new.remote_port == old.remote_port
        },
{
}

/// A watcher gives up over a lost master exactly when it may not reconnect, or
/// has tried as often as it may.
pub proof fn law_giving_up_has_its_reasons(
    w: WatcherView,
    exit: MasterExit,
    jitter: u32,
    after: WatcherView,
    turn: TurnView,
)
    requires
        reaps(w, Some(exit), jitter, after, turn),
    ensures
        after.phase is BackingOff || after.phase == Phase::Done(ExitReason::GaveUp),
        after.phase is Done <==> {
            ||| !w.desired.auto_reconnect
            ||| 0 < w.desired.retry.max_retries < u32::MAX && exit.uptime < 60 && w.retries
                >= w.desired.retry.max_retries
        },
        !w.desired.auto_reconnect ==> turn.logs[1] == "Auto-reconnect disabled, exiting"@,
        w.desired.auto_reconnect && after.phase is Done ==> turn.logs[1] == "Max retries ("@
            + decimal(w.desired.retry.max_retries as nat) + ") exceeded, giving up"@,
{
}

/// A pass asks first whether the master is there. If it is not, that is all.
/// If it is, the connection is up, whatever becomes of the forwards.
pub proof fn law_a_pass_needs_the_master(
    w: WatcherView,
    after: WatcherView,
    turn: TurnView,
    events: Seq<SshEvent>,
    events_after: Seq<SshEvent>,
)
    requires
        passes(w, after, turn, events, events_after),
    ensures
        events_after.len() > events.len(),
        events_after.take(events.len() as int) == events,
        events_after[events.len() as int] is Check,
        events_after[events.len() as int]->Check_host == w.state.host@,
        !events_after[events.len() as int]->alive ==> {
            &&& events_after.len() == events.len() + 1
            &&& same_but_phase(after, w)
            &&& turn.logs.len() == 0
        },
        events_after[events.len() as int]->alive ==> {
            &&& after.state.status == SessionStatus::Connected
            &&& after.state.host == w.state.host
            &&& after.state.master_pid == w.state.master_pid
            &&& after.state.connected_at == w.state.connected_at
            &&& after.state.reconnect_count == w.state.reconnect_count
            &&& after.desired == w.desired
            &&& after.has_master == w.has_master
            &&& after.retries == w.retries
            &&& turn.logs.len() == events_after.len() - events.len() - 1
        },
        after.phase == Phase::Resting(0),
        turn.save && turn.clear_wake && turn.pause_ms == 0,
{
    let host = w.state.host@;
    assert(asked(events, host, true).take(events.len() as int) =~= events);
    assert(asked(events, host, false).take(events.len() as int) =~= events);
    if in_line(
        host,
        w.desired,
        asked(events, host, true),
        events_after,
        w.state.forwards,
        after.state.forwards,
        turn.logs,
    ) {
        assert(events_after.take(events.len() as int) =~= events);
    }
}

/// A pass that reaches the master asks it to attach every desired forward that
/// is not observed.
pub proof fn law_a_pass_attaches_what_is_missing(
    w: WatcherView,
    after: WatcherView,
    turn: TurnView,
    events: Seq<SshEvent>,
    events_after: Seq<SshEvent>,
    j: int,
)
    requires
        passes(w, after, turn, events, events_after),
        events_after.len() > events.len(),
        events_after[events.len() as int]->alive,
        0 <= j < w.desired.forwards@.len(),
        forall|k: int|
            0 <= k < w.state.forwards.len() ==> (#[trigger] w.state.forwards[k]).name@
                != w.desired.forwards@[j].name@,
    ensures
        exists|k: int, reply: Result<(), String>|
            events.len() < k < events_after.len() && #[trigger] events_after[k] == (
            #[trigger] attach_request(w.state.host@, w.desired.forwards@[j], reply)),
{
    let host = w.state.host@;
    let actions = difference(w.desired.forwards@, w.state.forwards);
    let (replies, times) = choose|replies: Seq<Result<(), String>>, times: Seq<Timestamp>|
        carried_out(
            host,
            actions,
            replies,
            times,
            asked(events, host, true),
            events_after,
            w.state.forwards,
            after.state.forwards,
            turn.logs,
        );
    law_what_is_missing_is_attached(w.desired.forwards@, w.state.forwards, j);
    let i = choose|i: int|
        0 <= i < actions.len() && actions[i] == Action::Attach(w.desired.forwards@[j]);
    law_every_action_is_one_request(
        host,
        actions,
        replies,
        times,
        asked(events, host, true),
        events_after,
        w.state.forwards,
        after.state.forwards,
        turn.logs,
        i,
    );
    assert(events_after[events.len() + 1 + i] == attach_request(
        host,
        w.desired.forwards@[j],
        replies[i],
    ));
}

/// The request that attaches `want` on `host`.
pub open spec fn attach_request(
    host: Seq<char>,
    want: DesiredForward,
    reply: Result<(), String>,
) -> SshEvent {
    SshEvent::Forward { host, want, reply }
}

/// The request that detaches `have` on `host`.
pub open spec fn cancel_request(
    host: Seq<char>,
    have: ForwardObs,
    reply: Result<(), String>,
) -> SshEvent {
    SshEvent::Cancel { host, have, reply }
}

/// A pass that reaches the master asks it to cancel every observed forward that
/// is no longer desired.
pub proof fn law_a_pass_cancels_what_is_not_desired(
    w: WatcherView,
    after: WatcherView,
    turn: TurnView,
    events: Seq<SshEvent>,
    events_after: Seq<SshEvent>,
    k: int,
)
    requires
        passes(w, after, turn, events, events_after),
        events_after.len() > events.len(),
        events_after[events.len() as int]->alive,
        0 <= k < w.state.forwards.len(),
        forall|j: int|
            0 <= j < w.desired.forwards@.len() ==> (#[trigger] w.desired.forwards@[j]).name@
                != w.state.forwards[k].name@,
    ensures
        exists|at: int, reply: Result<(), String>|
            events.len() < at < events_after.len() && #[trigger] events_after[at] == (
            #[trigger] cancel_request(w.state.host@, w.state.forwards[k], reply)),
        forall|i: int|
            0 <= i < after.state.forwards.len() ==> (#[trigger] after.state.forwards[i]).name@
                != w.state.forwards[k].name@,
{
    let host = w.state.host@;
    let name = w.state.forwards[k].name@;
    let actions = difference(w.desired.forwards@, w.state.forwards);
    let (replies, times) = choose|replies: Seq<Result<(), String>>, times: Seq<Timestamp>|
        carried_out(
            host,
            actions,
            replies,
            times,
            asked(events, host, true),
            events_after,
            w.state.forwards,
            after.state.forwards,
            turn.logs,
        );
    law_what_nobody_wants_is_cancelled(w.desired.forwards@, w.state.forwards, k);
    let i = choose|i: int|
        0 <= i < actions.len() && actions[i] == Action::Cancel(w.state.forwards[k]);
    law_every_action_is_one_request(
        host,
        actions,
        replies,
        times,
        asked(events, host, true),
        events_after,
        w.state.forwards,
        after.state.forwards,
        turn.logs,
        i,
    );
    assert(events_after[events.len() + 1 + i] == cancel_request(
        host,
        w.state.forwards[k],
        replies[i],
    ));
    law_what_nobody_wants_goes(w.desired.forwards@, w.state.forwards, replies, times, name);
}

/// A forward that is started while the connection is up is attached without a
/// new one: what was read is what the next pass asks for.
pub proof fn law_a_started_forward_is_attached(
    w: WatcherView,
    d: DesiredSession,
    jitter: u32,
    mid: WatcherView,
    quiet: TurnView,
    after: WatcherView,
    turn: TurnView,
    events: Seq<SshEvent>,
    events_after: Seq<SshEvent>,
    j: int,
)
    requires
        w.has_master,
        0 <= j < d.forwards@.len(),
        forall|k: int|
            0 <= k < w.state.forwards.len() ==> (#[trigger] w.state.forwards[k]).name@
                != d.forwards@[j].name@,
        reaps(after_reading(w, DesiredRead::Present(d)).0, None, jitter, mid, quiet),
        checks(mid, after, turn, events, events_after),
        events_after[events.len() as int]->alive,
    ensures
        exists|k: int, reply: Result<(), String>|
            events.len() < k < events_after.len() && #[trigger] events_after[k] == (
            #[trigger] attach_request(w.state.host@, d.forwards@[j], reply)),
{
    law_a_pass_needs_the_master(mid, after, turn, events, events_after);
    law_a_pass_attaches_what_is_missing(mid, after, turn, events, events_after, j);
}

/// A forward that is stopped while the connection is up is cancelled, and no
/// longer observed.
pub proof fn law_a_stopped_forward_is_cancelled(
    w: WatcherView,
    d: DesiredSession,
    jitter: u32,
    mid: WatcherView,
    quiet: TurnView,
    after: WatcherView,
    turn: TurnView,
    events: Seq<SshEvent>,
    events_after: Seq<SshEvent>,
    k: int,
)
    requires
        w.has_master,
        d.forwards@.len() > 0,
        0 <= k < w.state.forwards.len(),
        forall|j: int|
            0 <= j < d.forwards@.len() ==> (#[trigger] d.forwards@[j]).name@
                != w.state.forwards[k].name@,
        reaps(after_reading(w, DesiredRead::Present(d)).0, None, jitter, mid, quiet),
        checks(mid, after, turn, events, events_after),
        events_after[events.len() as int]->alive,
    ensures
        exists|at: int, reply: Result<(), String>|
            events.len() < at < events_after.len() && #[trigger] events_after[at] == (
            #[trigger] cancel_request(w.state.host@, w.state.forwards[k], reply)),
        forall|i: int|
            0 <= i < after.state.forwards.len() ==> (#[trigger] after.state.forwards[i]).name@
                != w.state.forwards[k].name@,
{
    law_a_pass_needs_the_master(mid, after, turn, events, events_after);
    law_a_pass_cancels_what_is_not_desired(mid, after, turn, events, events_after, k);
}

/// A master is started only where there is none and its socket does not answer;
/// a watcher that holds one never starts a second. A socket that answers is
/// used as it is.
pub proof fn law_a_master_is_started_only_where_none_answers(
    w: WatcherView,
    after: WatcherView,
    turn: TurnView,
    events: Seq<SshEvent>,
    events_after: Seq<SshEvent>,
)
    requires
        checks(w, after, turn, events, events_after),
    ensures
        events_after.len() > events.len(),
        events_after[events.len() as int] is Check,
        events_after[events.len() as int]->Check_host == w.state.host@,
        after.phase == Phase::Spawning <==> !w.has_master
            && !events_after[events.len() as int]->alive,
        after.phase == Phase::Spawning ==> after.state.status == SessionStatus::Connecting
            && after.state.forwards == w.state.forwards && after.desired == w.desired && turn.save,
        after.phase != Phase::Spawning ==> after.phase == Phase::Resting(0),
        after.has_master == w.has_master,
{
    let host = w.state.host@;
    if w.has_master {
        law_a_pass_needs_the_master(w, after, turn, events, events_after);
    } else if passes(w, after, turn, asked(events, host, true), events_after) {
        law_a_pass_needs_the_master(w, after, turn, asked(events, host, true), events_after);
        assert(events_after[events.len() as int] == events_after.take(
            asked(events, host, true).len() as int,
        )[events.len() as int]);
    }
}

/// A master that was started is held, recorded, and waited for. One that could
/// not be started is tried again later; only a log that cannot be written makes
/// the watcher give up.
pub proof fn law_a_started_master_is_waited_for(
    w: WatcherView,
    launch: Launch,
    after: WatcherView,
    turn: TurnView,
)
    requires
        launches(w, launch, after, turn),
    ensures
        launch is Started ==> after.has_master && after.state.master_pid == Some(
            launch->Started_0,
        ) && after.phase == Phase::Waiting(0) && after.state.status == w.state.status
            && after.state.forwards == w.state.forwards,
        launch is NotSpawned ==> after.phase == Phase::Looking && after.state.status
            == SessionStatus::Failed && after.has_master == w.has_master && after.state.forwards
            == w.state.forwards && turn.save && turn.pause_ms == 500,
        !(launch is Started) && !(launch is NotSpawned) ==> after.phase == Phase::Done(
            ExitReason::GaveUp,
        ) && after.state.status == SessionStatus::Failed && turn.save,
        after.desired == w.desired,
        after.retries == w.retries,
        turn.logs.len() == 1,
{
}

/// A new master is asked every tenth of a second, for ten seconds, whether it is
/// ready. The wait ends at once when it answers or a signal arrives. A master
/// that answers is connected since then, and has its forwards attached in the
/// same turn; one that does not is given another look.
pub proof fn law_waiting_for_a_master(
    w: WatcherView,
    attempts: u32,
    interrupted: bool,
    uptime: u64,
    now: Timestamp,
    after: WatcherView,
    turn: TurnView,
    events: Seq<SshEvent>,
    events_after: Seq<SshEvent>,
)
    requires
        w.phase == Phase::Waiting(attempts),
        attempts <= 100,
        waits(w, attempts, interrupted, uptime, now, after, turn, events, events_after),
    ensures
        events_after.len() > events.len(),
        events_after[events.len() as int] is Check,
        events_after[events.len() as int]->Check_host == w.state.host@,
        after.phase is Waiting ==> {
            &&& after.phase == Phase::Waiting((attempts + 1) as u32)
            &&& 100 * attempts < 10_000
            &&& !interrupted
            &&& turn.pause_ms == 100
            &&& same_but_phase(after, w)
            &&& !events_after[events.len() as int]->alive
        },
        attempts < 100 && !interrupted && !events_after[events.len() as int]->alive
            ==> after.phase is Waiting,
        after.phase is Resting ==> after.state.connected_at == Some(now) && after.state.status
            == SessionStatus::Connected && after.retries == (if uptime >= 60 {
            0
        } else {
            w.retries
        }),
        after.phase is Waiting || after.phase == Phase::Resting(0) || after.phase
            == Phase::Looking,
        after.phase == Phase::Looking ==> same_but_phase(after, w) && turn.logs.len() == 1
            && events_after.last() is Check && !events_after.last()->alive,
        after.desired == w.desired,
        after.has_master == w.has_master,
        after.state.master_pid == w.state.master_pid,
{
    let host = w.state.host@;
    if attempts >= READY_ATTEMPTS {
        lemma_settling(w, uptime, now, after, turn, events, events_after);
    } else if exists|alive: bool|
        #![trigger asked(events, host, alive)]
        (alive || interrupted) && settles(
            w,
            uptime,
            now,
            after,
            turn,
            asked(events, host, alive),
            events_after,
        ) {
        let alive = choose|alive: bool|
            #![trigger asked(events, host, alive)]
            (alive || interrupted) && settles(
                w,
                uptime,
                now,
                after,
                turn,
                asked(events, host, alive),
                events_after,
            );
        let more = asked(events, host, alive);
        lemma_settling(w, uptime, now, after, turn, more, events_after);
        assert(events_after[events.len() as int] == events_after.take(
            more.len() as int,
        )[events.len() as int]);
    }
}

proof fn lemma_settling(
    w: WatcherView,
    uptime: u64,
    now: Timestamp,
    after: WatcherView,
    turn: TurnView,
    events: Seq<SshEvent>,
    events_after: Seq<SshEvent>,
)
    requires
        settles(w, uptime, now, after, turn, events, events_after),
    ensures
        events_after.len() > events.len(),
        events_after.take(events.len() as int) == events,
        events_after[events.len() as int] is Check,
        events_after[events.len() as int]->Check_host == w.state.host@,
        after.phase == Phase::Resting(0) || after.phase == Phase::Looking,
        after.phase == Phase::Resting(0) ==> after.state.connected_at == Some(now)
            && after.state.status == SessionStatus::Connected && after.retries == (if uptime
            >= 60 {
            0
        } else {
            w.retries
        }),
        after.phase == Phase::Looking ==> same_but_phase(after, w) && turn.logs.len() == 1
            && events_after.last() is Check && !events_after.last()->alive,
        after.desired == w.desired,
        after.has_master == w.has_master,
        after.state.master_pid == w.state.master_pid,
{
    let host = w.state.host@;
    assert(asked(events, host, false).take(events.len() as int) =~= events);
    let up = connected(w, uptime, now);
    let more = asked(events, host, true);
    if passes(up, after, turn, more, events_after) {
        law_a_pass_needs_the_master(up, after, turn, more, events_after);
        assert(events_after.take(events.len() as int) =~= events_after.take(
            more.len() as int,
        ).take(events.len() as int));
        assert(more.take(events.len() as int) =~= events);
        assert(events_after[events.len() as int] == events_after.take(
            more.len() as int,
        )[events.len() as int]);
    }
}

/// A watcher that leaves asks its own master to exit, whatever the reason, and
/// always deletes its socket and its lock. What was desired is deleted only when
/// the session is over, and what was observed unless it shows why it gave up.
pub proof fn law_what_leaving_leaves(
    w: WatcherView,
    run: &[u8],
    host: &str,
    files: Seq<Seq<u8>>,
    line: Seq<char>,
    events: Seq<SshEvent>,
    events_after: Seq<SshEvent>,
    desired: Vec<u8>,
    state: Vec<u8>,
    lock: Vec<u8>,
    socket: Vec<u8>,
)
    requires
        w.phase is Done,
        host@ == w.state.host@,
        leaves(w, run@, files, line, events, events_after),
        call_ensures(desired_path, (run, host), desired),
        call_ensures(state_path, (run, host), state),
        call_ensures(lock_path, (run, host), lock),
        call_ensures(socket_path, (run, host), socket),
    ensures
        events_after.len() == events.len() + 1,
        events_after.last() is Exit && events_after.last()->Exit_host == w.state.host@,
        files.contains(socket@),
        files.contains(lock@),
        files.contains(desired@) <==> w.phase == Phase::Done(ExitReason::Retired),
        files.contains(state@) <==> w.phase != Phase::Done(ExitReason::GaveUp),
        forall|i: int|
            0 <= i < files.len() ==> #[trigger] files[i] == desired@ || files[i] == state@
                || files[i] == lock@ || files[i] == socket@,
{
    law_only_retirement_discards_intent(run@, host@, w.phase->Done_0);
}

/// A watcher starts with what it read as its intent, nothing attached, nothing
/// held, and no failure counted. Where there is nothing to read it does not
/// start.
pub proof fn law_how_a_watcher_starts(
    host: String,
    pid: u32,
    read: DesiredRead,
    now: Timestamp,
    r: Result<Watcher, String>,
)
    requires
        call_ensures(Watcher::start_at, (host, pid, read, now), r),
    ensures
        r is Ok <==> read is Present,
        r is Ok ==> {
            let w = r->Ok_0;
            &&& w.desired == read->Present_0
            &&& w.state.host@ == host@
            &&& w.state.watcher_pid == pid
            &&& w.state.started_at == now
            &&& w.state.auto_reconnect == (read->Present_0).auto_reconnect
            &&& w.state.retry == (read->Present_0).retry
            &&& w.state.forwards@.len() == 0
            &&& w.state.status == SessionStatus::Connecting
            &&& w.state.master_pid is None && w.state.connected_at is None
            &&& w.state.reconnect_count == 0
            &&& w.retries == 0 && !w.has_master
            &&& w.phase == Phase::Looking
        },
{
}

/// A watcher is seen with its own state, intent, retries and phase.
pub proof fn law_a_watcher_is_seen_whole(w: Watcher, t: Turn)
    ensures
        w@.state == w.state@,
        w@.desired == w.desired,
        w@.retries == w.retries,
        w@.has_master == w.has_master,
        w@.phase == w.phase,
        t@.logs.len() == t.logs@.len(),
        t@.save == t.save && t@.clear_wake == t.clear_wake && t@.pause_ms == t.pause_ms,
{
}

/// The clock decides where between its shortest and its longest a wait falls.
pub proof fn law_the_clock_varies_the_wait(
    w: WatcherView,
    exit: MasterExit,
    after: WatcherView,
    turn: TurnView,
)
    requires
        reaps_by_clock(w, Some(exit), after, turn),
        after.phase is BackingOff,
    ensures
        ({
            let most = longest_wait(
                w.desired.retry.initial_delay,
                w.desired.retry.max_delay,
                after.retries,
            );
            &&& most / 2 <= after.phase->BackingOff_0 <= most
            &&& most >= 2 ==> exists|nanos: u32| #[trigger]
                is_jitter(nanos) && after.phase->BackingOff_0 == most / 2 + nanos as int % (most
                    / 2 + 1)
        }),
{
    let jitter = choose|jitter: u32|
        is_jitter(jitter) && #[trigger] reaps(w, Some(exit), jitter, after, turn);
    law_the_wait_grows_with_the_failures(w, exit, jitter, after, turn);
    assert(is_jitter(jitter));
}

/// A connection dates from when the clock said it came up.
pub proof fn law_a_connection_dates_from_the_clock(
    w: WatcherView,
    interrupted: bool,
    uptime: u64,
    after: WatcherView,
    turn: TurnView,
    events: Seq<SshEvent>,
    events_after: Seq<SshEvent>,
)
    requires
        w.phase is Waiting,
        w.phase->Waiting_0 <= 100,
        waits_by_clock(w, interrupted, uptime, after, turn, events, events_after),
        after.phase is Resting,
    ensures
        after.state.connected_at is Some,
        clock_read(after.state.connected_at->0),
        after.state.status == SessionStatus::Connected,
{
    let now = choose|now: Timestamp|
        clock_read(now) && #[trigger] waits(
            w,
            w.phase->Waiting_0,
            interrupted,
            uptime,
            now,
            after,
            turn,
            events,
            events_after,
        );
    law_waiting_for_a_master(
        w,
        w.phase->Waiting_0,
        interrupted,
        uptime,
        now,
        after,
        turn,
        events,
        events_after,
    );
}

/// A watcher dates from when the clock said it started.
pub proof fn law_a_watcher_dates_from_the_clock(
    host: String,
    pid: u32,
    read: DesiredRead,
    r: Result<Watcher, String>,
)
    requires
        call_ensures(Watcher::start, (host, pid, read), r),
    ensures
        r is Ok <==> read is Present,
        r is Ok ==> clock_read((r->Ok_0).state.started_at) && (r->Ok_0).desired == read->Present_0
            && (r->Ok_0).state.host@ == host@ && (r->Ok_0).state.watcher_pid == pid
            && (r->Ok_0).phase == Phase::Looking && !(r->Ok_0).has_master,
{
}

}
