//! The ssh invocations a watcher makes, behind one seam.

use crate::paths::{file_of, host_key, joined, lossy, lossy_text, sanitize_host, socket_file_in};
use crate::session::types::{DesiredForward, ForwardObs};
use crate::text::{concat2, concat3, concat5, dec, decimal, trim, trimmed, views};
use std::collections::HashSet;
use vstd::prelude::*;
use vstd::string::*;
use vstd::utf8::*;

verus! {

/// `-L`-style text of a forward.
pub open spec fn spec_text(local_port: u16, remote_host: Seq<char>, remote_port: u16) -> Seq<char> {
    decimal(local_port as nat) + ":"@ + remote_host + ":"@ + decimal(remote_port as nat)
}

/// `-L`-style forward specification.
pub fn forward_spec(local_port: u16, remote_host: &str, remote_port: u16) -> (out: String)
    ensures
        out@ == spec_text(local_port, remote_host@, remote_port),
{
    let local = dec(local_port as u64);
    let remote = dec(remote_port as u64);
    concat5(local.as_str(), ":", remote_host, ":", remote.as_str())
}

/// One request to ssh and what came of it.
pub enum SshEvent {
    Check { host: Seq<char>, alive: bool },
    Forward { host: Seq<char>, want: DesiredForward, reply: Result<(), String> },
    Cancel { host: Seq<char>, have: ForwardObs, reply: Result<(), String> },
    Exit { host: Seq<char> },
}

/// Every ssh invocation the watcher makes, behind one seam so the reconcile
/// loop can be tested without a network.
///
/// Errors are `String` because they are stored verbatim in `ForwardObs.error`
/// and shown to the user.
pub trait SshControl {
    /// The requests made so far, with their replies.
    spec fn events(&self) -> Seq<SshEvent>;

    /// Whether this answers a request as `event` has it, and is `post` after it.
    spec fn answers(&self, event: SshEvent, post: &Self) -> bool;

    /// Is the multiplexing master alive and accepting requests?
    fn check(&mut self, host: &str) -> (alive: bool)
        ensures
            final(self).events() == old(self).events().push(SshEvent::Check { host: host@, alive }),
            old(self).answers(SshEvent::Check { host: host@, alive }, final(self)),
    ;

    /// Attach a forward to the master.
    fn forward(&mut self, host: &str, f: &DesiredForward) -> (reply: Result<(), String>)
        ensures
            final(self).events() == old(self).events().push(
                SshEvent::Forward { host: host@, want: *f, reply },
            ),
            old(self).answers(SshEvent::Forward { host: host@, want: *f, reply }, final(self)),
    ;

    /// Detach a forward from the master.
    fn cancel(&mut self, host: &str, f: &ForwardObs) -> (reply: Result<(), String>)
        ensures
            final(self).events() == old(self).events().push(
                SshEvent::Cancel { host: host@, have: *f, reply },
            ),
            old(self).answers(SshEvent::Cancel { host: host@, have: *f, reply }, final(self)),
    ;

    /// Ask the master to exit. Best-effort.
    fn exit(&mut self, host: &str)
        ensures
            final(self).events() == old(self).events().push(SshEvent::Exit { host: host@ }),
            old(self).answers(SshEvent::Exit { host: host@ }, final(self)),
    ;
}

/// Whether `pre` becomes `post` by answering `events`, one after the other.
pub open spec fn answered<S: SshControl>(pre: S, events: Seq<SshEvent>, post: S) -> bool
    decreases events.len(),
{
    if events.len() == 0 {
        post == pre
    } else {
        exists|mid: S|
            answered(pre, events.drop_last(), mid) && #[trigger] mid.answers(events.last(), &post)
    }
}

/// Whether `pre` became `post` by answering the requests that were added to its
/// record, and by nothing else.
pub open spec fn answered_since<S: SshControl>(pre: S, post: S) -> bool {
    &&& pre.events().is_prefix_of(post.events())
    &&& answered(pre, post.events().skip(pre.events().len() as int), post)
}

/// Before any request, nothing was answered.
pub proof fn lemma_answered_nothing<S: SshControl>(s: S)
    ensures
        answered_since(s, s),
{
    assert(s.events().skip(s.events().len() as int) =~= seq![]);
    assert(s.events().take(s.events().len() as int) =~= s.events());
}

/// One more answer.
pub proof fn lemma_answered_one<S: SshControl>(pre: S, mid: S, event: SshEvent, post: S)
    requires
        answered_since(pre, mid),
        mid.answers(event, &post),
        post.events() == mid.events().push(event),
    ensures
        answered_since(pre, post),
{
    let n = pre.events().len() as int;
    let more = post.events().skip(n);
    assert(more.drop_last() =~= mid.events().skip(n));
    assert(more.last() == event);
    assert(post.events().take(n) =~= mid.events().take(n));
}

/// Answers follow on one another.
pub proof fn lemma_answered_both<S: SshControl>(pre: S, mid: S, post: S)
    requires
        answered_since(pre, mid),
        answered_since(mid, post),
    ensures
        answered_since(pre, post),
{
    let n = pre.events().len() as int;
    let m = mid.events().len() as int;
    let (first, second) = (mid.events().skip(n), post.events().skip(m));
    lemma_answered_append(pre, first, mid, second, post);
    assert(post.events().take(m) =~= mid.events());
    assert(post.events().skip(n) =~= first + second);
    assert(post.events().take(n) =~= mid.events().take(n));
}

proof fn lemma_answered_append<S: SshControl>(
    pre: S,
    first: Seq<SshEvent>,
    mid: S,
    second: Seq<SshEvent>,
    post: S,
)
    requires
        answered(pre, first, mid),
        answered(mid, second, post),
    ensures
        answered(pre, first + second, post),
    decreases second.len(),
{
    if second.len() == 0 {
        assert(first + second =~= first);
    } else {
        let near = choose|near: S|
            answered(mid, second.drop_last(), near) && #[trigger] near.answers(second.last(), &post);
        lemma_answered_append(pre, first, mid, second.drop_last(), near);
        assert((first + second).drop_last() =~= first + second.drop_last());
        assert((first + second).last() == second.last());
    }
}

/// One argument of an ssh command.
#[derive(Debug, PartialEq, Eq)]
pub enum Arg {
    Word(String),
    /// The path of a file, which need not be text.
    File(Vec<u8>),
}

/// One argument, as a sequence.
pub enum ArgView {
    Word(Seq<char>),
    File(Seq<u8>),
}

impl View for Arg {
    type V = ArgView;

    open spec fn view(&self) -> ArgView {
        match self {
            Arg::Word(w) => ArgView::Word(w@),
            Arg::File(f) => ArgView::File(f@),
        }
    }
}

/// These words as arguments.
pub open spec fn words(texts: Seq<Seq<char>>) -> Seq<ArgView> {
    texts.map_values(|w: Seq<char>| ArgView::Word(w))
}

fn word(w: &str) -> (a: Arg)
    ensures
        a@ == ArgView::Word(w@),
{
    Arg::Word(w.to_owned())
}

/// The command lines of the real ssh, for a run directory.
#[derive(Debug)]
pub struct RealSsh {
    pub run_dir: Vec<u8>,
}

/// The arguments that start a master on `socket` for `host`.
pub open spec fn master_args(socket: Seq<char>, host: Seq<char>) -> Seq<ArgView> {
    seq![
        ArgView::Word("-M"@),
        ArgView::Word("-S"@),
        ArgView::Word(socket),
        ArgView::Word("-N"@),
        ArgView::Word("-o"@),
        ArgView::Word("ServerAliveInterval=30"@),
        ArgView::Word("-o"@),
        ArgView::Word("ServerAliveCountMax=3"@),
        ArgView::Word("-o"@),
        ArgView::Word("ConnectTimeout=10"@),
        ArgView::Word(host),
    ]
}

/// The arguments of a control request.
pub open spec fn control_args(socket: Seq<u8>, request: Seq<Seq<char>>, host: Seq<char>) -> Seq<
    ArgView,
> {
    seq![ArgView::Word("-S"@), ArgView::File(socket)] + words(request) + seq![ArgView::Word(host)]
}

impl RealSsh {
    pub fn new(run_dir: Vec<u8>) -> (s: Self)
        ensures
            s.run_dir == run_dir,
    {
        RealSsh { run_dir }
    }

    /// The control socket of a host's master.
    pub open spec fn socket_path(&self, host: Seq<char>) -> Seq<u8> {
        file_of(self.run_dir@, host_key(host), ".sock"@)
    }

    /// Where a host's master listens for requests.
    pub fn socket(&self, host: &str) -> (out: Vec<u8>)
        ensures
            out@ == self.socket_path(host@),
    {
        socket_file_in(self.run_dir.as_slice(), sanitize_host(host).as_str())
    }

    /// The arguments of the long-lived master. Carries **no** `-L`: forwards
    /// attach afterwards via `-O forward`, so one failing bind cannot kill the
    /// others. For the same reason `ExitOnForwardFailure` is deliberately
    /// absent.
    ///
    /// The socket is passed as text, which is its path as it stands unless that
    /// is not UTF-8.
    pub fn master_command(&self, host: &str) -> (args: Vec<Arg>)
        ensures
            views(args@) == master_args(lossy_text(self.socket_path(host@)), host@),
            valid_utf8(self.socket_path(host@)) ==> encode_utf8(
                lossy_text(self.socket_path(host@)),
            ) == self.socket_path(host@),
    {
        let mut args: Vec<Arg> = Vec::new();
        args.push(word("-M"));
        args.push(word("-S"));
        args.push(Arg::Word(lossy(self.socket(host).as_slice())));
        args.push(word("-N"));
        args.push(word("-o"));
        args.push(word("ServerAliveInterval=30"));
        args.push(word("-o"));
        args.push(word("ServerAliveCountMax=3"));
        args.push(word("-o"));
        args.push(word("ConnectTimeout=10"));
        args.push(word(host));
        assert(views(args@) =~= master_args(lossy_text(self.socket_path(host@)), host@));
        args
    }

    /// The arguments that ask whether the master is alive.
    pub open spec fn check_args(&self, host: Seq<char>) -> Seq<ArgView> {
        control_args(self.socket_path(host), seq!["-O"@, "check"@], host)
    }

    /// The arguments that ask the master to exit.
    pub open spec fn exit_args(&self, host: Seq<char>) -> Seq<ArgView> {
        control_args(self.socket_path(host), seq!["-O"@, "exit"@], host)
    }

    /// The arguments that attach a forward to the master.
    pub open spec fn forward_args(&self, host: Seq<char>, f: DesiredForward) -> Seq<ArgView> {
        control_args(
            self.socket_path(host),
            seq!["-O"@, "forward"@, "-L"@, spec_text(f.local_port, f.remote_host@, f.remote_port)],
            host,
        )
    }

    /// The arguments that detach a forward from the master.
    pub open spec fn cancel_args(&self, host: Seq<char>, f: ForwardObs) -> Seq<ArgView> {
        control_args(
            self.socket_path(host),
            seq!["-O"@, "cancel"@, "-L"@, spec_text(f.local_port, f.remote_host@, f.remote_port)],
            host,
        )
    }

    /// The arguments that ask whether the master is alive.
    pub fn check_command(&self, host: &str) -> (args: Vec<Arg>)
        ensures
            views(args@) == self.check_args(host@),
    {
        let mut args: Vec<Arg> = Vec::new();
        args.push(word("-S"));
        args.push(Arg::File(self.socket(host)));
        args.push(word("-O"));
        args.push(word("check"));
        args.push(word(host));
        assert(views(args@) =~= self.check_args(host@));
        args
    }

    /// The arguments that attach a forward to the master.
    pub fn forward_command(&self, host: &str, f: &DesiredForward) -> (args: Vec<Arg>)
        ensures
            views(args@) == self.forward_args(host@, *f),
    {
        let mut args: Vec<Arg> = Vec::new();
        args.push(word("-S"));
        args.push(Arg::File(self.socket(host)));
        args.push(word("-O"));
        args.push(word("forward"));
        args.push(word("-L"));
        args.push(Arg::Word(forward_spec(f.local_port, f.remote_host.as_str(), f.remote_port)));
        args.push(word(host));
        assert(views(args@) =~= self.forward_args(host@, *f));
        args
    }

    /// The arguments that detach a forward from the master.
    pub fn cancel_command(&self, host: &str, f: &ForwardObs) -> (args: Vec<Arg>)
        ensures
            views(args@) == self.cancel_args(host@, *f),
    {
        let mut args: Vec<Arg> = Vec::new();
        args.push(word("-S"));
        args.push(Arg::File(self.socket(host)));
        args.push(word("-O"));
        args.push(word("cancel"));
        args.push(word("-L"));
        args.push(Arg::Word(forward_spec(f.local_port, f.remote_host.as_str(), f.remote_port)));
        args.push(word(host));
        assert(views(args@) =~= self.cancel_args(host@, *f));
        args
    }

    /// The arguments that ask the master to exit.
    pub fn exit_command(&self, host: &str) -> (args: Vec<Arg>)
        ensures
            views(args@) == self.exit_args(host@),
    {
        let mut args: Vec<Arg> = Vec::new();
        args.push(word("-S"));
        args.push(Arg::File(self.socket(host)));
        args.push(word("-O"));
        args.push(word("exit"));
        args.push(word(host));
        assert(views(args@) =~= self.exit_args(host@));
        args
    }
}

/// How a control request ended.
#[derive(Debug)]
pub enum ControlOutcome {
    /// ssh could not be run at all.
    NotRun(String),
    /// ssh ran: whether it succeeded, its exit status as text, its stderr.
    Ran(bool, String, String),
}

/// The text of a failed control request: ssh's own words, or its exit status
/// where it said nothing.
pub open spec fn control_error(outcome: ControlOutcome) -> Option<Seq<char>> {
    match outcome {
        ControlOutcome::NotRun(e) => Some("failed to run ssh: "@ + e@),
        ControlOutcome::Ran(true, _, _) => None,
        ControlOutcome::Ran(false, status, stderr) => if trimmed(stderr@).len() == 0 {
            Some("ssh exited with "@ + status@)
        } else {
            Some(trimmed(stderr@))
        },
    }
}

/// Read the outcome of a control request.
pub fn control_reply(outcome: &ControlOutcome) -> (r: Result<(), String>)
    ensures
        match r {
            Ok(()) => control_error(*outcome) is None,
            Err(e) => control_error(*outcome) == Some(e@),
        },
{
    match outcome {
        ControlOutcome::NotRun(e) => Err(concat2("failed to run ssh: ", e.as_str())),
        ControlOutcome::Ran(success, status, stderr) => {
            if *success {
                return Ok(());
            }
            let said = trim(stderr.as_str());
            if said.as_str().is_empty() {
                Err(concat2("ssh exited with ", status.as_str()))
            } else {
                Err(said)
            }
        },
    }
}

/// Runs ssh with some arguments. Nothing is known of how that ends.
pub trait RunSsh {
    fn run(&self, args: Vec<Arg>) -> ControlOutcome;
}

/// Whether `runner` ran ssh with arguments `args`, and it ended in `outcome`.
pub open spec fn came_to<R: RunSsh>(
    runner: R,
    args: Seq<ArgView>,
    outcome: ControlOutcome,
) -> bool {
    exists|given: Vec<Arg>|
        views(given@) == args && #[trigger] call_ensures(R::run, (&runner, given), outcome)
}

/// One run of ssh: its arguments, and how it ended.
pub struct SshRun {
    pub args: Seq<ArgView>,
    pub outcome: ControlOutcome,
}

/// ssh itself, which `R` runs.
pub struct LiveSsh<R: RunSsh> {
    pub commands: RealSsh,
    pub runner: R,
    /// Every control request that was run, in order.
    pub runs: Ghost<Seq<SshRun>>,
    pub record: Ghost<Seq<SshEvent>>,
}

impl<R: RunSsh> LiveSsh<R> {
    /// ssh with its sockets in `run_dir`.
    pub fn new(run_dir: Vec<u8>, runner: R) -> (s: Self)
        ensures
            s.commands.run_dir == run_dir,
            s.runs@.len() == 0,
            s.events().len() == 0,
    {
        LiveSsh {
            commands: RealSsh::new(run_dir),
            runner,
            runs: Ghost(Seq::empty()),
            record: Ghost(Seq::empty()),
        }
    }

    /// Whether `post` is this after one more run, with arguments `args`.
    pub open spec fn ran(&self, post: &Self, args: Seq<ArgView>) -> bool {
        &&& post.commands == self.commands
        &&& post.runner == self.runner
        &&& post.runs@.len() == self.runs@.len() + 1
        &&& post.runs@.drop_last() == self.runs@
        &&& post.runs@.last().args == args
        &&& came_to(self.runner, args, post.runs@.last().outcome)
    }

    /// What the last run went wrong with, if it did.
    pub open spec fn last_error(&self) -> Option<Seq<char>> {
        control_error(self.runs@.last().outcome)
    }

    /// Whether `post` is this after one more run, with arguments `args`, that
    /// came to `reply`.
    pub open spec fn controlled(
        &self,
        post: &Self,
        args: Seq<ArgView>,
        reply: Result<(), String>,
    ) -> bool {
        &&& self.ran(post, args)
        &&& match reply {
            Ok(()) => post.last_error() is None,
            Err(e) => post.last_error() == Some(e@),
        }
    }

    fn control(&mut self, args: Vec<Arg>) -> (reply: Result<(), String>)
        ensures
            old(self).controlled(final(self), views(args@), reply),
            final(self).record == old(self).record,
    {
        let ghost given = args;
        let ghost asked = views(args@);
        let outcome = self.runner.run(args);
        let ghost ended = outcome;
        let reply = control_reply(&outcome);
        let ghost before = self.runs@;
        proof {
            assert(call_ensures(R::run, (&self.runner, given), ended));
            self.runs@ = self.runs@.push(SshRun { args: asked, outcome: ended });
            assert(self.runs@.drop_last() =~= before);
        }
        reply
    }
}

impl<R: RunSsh> SshControl for LiveSsh<R> {
    open spec fn events(&self) -> Seq<SshEvent> {
        self.record@
    }

    /// ssh is run once, with the arguments that the request calls for, and the
    /// answer is what that run came to.
    open spec fn answers(&self, event: SshEvent, post: &Self) -> bool {
        match event {
            SshEvent::Check { host, alive } => self.ran(post, self.commands.check_args(host))
                && alive == post.last_error() is None,
            SshEvent::Forward { host, want, reply } => self.controlled(
                post,
                self.commands.forward_args(host, want),
                reply,
            ),
            SshEvent::Cancel { host, have, reply } => self.controlled(
                post,
                self.commands.cancel_args(host, have),
                reply,
            ),
            SshEvent::Exit { host } => self.ran(post, self.commands.exit_args(host)),
        }
    }

    fn check(&mut self, host: &str) -> (alive: bool) {
        let args = self.commands.check_command(host);
        let reply = self.control(args);
        let alive = reply.is_ok();
        proof {
            self.record@ = self.record@.push(SshEvent::Check { host: host@, alive });
        }
        alive
    }

    fn forward(&mut self, host: &str, f: &DesiredForward) -> (reply: Result<(), String>) {
        let args = self.commands.forward_command(host, f);
        let reply = self.control(args);
        proof {
            self.record@ = self.record@.push(SshEvent::Forward { host: host@, want: *f, reply });
        }
        reply
    }

    fn cancel(&mut self, host: &str, f: &ForwardObs) -> (reply: Result<(), String>) {
        let args = self.commands.cancel_command(host, f);
        let reply = self.control(args);
        proof {
            self.record@ = self.record@.push(SshEvent::Cancel { host: host@, have: *f, reply });
        }
        reply
    }

    fn exit(&mut self, host: &str) {
        let args = self.commands.exit_command(host);
        self.control(args);
        proof {
            self.record@ = self.record@.push(SshEvent::Exit { host: host@ });
        }
    }
}

/// A stand-in for ssh that records its calls and can be told to fail.
pub struct FakeSsh {
    pub calls: Vec<String>,
    pub fail_ports: HashSet<u16>,
    pub connected: bool,
    pub record: Ghost<Seq<SshEvent>>,
}

/// What the stand-in says of a port it was told to refuse.
pub open spec fn bind_error(port: u16) -> Seq<char> {
    "bind [127.0.0.1]:"@ + decimal(port as nat) + ": Address already in use"@
}

/// What the stand-in records of a request. A check leaves no trace.
pub open spec fn call_text(event: SshEvent) -> Option<Seq<char>> {
    match event {
        SshEvent::Check { host, alive } => None,
        SshEvent::Forward { host, want, reply } => Some(
            "forward "@ + spec_text(want.local_port, want.remote_host@, want.remote_port),
        ),
        SshEvent::Cancel { host, have, reply } => Some(
            "cancel "@ + spec_text(have.local_port, have.remote_host@, have.remote_port),
        ),
        SshEvent::Exit { host } => Some("exit"@),
    }
}

impl FakeSsh {
    pub fn new() -> (s: Self)
        ensures
            s.calls@.len() == 0,
            s.fail_ports@ == Set::<u16>::empty(),
            !s.connected,
            s.events().len() == 0,
    {
        FakeSsh {
            calls: Vec::new(),
            fail_ports: HashSet::new(),
            connected: false,
            record: Ghost(Seq::empty()),
        }
    }

    /// What it answers: that it is connected or not as it was told, that it
    /// attaches any port but those to refuse, and that it detaches every one.
    pub open spec fn would_answer(&self, event: SshEvent) -> bool {
        match event {
            SshEvent::Check { host, alive } => alive == self.connected,
            SshEvent::Forward { host, want, reply } => match reply {
                Ok(()) => !self.fail_ports@.contains(want.local_port),
                Err(e) => self.fail_ports@.contains(want.local_port) && e@ == bind_error(
                    want.local_port,
                ),
            },
            SshEvent::Cancel { host, have, reply } => reply is Ok,
            SshEvent::Exit { host } => true,
        }
    }

    /// One more call was recorded, and nothing else changed but the record.
    pub open spec fn called(&self, post: &Self, call: Seq<char>) -> bool {
        &&& post.calls@.len() == self.calls@.len() + 1
        &&& post.calls@.drop_last() == self.calls@
        &&& post.calls@.last()@ == call
        &&& post.fail_ports == self.fail_ports
        &&& post.connected == self.connected
    }
}

impl SshControl for FakeSsh {
    open spec fn events(&self) -> Seq<SshEvent> {
        self.record@
    }

    /// It answers by what it was told, and records what it was asked to do.
    open spec fn answers(&self, event: SshEvent, post: &Self) -> bool {
        &&& self.would_answer(event)
        &&& match call_text(event) {
            Some(call) => self.called(post, call),
            None => post.calls == self.calls && post.fail_ports == self.fail_ports
                && post.connected == self.connected,
        }
    }

    fn check(&mut self, host: &str) -> (alive: bool) {
        let alive = self.connected;
        proof {
            self.record@ = self.record@.push(SshEvent::Check { host: host@, alive });
        }
        alive
    }

    fn forward(&mut self, host: &str, f: &DesiredForward) -> (reply: Result<(), String>) {
        broadcast use vstd::std_specs::hash::group_hash_axioms;

        let spec = forward_spec(f.local_port, f.remote_host.as_str(), f.remote_port);
        let ghost before = self.calls@;
        self.calls.push(concat2("forward ", spec.as_str()));
        assert(self.calls@.drop_last() =~= before);
        let reply = if self.fail_ports.contains(&f.local_port) {
            let port = dec(f.local_port as u64);
            Err(concat3("bind [127.0.0.1]:", port.as_str(), ": Address already in use"))
        } else {
            Ok(())
        };
        proof {
            self.record@ = self.record@.push(SshEvent::Forward { host: host@, want: *f, reply });
        }
        reply
    }

    fn cancel(&mut self, host: &str, f: &ForwardObs) -> (reply: Result<(), String>) {
        let spec = forward_spec(f.local_port, f.remote_host.as_str(), f.remote_port);
        let ghost before = self.calls@;
        self.calls.push(concat2("cancel ", spec.as_str()));
        assert(self.calls@.drop_last() =~= before);
        let reply: Result<(), String> = Ok(());
        proof {
            self.record@ = self.record@.push(SshEvent::Cancel { host: host@, have: *f, reply });
        }
        reply
    }

    fn exit(&mut self, host: &str) {
        let ghost before = self.calls@;
        self.calls.push("exit".to_owned());
        assert(self.calls@.drop_last() =~= before);
        proof {
            self.record@ = self.record@.push(SshEvent::Exit { host: host@ });
        }
    }
}

/// What the stand-in records of `events`, in order.
pub open spec fn call_texts(events: Seq<SshEvent>) -> Seq<Seq<char>>
    decreases events.len(),
{
    if events.len() == 0 {
        seq![]
    } else {
        let before = call_texts(events.drop_last());
        match call_text(events.last()) {
            Some(call) => before.push(call),
            None => before,
        }
    }
}

/// The stand-in keeps to what it was told however often it is asked: each
/// answer follows from the ports to refuse and from whether it is connected,
/// and every request but a check is on its list of calls, in order.
pub proof fn law_the_stand_in_keeps_to_its_word(pre: FakeSsh, events: Seq<SshEvent>, post: FakeSsh)
    requires
        answered(pre, events, post),
    ensures
        post.fail_ports == pre.fail_ports,
        post.connected == pre.connected,
        forall|i: int| 0 <= i < events.len() ==> pre.would_answer(#[trigger] events[i]),
        views(post.calls@) == views(pre.calls@) + call_texts(events),
    decreases events.len(),
{
    if events.len() == 0 {
        assert(views(post.calls@) =~= views(pre.calls@) + call_texts(events));
    } else {
        let rest = events.drop_last();
        let mid = choose|mid: FakeSsh|
            answered(pre, rest, mid) && #[trigger] mid.answers(events.last(), &post);
        law_the_stand_in_keeps_to_its_word(pre, rest, mid);
        assert forall|i: int| 0 <= i < events.len() implies pre.would_answer(
            #[trigger] events[i],
        ) by {
            if i < rest.len() {
                assert(rest[i] == events[i]);
            }
        }
        match call_text(events.last()) {
            Some(call) => {
                assert(post.calls@ =~= mid.calls@.push(post.calls@.last()));
                assert(views(post.calls@) =~= views(mid.calls@).push(call));
            },
            None => {},
        }
        assert(views(post.calls@) =~= views(pre.calls@) + call_texts(events));
    }
}

/// A master carries no forward of its own: `-L` is among its arguments only
/// where the host or the socket itself reads so. And it never asks ssh to exit
/// over a forward that failed.
pub proof fn law_the_master_carries_no_forwards(socket: Seq<char>, host: Seq<char>, i: int)
    requires
        0 <= i < master_args(socket, host).len(),
    ensures
        master_args(socket, host)[i] is Word,
        master_args(socket, host)[i]->Word_0 == "-L"@ ==> i == 2 || i == 10,
        "ExitOnForwardFailure"@.is_prefix_of(master_args(socket, host)[i]->Word_0) ==> i == 2 || i
            == 10,
        master_args(socket, host)[2] == ArgView::Word(socket),
        master_args(socket, host)[10] == ArgView::Word(host),
{
    reveal_strlit("-M");
    reveal_strlit("-S");
    reveal_strlit("-N");
    reveal_strlit("-o");
    reveal_strlit("-L");
    reveal_strlit("ServerAliveInterval=30");
    reveal_strlit("ServerAliveCountMax=3");
    reveal_strlit("ConnectTimeout=10");
    reveal_strlit("ExitOnForwardFailure");
    let w = master_args(socket, host)[i]->Word_0;
    if i != 2 && i != 10 {
        if w == "-L"@ {
            assert(w[1] == 'L');
        }
        if "ExitOnForwardFailure"@.is_prefix_of(w) {
            assert(w.len() >= 20);
            assert(w.subrange(0, 20)[0] == 'E');
        }
    }
}

/// A request succeeds exactly when ssh ran and exited with success. Otherwise
/// the answer is what ssh said, without the white space around it; its exit
/// status where it said nothing; or why it could not be run.
pub proof fn law_a_reply_tells_what_ssh_said(outcome: ControlOutcome, r: Result<(), String>)
    requires
        call_ensures(control_reply, (&outcome,), r),
    ensures
        r is Ok <==> outcome is Ran && outcome->Ran_0,
        outcome is NotRun ==> r is Err && r->Err_0@ == "failed to run ssh: "@
            + outcome->NotRun_0@,
        outcome is Ran && !outcome->Ran_0 && trimmed(outcome->Ran_2@).len() > 0 ==> r is Err
            && r->Err_0@ == trimmed(outcome->Ran_2@),
        outcome is Ran && !outcome->Ran_0 && trimmed(outcome->Ran_2@).len() == 0 ==> r is Err
            && r->Err_0@ == "ssh exited with "@ + outcome->Ran_1@,
{
}

/// A forward is written as its local port, its remote host and its remote port,
/// with colons between them.
pub proof fn law_how_a_forward_is_written(local: u16, host: &str, remote: u16, out: String)
    requires
        call_ensures(forward_spec, (local, host, remote), out),
    ensures
        out@ == decimal(local as nat) + ":"@ + host@ + ":"@ + decimal(remote as nat),
{
}

/// Every control request names the host's socket first and the host last, and
/// in between what is asked: whether the master is there, that it exit, or that
/// it attach or detach one forward by its ports and remote host.
pub proof fn law_requests_name_the_socket_and_the_host(
    ssh: RealSsh,
    host: &str,
    want: DesiredForward,
    have: ForwardObs,
    check: Vec<Arg>,
    exit: Vec<Arg>,
    forward: Vec<Arg>,
    cancel: Vec<Arg>,
)
    requires
        call_ensures(RealSsh::check_command, (&ssh, host), check),
        call_ensures(RealSsh::exit_command, (&ssh, host), exit),
        call_ensures(RealSsh::forward_command, (&ssh, host, &want), forward),
        call_ensures(RealSsh::cancel_command, (&ssh, host, &have), cancel),
    ensures
        ({
            let socket = ArgView::File(
                joined(ssh.run_dir@, host_key(host@) + ".sock"@),
            );
            let s = ArgView::Word("-S"@);
            let o = ArgView::Word("-O"@);
            let l = ArgView::Word("-L"@);
            let h = ArgView::Word(host@);
            let wanted = decimal(want.local_port as nat) + ":"@ + want.remote_host@ + ":"@
                + decimal(want.remote_port as nat);
            let had = decimal(have.local_port as nat) + ":"@ + have.remote_host@ + ":"@ + decimal(
                have.remote_port as nat,
            );
            &&& views(check@) == seq![s, socket, o, ArgView::Word("check"@), h]
            &&& views(exit@) == seq![s, socket, o, ArgView::Word("exit"@), h]
            &&& views(forward@) == seq![
                s,
                socket,
                o,
                ArgView::Word("forward"@),
                l,
                ArgView::Word(wanted),
                h,
            ]
            &&& views(cancel@) == seq![s, socket, o, ArgView::Word("cancel"@), l, ArgView::Word(
                had,
            ), h]
        }),
{
    let socket = ArgView::File(joined(ssh.run_dir@, host_key(host@) + ".sock"@));
    let s = ArgView::Word("-S"@);
    let o = ArgView::Word("-O"@);
    let l = ArgView::Word("-L"@);
    let h = ArgView::Word(host@);
    let wanted = decimal(want.local_port as nat) + ":"@ + want.remote_host@ + ":"@ + decimal(
        want.remote_port as nat,
    );
    let had = decimal(have.local_port as nat) + ":"@ + have.remote_host@ + ":"@ + decimal(
        have.remote_port as nat,
    );
    assert(views(check@) =~= seq![s, socket, o, ArgView::Word("check"@), h]);
    assert(views(exit@) =~= seq![s, socket, o, ArgView::Word("exit"@), h]);
    assert(views(forward@) =~= seq![
        s,
        socket,
        o,
        ArgView::Word("forward"@),
        l,
        ArgView::Word(wanted),
        h,
    ]);
    assert(views(cancel@) =~= seq![s, socket, o, ArgView::Word("cancel"@), l, ArgView::Word(
        had,
    ), h]);
}

/// The master multiplexes on the socket that the requests go to, runs no
/// command, notices a dead connection, and gives up connecting in time.
pub proof fn law_how_a_master_is_started(ssh: RealSsh, host: &str, args: Vec<Arg>)
    requires
        call_ensures(RealSsh::master_command, (&ssh, host), args),
    ensures
        views(args@).len() == 11,
        views(args@)[0] == ArgView::Word("-M"@),
        views(args@)[1] == ArgView::Word("-S"@),
        views(args@)[2] is Word,
        valid_utf8(joined(ssh.run_dir@, host_key(host@) + ".sock"@)) ==> encode_utf8(
            views(args@)[2]->Word_0,
        ) == joined(ssh.run_dir@, host_key(host@) + ".sock"@),
        views(args@)[3] == ArgView::Word("-N"@),
        views(args@)[4] == ArgView::Word("-o"@) && views(args@)[5] == ArgView::Word(
            "ServerAliveInterval=30"@,
        ),
        views(args@)[6] == ArgView::Word("-o"@) && views(args@)[7] == ArgView::Word(
            "ServerAliveCountMax=3"@,
        ),
        views(args@)[8] == ArgView::Word("-o"@) && views(args@)[9] == ArgView::Word(
            "ConnectTimeout=10"@,
        ),
        views(args@)[10] == ArgView::Word(host@),
{
}

/// Each request to the live ssh is one run of it, with the arguments for that
/// request, and its answer is what that run came to.
pub proof fn law_each_request_is_one_run<R: RunSsh>(
    pre: LiveSsh<R>,
    event: SshEvent,
    post: LiveSsh<R>,
)
    requires
        pre.answers(event, &post),
    ensures
        post.runs@.len() == pre.runs@.len() + 1,
        post.commands == pre.commands,
        ({
            let run = post.runs@.last();
            let socket = |host: Seq<char>|
                ArgView::File(joined(pre.commands.run_dir@, host_key(host) + ".sock"@));
            let ok = run.outcome is Ran && run.outcome->Ran_0;
            &&& came_to(pre.runner, run.args, run.outcome)
            &&& run.args[0] == ArgView::Word("-S"@)
            &&& match event {
                SshEvent::Check { host, alive } => alive == ok && run.args[1] == socket(host)
                    && run.args[3] == ArgView::Word("check"@) && run.args.last()
                    == ArgView::Word(host),
                SshEvent::Forward { host, want, reply } => reply is Ok == ok && run.args[1]
                    == socket(host) && run.args[3] == ArgView::Word("forward"@)
                    && run.args.last() == ArgView::Word(host),
                SshEvent::Cancel { host, have, reply } => reply is Ok == ok && run.args[1]
                    == socket(host) && run.args[3] == ArgView::Word("cancel"@)
                    && run.args.last() == ArgView::Word(host),
                SshEvent::Exit { host } => run.args[1] == socket(host) && run.args[3]
                    == ArgView::Word("exit"@) && run.args.last() == ArgView::Word(host),
            }
        }),
{
}

/// What the stand-in is asked to do leaves a call that says so, and what it
/// answers follows from what it was told: it refuses the ports that it was told
/// to refuse, and no others, and is there as long as it was told to be.
pub proof fn law_how_the_stand_in_answers(ssh: FakeSsh, event: SshEvent, post: FakeSsh)
    requires
        ssh.answers(event, &post),
    ensures
        post.fail_ports == ssh.fail_ports && post.connected == ssh.connected,
        match event {
            SshEvent::Check { host, alive } => alive == ssh.connected && post.calls == ssh.calls,
            SshEvent::Forward { host, want, reply } => {
                &&& reply is Err <==> ssh.fail_ports@.contains(want.local_port)
                &&& reply is Err ==> reply->Err_0@ == "bind [127.0.0.1]:"@ + decimal(
                    want.local_port as nat,
                ) + ": Address already in use"@
                &&& post.calls@.len() == ssh.calls@.len() + 1
                &&& post.calls@.last()@ == "forward "@ + (decimal(want.local_port as nat) + ":"@
                    + want.remote_host@ + ":"@ + decimal(want.remote_port as nat))
            },
            SshEvent::Cancel { host, have, reply } => {
                &&& reply is Ok
                &&& post.calls@.len() == ssh.calls@.len() + 1
                &&& post.calls@.last()@ == "cancel "@ + (decimal(have.local_port as nat) + ":"@
                    + have.remote_host@ + ":"@ + decimal(have.remote_port as nat))
            },
            SshEvent::Exit { host } => post.calls@.len() == ssh.calls@.len() + 1
                && post.calls@.last()@ == "exit"@,
        },
{
}

}
