//! Which files a session owns, and what becomes of them.
//!
//! Every entry point takes a raw ssh host and turns it into a key here. Keeping
//! that at this one boundary means no caller can key a file by the raw host and
//! then fail to find it.

use crate::error::{ErrorView, Result};
use crate::order::{
    lemma_sort_keeps_elements, lex_le, sort_stably, stably_sorted, text_lt, Keyed,
};
use crate::paths::{
    append, desired_file_in, file_kinds, file_of, host_key, joined, law_kinds_never_share_a_file,
    lock_file_in, opened, run_dir, sanitize_host, socket_file_in, state_file_in, under_some_home,
};
use crate::session::types::{DesiredSession, SessionState};
use crate::text::{concat2, dec, decimal, ends_with, views};
use crate::watcher::{default_policy, RetryPolicy};
use vstd::prelude::*;
use vstd::string::*;
use vstd::utf8::*;

verus! {

/// A fresh session with the default retry policy.
pub fn default_session(host: &str) -> (s: DesiredSession)
    ensures
        s.host@ == host@,
        s.auto_reconnect,
        s.retry == default_policy(),
        s.forwards@.len() == 0,
        s.well_formed(),
{
    DesiredSession::new(host.to_owned(), true, RetryPolicy::default())
}

/// The session that an update starts from: what was found on disk, or a fresh
/// one where there was nothing.
pub fn session_or_default(found: Option<DesiredSession>, host: &str) -> (s: DesiredSession)
    ensures
        match found {
            Some(d) => s == d,
            None => s.host@ == host@ && s.auto_reconnect && s.retry == default_policy()
                && s.forwards@.len() == 0,
        },
{
    match found {
        Some(d) => d,
        None => default_session(host),
    }
}

/// The file of one kind that the session of `host` owns.
pub open spec fn session_file(run: Seq<u8>, host: Seq<char>, kind: Seq<char>) -> Seq<u8> {
    file_of(run, host_key(host), kind)
}

/// Where the desired state of `host` is kept.
pub fn desired_path(run: &[u8], host: &str) -> (out: Vec<u8>)
    ensures
        out@ == session_file(run@, host@, ".desired.json"@),
{
    desired_file_in(run, sanitize_host(host).as_str())
}

/// Where the observed state of `host` is kept.
pub fn state_path(run: &[u8], host: &str) -> (out: Vec<u8>)
    ensures
        out@ == session_file(run@, host@, ".state.json"@),
{
    state_file_in(run, sanitize_host(host).as_str())
}

/// The file whose lock guards the desired state of `host`.
pub fn lock_path(run: &[u8], host: &str) -> (out: Vec<u8>)
    ensures
        out@ == session_file(run@, host@, ".lock"@),
{
    lock_file_in(run, sanitize_host(host).as_str())
}

/// The control socket of `host`.
pub fn socket_path(run: &[u8], host: &str) -> (out: Vec<u8>)
    ensures
        out@ == session_file(run@, host@, ".sock"@),
{
    socket_file_in(run, sanitize_host(host).as_str())
}

/// What process `pid` adds to the name of a file while it writes it.
pub open spec fn temp_mark(pid: nat) -> Seq<char> {
    ".tmp"@ + decimal(pid)
}

/// Where process `pid` writes what is to become `path`, so that a reader never
/// observes a half-written file.
pub fn temp_path(path: &[u8], pid: u32) -> (out: Vec<u8>)
    ensures
        out@ == path@ + encode_utf8(temp_mark(pid as nat)),
{
    let mark = concat2(".tmp", dec(pid as u64).as_str());
    let mut out: Vec<u8> = Vec::new();
    append(&mut out, path);
    append(&mut out, mark.as_str().as_bytes());
    assert(out@ =~= path@ + encode_utf8(temp_mark(pid as nat)));
    out
}

/// Whether a file name is that of some session's observed state.
pub fn is_state_file(name: &str) -> (r: bool)
    ensures
        r == ".state.json"@.is_suffix_of(name@),
{
    ends_with(name, ".state.json")
}

/// Whether a file name is that of some session's desired state.
pub fn is_desired_file(name: &str) -> (r: bool)
    ensures
        r == ".desired.json"@.is_suffix_of(name@),
{
    ends_with(name, ".desired.json")
}

/// Every session state that could be read, in the order of their hosts.
pub fn list_states_in(found: Vec<SessionState>) -> (out: Vec<SessionState>)
    ensures
        stably_sorted(found@, out@),
{
    let mut out = found;
    sort_stably(&mut out);
    out
}

/// Everything that a session owns, in the order in which it is deleted.
pub open spec fn session_files(run: Seq<u8>, host: Seq<char>) -> Seq<Seq<u8>> {
    seq![
        session_file(run, host, ".desired.json"@),
        session_file(run, host, ".state.json"@),
        session_file(run, host, ".sock"@),
        session_file(run, host, ".lock"@),
    ]
}

/// What means something only while the watcher lives.
pub open spec fn transient_files(run: Seq<u8>, host: Seq<char>) -> Seq<Seq<u8>> {
    seq![session_file(run, host, ".sock"@), session_file(run, host, ".lock"@)]
}

/// The files to delete so that nothing of the session remains.
pub fn remove_session_in(run: &[u8], host: &str) -> (files: Vec<Vec<u8>>)
    ensures
        views(files@) == session_files(run@, host@),
{
    let mut files: Vec<Vec<u8>> = Vec::new();
    files.push(desired_path(run, host));
    files.push(state_path(run, host));
    files.push(socket_path(run, host));
    files.push(lock_path(run, host));
    assert(views(files@) =~= session_files(run@, host@));
    files
}

/// The files to delete when the watcher of `host` goes: its socket and its lock.
pub fn clear_transient_in(run: &[u8], host: &str) -> (files: Vec<Vec<u8>>)
    ensures
        views(files@) == transient_files(run@, host@),
{
    let mut files: Vec<Vec<u8>> = Vec::new();
    files.push(socket_path(run, host));
    files.push(lock_path(run, host));
    assert(views(files@) =~= transient_files(run@, host@));
    files
}

/// The files to delete so that no observed state of `host` remains.
pub fn remove_state_in(run: &[u8], host: &str) -> (files: Vec<Vec<u8>>)
    ensures
        views(files@) == seq![session_file(run@, host@, ".state.json"@)],
{
    let mut files: Vec<Vec<u8>> = Vec::new();
    files.push(state_path(run, host));
    assert(views(files@) =~= seq![session_file(run@, host@, ".state.json"@)]);
    files
}

/// The files of a session in the real run directory.
pub fn remove_session(host: &str) -> (r: Result<Vec<Vec<u8>>>)
    ensures
        match r {
            Ok(files) => exists|run: Vec<u8>|
                #[trigger] under_some_home(Ok(run), seq!["run"@]) && views(files@)
                    == session_files(run@, host@),
            Err(e) => under_some_home(Err(e), seq!["run"@]),
        },
{
    match run_dir() {
        Ok(run) => {
            let files = remove_session_in(run.as_slice(), host);
            assert(under_some_home(Ok(run), seq!["run"@]));
            Ok(files)
        },
        Err(e) => Err(e),
    }
}

proof fn lemma_decimal_ends_in_a_digit(n: nat)
    ensures
        decimal(n).len() > 0,
        '0' <= decimal(n).last() <= '9',
{
}

/// A file that is still being written is never listed as a session, whatever it
/// is to be called: what is added to its path is added to its name.
pub proof fn law_temporary_files_are_never_listed(name: Seq<char>, pid: nat)
    ensures
        !".state.json"@.is_suffix_of(name + temp_mark(pid)),
        !".desired.json"@.is_suffix_of(name + temp_mark(pid)),
        encode_utf8(name + temp_mark(pid)) == encode_utf8(name) + encode_utf8(temp_mark(pid)),
{
    lemma_decimal_ends_in_a_digit(pid);
    reveal_strlit(".state.json");
    reveal_strlit(".desired.json");
    let t = name + temp_mark(pid);
    assert(t.last() == decimal(pid).last());
    assert(".state.json"@.last() == 'n');
    assert(".desired.json"@.last() == 'n');
    lemma_encode_concat(name, temp_mark(pid));
}

/// Text is encoded piece by piece.
proof fn lemma_encode_concat(a: Seq<char>, b: Seq<char>)
    ensures
        encode_utf8(a + b) == encode_utf8(a) + encode_utf8(b),
    decreases a.len(),
{
    if a.len() == 0 {
        assert(a + b =~= b);
        assert(encode_utf8(a) + encode_utf8(b) =~= encode_utf8(b));
    } else {
        let rest = a.drop_first();
        lemma_encode_concat(rest, b);
        assert((a + b).drop_first() =~= rest + b);
        assert(encode_utf8(a + b) =~= encode_utf8(a) + encode_utf8(b));
    }
}

/// Two hosts share a file only when they share a key, and then only a file of
/// the same kind: every file has one writer.
pub proof fn law_hosts_share_no_files(
    run: Seq<u8>,
    a: Seq<char>,
    b: Seq<char>,
    i: int,
    j: int,
)
    requires
        0 <= i < 4,
        0 <= j < 4,
        session_file(run, a, file_kinds()[i]) == session_file(run, b, file_kinds()[j]),
    ensures
        i == j,
        host_key(a) == host_key(b),
{
    crate::paths::law_host_keys_are_bounded_and_safe(a);
    crate::paths::law_host_keys_are_bounded_and_safe(b);
    reveal_strlit(".desired.json");
    reveal_strlit(".state.json");
    reveal_strlit(".sock");
    reveal_strlit(".lock");
    let x = host_key(a) + file_kinds()[i];
    let y = host_key(b) + file_kinds()[j];
    lemma_join_is_injective(run, x, y);
    if i != j {
        law_kinds_never_share_a_file(host_key(a), host_key(b), i, j);
    } else {
        let n = host_key(a).len() as int;
        assert(x.len() == y.len());
        assert(host_key(a) =~= x.take(n));
        assert(host_key(b) =~= y.take(n));
    }
}

proof fn lemma_join_is_injective(run: Seq<u8>, x: Seq<char>, y: Seq<char>)
    requires
        x.len() > 0,
        y.len() > 0,
        x[0] != '/',
        y[0] != '/',
        joined(run, x) == joined(run, y),
    ensures
        x == y,
{
    let base = opened(run);
    assert(encode_utf8(x) =~= (base + encode_utf8(x)).skip(base.len() as int));
    assert(encode_utf8(y) =~= (base + encode_utf8(y)).skip(base.len() as int));
    encode_utf8_decode_utf8(x);
    encode_utf8_decode_utf8(y);
}

/// Each of a session's files is named after its host's key and what it holds.
pub proof fn law_files_are_named_after_their_host(
    run: &[u8],
    host: &str,
    desired: Vec<u8>,
    state: Vec<u8>,
    lock: Vec<u8>,
    socket: Vec<u8>,
)
    requires
        call_ensures(desired_path, (run, host), desired),
        call_ensures(state_path, (run, host), state),
        call_ensures(lock_path, (run, host), lock),
        call_ensures(socket_path, (run, host), socket),
    ensures
        desired@ == opened(run@) + encode_utf8(host_key(host@) + ".desired.json"@),
        state@ == opened(run@) + encode_utf8(host_key(host@) + ".state.json"@),
        lock@ == opened(run@) + encode_utf8(host_key(host@) + ".lock"@),
        socket@ == opened(run@) + encode_utf8(host_key(host@) + ".sock"@),
{
    crate::paths::law_host_keys_are_bounded_and_safe(host@);
    reveal_strlit(".desired.json");
    reveal_strlit(".state.json");
    reveal_strlit(".lock");
    reveal_strlit(".sock");
    let k = host_key(host@);
    if k.len() > 0 {
        assert(crate::paths::is_key_char(k[0]));
        assert((k + ".desired.json"@)[0] == k[0]);
        assert((k + ".state.json"@)[0] == k[0]);
        assert((k + ".lock"@)[0] == k[0]);
        assert((k + ".sock"@)[0] == k[0]);
    }
}

/// Removing a session removes each of its four files, and only those.
pub proof fn law_removing_a_session_removes_its_files(
    run: &[u8],
    host: &str,
    files: Vec<Vec<u8>>,
    desired: Vec<u8>,
    state: Vec<u8>,
    lock: Vec<u8>,
    socket: Vec<u8>,
)
    requires
        call_ensures(remove_session_in, (run, host), files),
        call_ensures(desired_path, (run, host), desired),
        call_ensures(state_path, (run, host), state),
        call_ensures(lock_path, (run, host), lock),
        call_ensures(socket_path, (run, host), socket),
    ensures
        files@.len() == 4,
        views(files@).contains(desired@),
        views(files@).contains(state@),
        views(files@).contains(lock@),
        views(files@).contains(socket@),
{
    let v = views(files@);
    assert(v.len() == files@.len());
    assert(v[0] == desired@ && v[1] == state@ && v[2] == socket@ && v[3] == lock@);
}

/// A session that starts from nothing asks for nothing, reconnects, and keeps
/// the default pace; one that was found is taken as it is.
pub proof fn law_what_an_update_starts_from(
    found: Option<DesiredSession>,
    host: &str,
    s: DesiredSession,
)
    requires
        call_ensures(session_or_default, (found, host), s),
    ensures
        found is Some ==> s == found->0,
        found is None ==> s.host@ == host@ && s.auto_reconnect && s.forwards@.len() == 0
            && s.retry.max_retries == 0 && s.retry.initial_delay == 5 && s.retry.max_delay == 300,
{
}

/// The names by which files are told apart.
pub proof fn law_files_are_told_by_their_endings(name: &str, state: bool, desired: bool)
    requires
        call_ensures(is_state_file, (name,), state),
        call_ensures(is_desired_file, (name,), desired),
    ensures
        state <==> name@.len() >= 11 && name@.skip(name@.len() - 11) == ".state.json"@,
        desired <==> name@.len() >= 13 && name@.skip(name@.len() - 13) == ".desired.json"@,
        !(state && desired),
{
    reveal_strlit(".state.json");
    reveal_strlit(".desired.json");
    let n = name@.len() as int;
    if n >= 11 {
        assert(name@.subrange(n - 11, n) =~= name@.skip(n - 11));
    }
    if n >= 13 {
        assert(name@.subrange(n - 13, n) =~= name@.skip(n - 13));
    }
    if state && desired {
        assert(name@.skip(n - 11)[5] == name@[n - 6]);
        assert(name@.skip(n - 13)[7] == name@[n - 6]);
        assert(".state.json"@[5] == 'e');
        assert(".desired.json"@[7] == 'd');
    }
}

/// Sessions are listed in the order of their hosts, each that was found and no
/// other.
pub proof fn law_sessions_are_listed_by_host(
    found: Vec<SessionState>,
    out: Vec<SessionState>,
    x: SessionState,
    i: int,
    j: int,
)
    requires
        call_ensures(list_states_in, (found,), out),
    ensures
        found@.contains(x) <==> out@.contains(x),
        0 <= i < j < out@.len() ==> !text_lt(out@[j].host@, out@[i].host@),
{
    lemma_sort_keeps_elements(found@, out@, x);
    if 0 <= i < j < out@.len() {
        assert(lex_le(out@[i].key(), out@[j].key()));
    }
}

/// What goes with a watcher is its socket and its lock; what no longer holds
/// after it is its observed state; and a file that is being written has its
/// writer's number behind its name.
pub proof fn law_what_goes_with_a_watcher(
    run: &[u8],
    host: &str,
    transient: Vec<Vec<u8>>,
    observed: Vec<Vec<u8>>,
    lock: Vec<u8>,
    socket: Vec<u8>,
    state: Vec<u8>,
    path: &[u8],
    pid: u32,
    temp: Vec<u8>,
)
    requires
        call_ensures(clear_transient_in, (run, host), transient),
        call_ensures(remove_state_in, (run, host), observed),
        call_ensures(lock_path, (run, host), lock),
        call_ensures(socket_path, (run, host), socket),
        call_ensures(state_path, (run, host), state),
        call_ensures(temp_path, (path, pid), temp),
    ensures
        views(transient@) == seq![socket@, lock@],
        views(observed@) == seq![state@],
        temp@ == path@ + encode_utf8(".tmp"@ + decimal(pid as nat)),
{
    assert(views(transient@) =~= seq![socket@, lock@]);
    assert(views(observed@) =~= seq![state@]);
}

/// The files of a session in the real run directory are those of the run
/// directory under the user's home.
pub proof fn law_the_real_session_files(host: &str, r: Result<Vec<Vec<u8>>>)
    requires
        call_ensures(remove_session, (host,), r),
    ensures
        r is Ok ==> (r->Ok_0)@.len() == 4 && exists|run: Vec<u8>|
            #[trigger] under_some_home(Ok(run), seq!["run"@]) && views((r->Ok_0)@)
                == session_files(run@, host@),
        r is Err ==> (r->Err_0)@ == ErrorView::Other("Cannot find home directory"@),
{
    if r is Ok {
        assert(views((r->Ok_0)@).len() == (r->Ok_0)@.len());
    }
}

}
