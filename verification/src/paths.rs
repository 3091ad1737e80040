//! Where `pf` keeps its files.
//!
//! Paths are bytes, since a home directory need not be text. `join` puts a
//! component under a directory the way `std::path::Path::join` does on Unix.

use crate::error::{ErrorView, PfError, Result};
use crate::text::{chars_of, concat2, hex, hexadecimal, string_of};
use vstd::prelude::*;
use vstd::string::*;
use vstd::utf8::*;

verus! {

/// The byte that separates the components of a path.
pub const SEPARATOR: u8 = 0x2f;

/// The start of every path directly under `base`: a separator follows it unless
/// it is empty or ends in one.
pub open spec fn opened(base: Seq<u8>) -> Seq<u8> {
    if base.len() == 0 || base.last() == SEPARATOR {
        base
    } else {
        base.push(SEPARATOR)
    }
}

/// `name` taken relative to `base`: an absolute `name` stands alone.
pub open spec fn joined(base: Seq<u8>, name: Seq<char>) -> Seq<u8> {
    if name.len() > 0 && name[0] == '/' {
        encode_utf8(name)
    } else {
        opened(base) + encode_utf8(name)
    }
}

/// Put bytes at the end of others.
pub fn append(out: &mut Vec<u8>, more: &[u8])
    ensures
        final(out)@ == old(out)@ + more@,
{
    let ghost start = out@;
    let mut i: usize = 0;
    assert(out@ =~= start + more@.take(0));
    while i < more.len()
        invariant
            i <= more@.len(),
            out@ == start + more@.take(i as int),
        decreases more@.len() - i,
    {
        out.push(more[i]);
        i += 1;
        assert(out@ =~= start + more@.take(i as int));
    }
    assert(more@.take(i as int) =~= more@);
}

/// Put a component under a directory.
pub fn join(base: &[u8], name: &str) -> (out: Vec<u8>)
    ensures
        out@ == joined(base@, name@),
{
    let n = chars_of(name);
    let mut out: Vec<u8> = Vec::new();
    if n.len() == 0 || n[0] != '/' {
        append(&mut out, base);
        if base.len() > 0 && base[base.len() - 1] != SEPARATOR {
            out.push(SEPARATOR);
        }
        assert(out@ =~= opened(base@));
    }
    append(&mut out, name.as_bytes());
    assert(out@ =~= joined(base@, name@));
    out
}

/// What `String::from_utf8_lossy` makes of these bytes.
pub uninterp spec fn lossy_text(bytes: Seq<u8>) -> Seq<char>;

/// `String::from_utf8_lossy`: the text that these bytes encode. Bytes that
/// encode none are replaced, and which characters then come out is left to the
/// name.
#[verifier::external_body]
pub(crate) fn lossy(bytes: &[u8]) -> (out: String)
    ensures
        out@ == lossy_text(bytes@),
        valid_utf8(bytes@) ==> encode_utf8(out@) == bytes@,
{
    String::from_utf8_lossy(bytes).into_owned()
}

/// `dirs::home_dir`: the user's home directory, where it is known, as the bytes
/// that the system names it by. It depends on the environment, so nothing is
/// claimed of it.
#[verifier::external_body]
fn home_dir() -> Option<Vec<u8>> {
    dirs::home_dir().map(|p| p.into_os_string().into_encoded_bytes())
}

/// Whether the system gave this for the user's home directory.
pub closed spec fn is_home(home: Option<Vec<u8>>) -> bool {
    call_ensures(home_dir, (), home)
}

/// The directory that holds everything, for a given home directory.
pub fn base_dir_of(home: Option<Vec<u8>>) -> (r: Result<Vec<u8>>)
    ensures
        match (home, r) {
            (Some(h), Ok(p)) => p@ == joined(h@, ".pf"@),
            (None, Err(e)) => e@ == ErrorView::Other("Cannot find home directory"@),
            _ => false,
        },
{
    match home {
        Some(h) => Ok(join(h.as_slice(), ".pf")),
        None => Err(PfError::Other("Cannot find home directory".to_owned())),
    }
}

/// `r` is what comes of appending `rest` to the base directory of the user's
/// home, or the failure for an unknown one.
pub open spec fn under_some_home(r: Result<Vec<u8>>, rest: Seq<Seq<char>>) -> bool {
    match r {
        Ok(p) => exists|home: Vec<u8>| #[trigger]
            is_home(Some(home)) && descend(joined(home@, ".pf"@), rest) == p@,
        Err(e) => is_home(None) && e@ == ErrorView::Other("Cannot find home directory"@),
    }
}

/// The path reached from `base` by the components `rest`.
pub open spec fn descend(base: Seq<u8>, rest: Seq<Seq<char>>) -> Seq<u8>
    decreases rest.len(),
{
    if rest.len() == 0 {
        base
    } else {
        joined(descend(base, rest.drop_last()), rest.last())
    }
}

proof fn lemma_under(
    base: Result<Vec<u8>>,
    r: Result<Vec<u8>>,
    rest: Seq<Seq<char>>,
    name: Seq<char>,
)
    requires
        under_some_home(base, rest),
        appended(base, r, name),
    ensures
        under_some_home(r, rest.push(name)),
{
    assert(rest.push(name).drop_last() =~= rest);
    if base is Ok {
        let p = base->Ok_0@;
        let home = choose|home: Vec<u8>| #[trigger]
            is_home(Some(home)) && descend(joined(home@, ".pf"@), rest) == p;
        assert(descend(joined(home@, ".pf"@), rest.push(name)) == joined(p, name));
    }
}

/// `r` is `base` with one more component, or the same failure.
pub open spec fn appended(base: Result<Vec<u8>>, r: Result<Vec<u8>>, name: Seq<char>) -> bool {
    match (base, r) {
        (Ok(b), Ok(p)) => p@ == joined(b@, name),
        (Err(e), Err(f)) => e == f,
        _ => false,
    }
}

fn under(base: Result<Vec<u8>>, name: &str) -> (r: Result<Vec<u8>>)
    ensures
        appended(base, r, name@),
{
    match base {
        Ok(p) => Ok(join(p.as_slice(), name)),
        Err(e) => Err(e),
    }
}

/// `~/.pf`.
pub fn base_dir() -> (r: Result<Vec<u8>>)
    ensures
        under_some_home(r, seq![]),
{
    let home = home_dir();
    let ghost h = home;
    let r = base_dir_of(home);
    proof {
        assert(is_home(h));
        if h is Some {
            assert(descend(joined(h->0@, ".pf"@), seq![]) == joined(h->0@, ".pf"@));
        }
    }
    r
}

/// `~/.pf/config.toml`.
pub fn config_path() -> (r: Result<Vec<u8>>)
    ensures
        under_some_home(r, seq!["config.toml"@]),
{
    let base = base_dir();
    let ghost b = base;
    let r = under(base, "config.toml");
    proof {
        lemma_under(b, r, seq![], "config.toml"@);
        assert(Seq::<Seq<char>>::empty().push("config.toml"@) =~= seq!["config.toml"@]);
    }
    r
}

/// `~/.pf/run`.
pub fn run_dir() -> (r: Result<Vec<u8>>)
    ensures
        under_some_home(r, seq!["run"@]),
{
    let base = base_dir();
    let ghost b = base;
    let r = under(base, "run");
    proof {
        lemma_under(b, r, seq![], "run"@);
        assert(Seq::<Seq<char>>::empty().push("run"@) =~= seq!["run"@]);
    }
    r
}

/// `~/.pf/logs`.
pub fn log_dir() -> (r: Result<Vec<u8>>)
    ensures
        under_some_home(r, seq!["logs"@]),
{
    let base = base_dir();
    let ghost b = base;
    let r = under(base, "logs");
    proof {
        lemma_under(b, r, seq![], "logs"@);
        assert(Seq::<Seq<char>>::empty().push("logs"@) =~= seq!["logs"@]);
    }
    r
}

/// `~/.pf/logs/<name>.log`.
pub fn log_file(name: &str) -> (r: Result<Vec<u8>>)
    ensures
        under_some_home(r, seq!["logs"@, name@ + ".log"@]),
{
    let file = concat2(name, ".log");
    let base = log_dir();
    let ghost b = base;
    let r = under(base, file.as_str());
    proof {
        lemma_under(b, r, seq!["logs"@], name@ + ".log"@);
        assert(seq!["logs"@].push(name@ + ".log"@) =~= seq!["logs"@, name@ + ".log"@]);
    }
    r
}

/// The log of a host's session; `host` is its key.
pub fn session_log_file(host: &str) -> (r: Result<Vec<u8>>)
    ensures
        under_some_home(r, seq!["logs"@, host@ + ".log"@]),
{
    log_file(host)
}

/// Upper bound on a sanitized host key. Chosen so that
/// `<home>/.pf/run/<key>.desired.json` stays comfortably inside the ~104-byte
/// `sun_path` limit that `ControlPath` inherits on macOS.
pub const MAX_HOST_KEY: usize = 48;

/// One step of FNV-1a: mix in a byte, then multiply by the FNV prime.
pub open spec fn fnv1a_step(hash: u64, byte: u8) -> u64 {
    (hash ^ (byte as u64)).wrapping_mul(0x100_0000_01b3u64)
}

/// FNV-1a, 64-bit, over a run of bytes.
pub open spec fn fnv1a(bytes: Seq<u8>) -> u64
    decreases bytes.len(),
{
    if bytes.len() == 0 {
        0xcbf2_9ce4_8422_2325u64
    } else {
        fnv1a_step(fnv1a(bytes.drop_last()), bytes.last())
    }
}

/// `~/.ssh/config`, for a given home directory.
pub fn ssh_config_of(home: Option<Vec<u8>>) -> (r: Option<Vec<u8>>)
    ensures
        match (home, r) {
            (Some(h), Some(p)) => p@ == joined(joined(h@, ".ssh"@), "config"@),
            (None, None) => true,
            _ => false,
        },
{
    match home {
        Some(h) => Some(join(join(h.as_slice(), ".ssh").as_slice(), "config")),
        None => None,
    }
}

/// `~/.ssh/config`, where the home directory is known.
pub fn user_ssh_config() -> (r: Option<Vec<u8>>)
    ensures
        match r {
            Some(p) => exists|home: Vec<u8>| #[trigger]
                is_home(Some(home)) && p@ == joined(joined(home@, ".ssh"@), "config"@),
            None => is_home(None),
        },
{
    let home = home_dir();
    assert(is_home(home));
    ssh_config_of(home)
}

/// The configuration that all users of ssh share.
pub fn system_ssh_config() -> (out: &'static str)
    ensures
        out@ == "/etc/ssh/ssh_config"@,
{
    "/etc/ssh/ssh_config"
}

/// FNV-1a, 64-bit, as lowercase hex.
///
/// Written out rather than taken from the standard hasher on purpose: that
/// one's output is explicitly not stable across Rust releases, so a truncated
/// host key derived from it would change under the user's feet on a toolchain
/// upgrade and orphan the live control socket it names.
pub fn fnv1a_hex(s: &str) -> (out: String)
    ensures
        out@ == hexadecimal(fnv1a(encode_utf8(s@)) as nat, 16),
        out@.len() == 16,
{
    let bytes = s.as_bytes();
    let mut hash: u64 = 0xcbf2_9ce4_8422_2325;
    let mut i: usize = 0;
    while i < bytes.len()
        invariant
            i <= bytes@.len(),
            hash == fnv1a(bytes@.take(i as int)),
        decreases bytes@.len() - i,
    {
        assert(bytes@.take(i + 1).drop_last() =~= bytes@.take(i as int));
        hash = (hash ^ (bytes[i] as u64)).wrapping_mul(0x100_0000_01b3);
        i += 1;
    }
    assert(bytes@.take(i as int) =~= bytes@);
    hex(hash, 16)
}

/// Characters that a host key may hold.
pub open spec fn is_key_char(c: char) -> bool {
    ||| 'a' <= c <= 'z'
    ||| 'A' <= c <= 'Z'
    ||| '0' <= c <= '9'
    ||| c == '-'
    ||| c == '_'
    ||| c == '.'
}

/// `c` if a key may hold it, an underscore otherwise.
pub open spec fn key_char(c: char) -> char {
    if is_key_char(c) {
        c
    } else {
        '_'
    }
}

/// A host with every character outside the key alphabet replaced.
pub open spec fn safe_chars(host: Seq<char>) -> Seq<char> {
    host.map_values(|c: char| key_char(c))
}

/// The key of a host: its safe characters, and for a host longer than a key
/// may be the first 39 of them, a dash, and eight hash digits of the host.
pub open spec fn host_key(host: Seq<char>) -> Seq<char> {
    let safe = safe_chars(host);
    if safe.len() <= MAX_HOST_KEY {
        safe
    } else {
        safe.take(39).push('-') + hexadecimal(fnv1a(encode_utf8(host)) as nat, 16).take(8)
    }
}

/// Turn an arbitrary SSH host alias into a safe, bounded filename component.
pub fn sanitize_host(host: &str) -> (out: String)
    ensures
        out@ == host_key(host@),
{
    let chars = chars_of(host);
    let mut safe: Vec<char> = Vec::new();
    let mut i: usize = 0;
    while i < chars.len()
        invariant
            i <= chars@.len(),
            chars@ == host@,
            safe@ == safe_chars(host@).take(i as int),
        decreases chars@.len() - i,
    {
        let c = chars[i];
        let keep = ('a' <= c && c <= 'z') || ('A' <= c && c <= 'Z') || ('0' <= c && c <= '9') || c
            == '-' || c == '_' || c == '.';
        safe.push(
            if keep {
                c
            } else {
                '_'
            },
        );
        i += 1;
        assert(safe@ =~= safe_chars(host@).take(i as int));
    }
    assert(safe@ =~= safe_chars(host@));
    if safe.len() <= MAX_HOST_KEY {
        return string_of(&safe, 0, safe.len());
    }
    // Hash the *raw* host so distinct inputs stay distinct even when
    // their sanitized prefixes are identical.

    let digest = chars_of(fnv1a_hex(host).as_str());
    let mut out = string_of(&safe, 0, 39);
    out.push('-');
    out.append(string_of(&digest, 0, 8).as_str());
    out
}

/// The name of a host's file of a given kind.
pub open spec fn file_of(run: Seq<u8>, key: Seq<char>, kind: Seq<char>) -> Seq<u8> {
    joined(run, key + kind)
}

/// What the user asked of a host.
pub fn desired_file_in(run: &[u8], host: &str) -> (out: Vec<u8>)
    ensures
        out@ == file_of(run@, host@, ".desired.json"@),
{
    join(run, concat2(host, ".desired.json").as_str())
}

/// What its watcher saw of a host.
pub fn state_file_in(run: &[u8], host: &str) -> (out: Vec<u8>)
    ensures
        out@ == file_of(run@, host@, ".state.json"@),
{
    join(run, concat2(host, ".state.json").as_str())
}

/// Guards changes to the desired file.
pub fn lock_file_in(run: &[u8], host: &str) -> (out: Vec<u8>)
    ensures
        out@ == file_of(run@, host@, ".lock"@),
{
    join(run, concat2(host, ".lock").as_str())
}

/// The control socket of a host's master.
pub fn socket_file_in(run: &[u8], host: &str) -> (out: Vec<u8>)
    ensures
        out@ == file_of(run@, host@, ".sock"@),
{
    join(run, concat2(host, ".sock").as_str())
}

proof fn lemma_hex_digits_are_key_chars(n: nat, width: nat)
    ensures
        hexadecimal(n, width).len() == width,
        forall|i: int| 0 <= i < width ==> is_key_char(#[trigger] hexadecimal(n, width)[i]),
    decreases width,
{
    if width > 0 {
        lemma_hex_digits_are_key_chars(n / 16, (width - 1) as nat);
    }
}

/// A host key is never longer than the bound, and holds only letters, digits,
/// dashes, underscores and dots: no separator and no NUL.
pub proof fn law_host_keys_are_bounded_and_safe(host: Seq<char>)
    ensures
        host_key(host).len() <= MAX_HOST_KEY,
        forall|i: int| 0 <= i < host_key(host).len() ==> is_key_char(#[trigger] host_key(host)[i]),
        !host_key(host).contains('/'),
        !host_key(host).contains('\0'),
{
    let h = hexadecimal(fnv1a(encode_utf8(host)) as nat, 16);
    lemma_hex_digits_are_key_chars(fnv1a(encode_utf8(host)) as nat, 16);
    assert forall|i: int| 0 <= i < host_key(host).len() implies is_key_char(
        #[trigger] host_key(host)[i],
    ) by {
        if safe_chars(host).len() > MAX_HOST_KEY && i >= 40 {
            assert(host_key(host)[i] == h[i - 40]);
        }
    }
}

/// A host that is already a key is its own key.
pub proof fn law_keys_pass_through_unchanged(key: Seq<char>)
    requires
        key.len() <= MAX_HOST_KEY,
        forall|i: int| 0 <= i < key.len() ==> is_key_char(#[trigger] key[i]),
    ensures
        host_key(key) == key,
{
    assert(safe_chars(key) =~= key);
}

/// Taking the key twice changes nothing.
pub proof fn law_host_key_is_idempotent(host: Seq<char>)
    ensures
        host_key(host_key(host)) == host_key(host),
{
    law_host_keys_are_bounded_and_safe(host);
    law_keys_pass_through_unchanged(host_key(host));
}

/// The separator stands for itself alone: text without it has no such byte.
proof fn lemma_no_separator(s: Seq<char>)
    requires
        !s.contains('/'),
    ensures
        !encode_utf8(s).contains(SEPARATOR),
    decreases s.len(),
{
    if s.len() > 0 {
        let c = s[0];
        let v = c as u32;
        let rest = s.drop_first();
        assert(s.contains(c));
        assert forall|i: int| 0 <= i < rest.len() implies rest[i] != '/' by {
            assert(s.contains(s[i + 1]));
        }
        lemma_no_separator(rest);
        char_is_scalar(c);
        char_u32_cast(c, v);
        assert(v != 0x2f);
        assert(has_width_1_encoding(v) && v != 0x2f ==> leading_byte_width_1(v) != 0x2f)
            by (bit_vector);
        assert(leading_byte_width_2(v) >= 0x80) by (bit_vector);
        assert(leading_byte_width_3(v) >= 0x80) by (bit_vector);
        assert(leading_byte_width_4(v) >= 0x80) by (bit_vector);
        assert(last_continuation_byte(v) >= 0x80) by (bit_vector);
        assert(second_last_continuation_byte(v) >= 0x80) by (bit_vector);
        assert(third_last_continuation_byte(v) >= 0x80) by (bit_vector);
        let one = encode_scalar(v);
        assert(encode_utf8(s) =~= one + encode_utf8(rest));
    }
}

/// No host can escape the run directory, whatever that is: its files stand
/// directly under it, with no separator in the rest of the path.
pub proof fn law_no_host_escapes_the_run_directory(run: Seq<u8>, host: Seq<char>, kind: Seq<char>)
    requires
        !kind.contains('/'),
    ensures
        file_of(run, host_key(host), kind) == opened(run) + encode_utf8(host_key(host) + kind),
        !encode_utf8(host_key(host) + kind).contains(SEPARATOR),
{
    law_host_keys_are_bounded_and_safe(host);
    let name = host_key(host) + kind;
    assert forall|i: int| 0 <= i < name.len() implies name[i] != '/' by {
        if i < host_key(host).len() {
            assert(is_key_char(host_key(host)[i]));
        } else {
            assert(kind.contains(kind[i - host_key(host).len()]));
        }
    }
    lemma_no_separator(name);
}

/// The suffixes of a session's four files.
pub open spec fn file_kinds() -> Seq<Seq<char>> {
    seq![".desired.json"@, ".state.json"@, ".sock"@, ".lock"@]
}

/// Files of different kinds never share a name, whatever hosts they are for.
pub proof fn law_kinds_never_share_a_file(k1: Seq<char>, k2: Seq<char>, i: int, j: int)
    requires
        0 <= i < 4,
        0 <= j < 4,
        i != j,
    ensures
        k1 + file_kinds()[i] != k2 + file_kinds()[j],
{
    reveal_strlit(".desired.json");
    reveal_strlit(".state.json");
    reveal_strlit(".sock");
    reveal_strlit(".lock");
    let a = k1 + file_kinds()[i];
    let b = k2 + file_kinds()[j];
    if a == b {
        let n = a.len();
        // The last character tells `.json` from the other two; the fourth from
        // the end tells `.sock` from `.lock`, and the sixth the two `.json`.
        assert(a[n - 1] == b[n - 1]);
        assert(a[n - 4] == b[n - 4]);
        assert(a[n - 6] == b[n - 6]);
    }
}

/// A control path is never much longer than its directory, however long the
/// host: a socket's path has little room.
pub proof fn law_the_control_path_is_bounded(run: Seq<u8>, host: Seq<char>)
    ensures
        file_of(run, host_key(host), ".sock"@).len() <= run.len() + 1 + MAX_HOST_KEY + 5,
{
    law_host_keys_are_bounded_and_safe(host);
    reveal_strlit(".sock");
    let name = host_key(host) + ".sock"@;
    assert(is_ascii_chars(name));
    is_ascii_chars_encode_utf8(name);
}

/// The key of a host that is short enough is the host itself, with an underscore
/// for every character that is not a letter, a digit, a dash, an underscore or a
/// dot.
pub proof fn law_a_key_reads_like_its_host(host: Seq<char>, i: int)
    requires
        host.len() <= 48,
        0 <= i < host.len(),
    ensures
        host_key(host).len() == host.len(),
        host_key(host)[i] == (if ('a' <= host[i] && host[i] <= 'z') || ('A' <= host[i] && host[i]
            <= 'Z') || ('0' <= host[i] && host[i] <= '9') || host[i] == '-' || host[i] == '_'
            || host[i] == '.' {
            host[i]
        } else {
            '_'
        }),
{
}

/// The key of a longer host starts like the host, and ends in a digest of all of
/// it, so that hosts which start alike still differ.
pub proof fn law_a_long_key_ends_in_a_digest(host: Seq<char>, i: int)
    requires
        host.len() > 48,
    ensures
        host_key(host).len() == 48,
        0 <= i < 39 && is_key_char(host[i]) ==> host_key(host)[i] == host[i],
        host_key(host)[39] == '-',
        0 <= i < 8 ==> host_key(host)[40 + i] == hexadecimal(
            fnv1a(encode_utf8(host)) as nat,
            16,
        )[i],
{
    lemma_hex_digits_are_key_chars(fnv1a(encode_utf8(host)) as nat, 16);
}

/// The digest takes in every byte, in order: it starts from the offset basis,
/// and each byte is mixed in and multiplied by the prime of the hash.
pub proof fn law_the_digest_takes_in_every_byte(bytes: Seq<u8>, byte: u8)
    ensures
        fnv1a(seq![]) == 14695981039346656037u64,
        fnv1a(bytes.push(byte)) == (fnv1a(bytes) ^ (byte as u64)).wrapping_mul(1099511628211u64),
{
    assert(bytes.push(byte).drop_last() =~= bytes);
}

/// A component goes under a directory with one separator between them, unless
/// the directory already ends in one or is empty; an absolute one stands alone.
pub proof fn law_joining_puts_one_separator_between(base: Seq<u8>, name: Seq<char>)
    requires
        name.len() > 0,
    ensures
        name[0] == '/' ==> joined(base, name) == encode_utf8(name),
        name[0] != '/' && base.len() > 0 && base.last() != 47 ==> joined(base, name) == base
            + seq![47u8] + encode_utf8(name),
        name[0] != '/' && (base.len() == 0 || base.last() == 47) ==> joined(base, name) == base
            + encode_utf8(name),
{
    assert(base.push(47u8) =~= base + seq![47u8]);
}

/// Everything lives under `.pf` in the user's home: the configuration, the run
/// directory, and the logs, one for each name.
pub proof fn law_everything_lives_under_the_home(
    config: Result<Vec<u8>>,
    run: Result<Vec<u8>>,
    log: Result<Vec<u8>>,
    name: &str,
)
    requires
        call_ensures(config_path, (), config),
        call_ensures(run_dir, (), run),
        call_ensures(log_file, (name,), log),
    ensures
        config is Ok ==> exists|home: Vec<u8>| #[trigger]
            is_home(Some(home)) && config->Ok_0@ == joined(joined(home@, ".pf"@), "config.toml"@),
        run is Ok ==> exists|home: Vec<u8>| #[trigger]
            is_home(Some(home)) && run->Ok_0@ == joined(joined(home@, ".pf"@), "run"@),
        log is Ok ==> exists|home: Vec<u8>| #[trigger]
            is_home(Some(home)) && log->Ok_0@ == joined(
                joined(joined(home@, ".pf"@), "logs"@),
                name@ + ".log"@,
            ),
{
    reveal_with_fuel(descend, 3);
    assert(seq!["config.toml"@].drop_last() =~= seq![]);
    assert(seq!["run"@].drop_last() =~= seq![]);
    assert(seq!["logs"@, name@ + ".log"@].drop_last() =~= seq!["logs"@]);
    assert(seq!["logs"@].drop_last() =~= seq![]);
    if config is Ok {
        let home = choose|home: Vec<u8>| #[trigger]
            is_home(Some(home)) && descend(joined(home@, ".pf"@), seq!["config.toml"@])
                == config->Ok_0@;
        assert(is_home(Some(home)));
    }
    if run is Ok {
        let home = choose|home: Vec<u8>| #[trigger]
            is_home(Some(home)) && descend(joined(home@, ".pf"@), seq!["run"@]) == run->Ok_0@;
        assert(is_home(Some(home)));
    }
    if log is Ok {
        let home = choose|home: Vec<u8>| #[trigger]
            is_home(Some(home)) && descend(
                joined(home@, ".pf"@),
                seq!["logs"@, name@ + ".log"@],
            ) == log->Ok_0@;
        assert(is_home(Some(home)));
    }
}

/// Where things are, for a home that is known; for one that is not, the failure
/// says so, and there is no configuration of ssh to read.
pub proof fn law_where_things_are(
    home: Option<Vec<u8>>,
    base: Result<Vec<u8>>,
    ssh: Option<Vec<u8>>,
    system: &'static str,
)
    requires
        call_ensures(base_dir_of, (home,), base),
        call_ensures(ssh_config_of, (home,), ssh),
        call_ensures(system_ssh_config, (), system),
    ensures
        home is Some ==> base is Ok && base->Ok_0@ == joined(home->0@, ".pf"@),
        home is None ==> base is Err && base->Err_0@ == ErrorView::Other(
            "Cannot find home directory"@,
        ),
        home is Some ==> ssh is Some && ssh->0@ == joined(
            joined(home->0@, ".ssh"@),
            "config"@,
        ),
        home is None ==> ssh is None,
        system@ == "/etc/ssh/ssh_config"@,
{
}

/// A key's files in a run directory are told apart by their endings.
pub proof fn law_the_files_of_a_key(
    run: &[u8],
    key: &str,
    desired: Vec<u8>,
    state: Vec<u8>,
    lock: Vec<u8>,
    socket: Vec<u8>,
)
    requires
        call_ensures(desired_file_in, (run, key), desired),
        call_ensures(state_file_in, (run, key), state),
        call_ensures(lock_file_in, (run, key), lock),
        call_ensures(socket_file_in, (run, key), socket),
    ensures
        desired@ == joined(run@, key@ + ".desired.json"@),
        state@ == joined(run@, key@ + ".state.json"@),
        lock@ == joined(run@, key@ + ".lock"@),
        socket@ == joined(run@, key@ + ".sock"@),
{
}

/// The key of a host is the same however often it is taken, and long hosts that
/// differ in their digests have different keys.
pub proof fn law_digests_tell_long_hosts_apart(a: Seq<char>, b: Seq<char>)
    requires
        a.len() > 48,
        b.len() > 48,
        hexadecimal(fnv1a(encode_utf8(a)) as nat, 16).take(8) != hexadecimal(
            fnv1a(encode_utf8(b)) as nat,
            16,
        ).take(8),
    ensures
        host_key(a) != host_key(b),
{
    let x = hexadecimal(fnv1a(encode_utf8(a)) as nat, 16).take(8);
    let y = hexadecimal(fnv1a(encode_utf8(b)) as nat, 16).take(8);
    lemma_hex_digits_are_key_chars(fnv1a(encode_utf8(a)) as nat, 16);
    lemma_hex_digits_are_key_chars(fnv1a(encode_utf8(b)) as nat, 16);
    assert(host_key(a).skip(40) =~= x);
    assert(host_key(b).skip(40) =~= y);
}

/// A session's log stands among the logs, and ssh's own configuration in the
/// user's home.
pub proof fn law_where_logs_and_ssh_are(
    name: &str,
    log: Result<Vec<u8>>,
    ssh: Option<Vec<u8>>,
)
    requires
        call_ensures(session_log_file, (name,), log),
        call_ensures(user_ssh_config, (), ssh),
    ensures
        log is Ok ==> exists|home: Vec<u8>| #[trigger]
            is_home(Some(home)) && log->Ok_0@ == joined(
                joined(joined(home@, ".pf"@), "logs"@),
                name@ + ".log"@,
            ),
        log is Err ==> is_home(None),
        ssh is Some ==> exists|home: Vec<u8>| #[trigger]
            is_home(Some(home)) && ssh->0@ == joined(joined(home@, ".ssh"@), "config"@),
        ssh is None ==> is_home(None),
{
    reveal_with_fuel(descend, 3);
    assert(seq!["logs"@, name@ + ".log"@].drop_last() =~= seq!["logs"@]);
    assert(seq!["logs"@].drop_last() =~= seq![]);
    if log is Ok {
        let home = choose|home: Vec<u8>| #[trigger]
            is_home(Some(home)) && descend(
                joined(home@, ".pf"@),
                seq!["logs"@, name@ + ".log"@],
            ) == log->Ok_0@;
        assert(is_home(Some(home)));
    }
}

}
