//! Hosts named in ssh's configuration files.

use crate::hosts::HostSet;
use crate::names::{distinct_names, has_name, Named};
use crate::order::{
    lemma_lex_total, lemma_sort_keeps_distinct, lemma_sort_keeps_elements, lemma_text_key_injective, lex_le,
    sort_stably, sorted, stably_sorted, str_before, text_key, text_lt, Keyed,
};
use crate::text::{
    chars_of, has_char, lines, split_lines, split_words, starts_with, string_of, trim, trimmed,
    views, words,
};
use vstd::prelude::*;
use vstd::string::*;

verus! {

impl Keyed for String {
    open spec fn key(&self) -> Seq<int> {
        text_key(self@)
    }

    fn before(&self, other: &Self) -> (r: bool) {
        str_before(self.as_str(), other.as_str())
    }
}

/// Whether an alias is a pattern rather than a host.
pub open spec fn is_pattern(alias: Seq<char>) -> bool {
    alias.contains('*') || alias.contains('?') || alias.contains('!')
}

/// Whether a line, without the space around it, is a `Host` directive. Case does
/// not matter.
pub open spec fn is_host_line(line: Seq<char>) -> bool {
    &&& line.len() >= 5
    &&& (line[0] == 'h' || line[0] == 'H')
    &&& (line[1] == 'o' || line[1] == 'O')
    &&& (line[2] == 's' || line[2] == 'S')
    &&& (line[3] == 't' || line[3] == 'T')
    &&& line[4] == ' '
}

/// The aliases that a line declares, patterns among them.
pub open spec fn aliases(line: Seq<char>) -> Seq<Seq<char>> {
    let body = trimmed(line);
    if is_host_line(body) {
        words(body.skip(5))
    } else {
        seq![]
    }
}

/// Whether a configuration file declares `host`.
pub open spec fn declares(content: Seq<char>, host: Seq<char>) -> bool {
    !is_pattern(host) && exists|i: int|
        0 <= i < lines(content).len() && aliases(#[trigger] lines(content)[i]).contains(host)
}

/// Whether the first lines of a file declare `host`.
pub open spec fn declared_above(content: Seq<char>, n: int, host: Seq<char>) -> bool {
    !is_pattern(host) && exists|i: int|
        0 <= i < n && aliases(#[trigger] lines(content)[i]).contains(host)
}

fn host_line(body: &str) -> (r: Option<String>)
    ensures
        match r {
            Some(rest) => is_host_line(body@) && rest@ == body@.skip(5),
            None => !is_host_line(body@),
        },
{
    let c = chars_of(body);
    if c.len() < 5 {
        return None;
    }
    if (c[0] == 'h' || c[0] == 'H') && (c[1] == 'o' || c[1] == 'O') && (c[2] == 's' || c[2] == 'S')
        && (c[3] == 't' || c[3] == 'T') && c[4] == ' ' {
        let rest = string_of(&c, 5, c.len());
        assert(rest@ =~= body@.skip(5));
        Some(rest)
    } else {
        None
    }
}

fn add_aliases(line: &str, hosts: &mut HostSet)
    ensures
        forall|h: Seq<char>| #[trigger]
            final(hosts)@.contains(h) == (old(hosts)@.contains(h) || (!is_pattern(h) && aliases(
                line@,
            ).contains(h))),
        old(hosts).well_formed() ==> final(hosts).well_formed(),
{
    let body = trim(line);
    match host_line(body.as_str()) {
        None => {},
        Some(rest) => {
            let found = split_words(rest.as_str());
            let ghost all = views(found@);
            assert(all == aliases(line@));
            let mut i: usize = 0;
            while i < found.len()
                invariant
                    i <= found@.len(),
                    all == views(found@),
                    forall|h: Seq<char>| #[trigger]
                        hosts@.contains(h) == (old(hosts)@.contains(h) || (!is_pattern(h)
                            && all.take(i as int).contains(h))),
                    old(hosts).well_formed() ==> hosts.well_formed(),
                decreases found@.len() - i,
            {
                let alias = found[i].as_str();
                let ghost before = hosts@;
                if !(has_char(alias, '*') || has_char(alias, '?') || has_char(alias, '!')) {
                    hosts.insert(found[i].clone());
                }
                proof {
                    assert(all.take(i + 1) =~= all.take(i as int).push(all[i as int]));
                    assert forall|h: Seq<char>| #[trigger]
                        hosts@.contains(h) == (old(hosts)@.contains(h) || (!is_pattern(h)
                            && all.take(i + 1).contains(h))) by {
                        lemma_push_contains(all.take(i as int), all[i as int], h);
                    }
                }
                i += 1;
            }
            assert(all.take(i as int) =~= all);
        },
    }
}

proof fn lemma_push_contains(s: Seq<Seq<char>>, x: Seq<char>, h: Seq<char>)
    ensures
        s.push(x).contains(h) == (s.contains(h) || h == x),
{
    if s.contains(h) {
        let i = choose|i: int| 0 <= i < s.len() && s[i] == h;
        assert(s.push(x)[i] == h);
    }
    if h == x {
        assert(s.push(x)[s.len() as int] == h);
    }
    if s.push(x).contains(h) {
        let i = choose|i: int| 0 <= i < s.push(x).len() && s.push(x)[i] == h;
        if i < s.len() {
            assert(s[i] == h);
        }
    }
}

/// Add the hosts that a configuration file declares. Comments declare none.
pub fn add_hosts(content: &str, hosts: &mut HostSet)
    ensures
        forall|h: Seq<char>| #[trigger]
            final(hosts)@.contains(h) == (old(hosts)@.contains(h) || declares(content@, h)),
        old(hosts).well_formed() ==> final(hosts).well_formed(),
{
    let all = split_lines(content);
    let mut i: usize = 0;
    while i < all.len()
        invariant
            i <= all@.len(),
            views(all@) == lines(content@),
            forall|h: Seq<char>| #[trigger]
                hosts@.contains(h) == (old(hosts)@.contains(h) || declared_above(
                    content@,
                    i as int,
                    h,
                )),
            old(hosts).well_formed() ==> hosts.well_formed(),
        decreases all@.len() - i,
    {
        let ghost before = hosts@;
        add_aliases(all[i].as_str(), hosts);
        proof {
            assert(views(all@)[i as int] == all@[i as int]@);
            assert forall|h: Seq<char>| #[trigger]
                hosts@.contains(h) == (old(hosts)@.contains(h) || declared_above(
                    content@,
                    i + 1,
                    h,
                )) by {
                assert(declared_above(content@, i + 1, h) == (declared_above(
                    content@,
                    i as int,
                    h,
                ) || (!is_pattern(h) && aliases(lines(content@)[i as int]).contains(h))));
                assert(before.contains(h) == (old(hosts)@.contains(h) || declared_above(
                    content@,
                    i as int,
                    h,
                )));
            }
        }
        i += 1;
    }
    proof {
        assert forall|h: Seq<char>| #[trigger]
            hosts@.contains(h) == (old(hosts)@.contains(h) || declares(content@, h)) by {
            assert(declared_above(content@, i as int, h) == declares(content@, h));
        }
    }
}

/// Whether a file that may be missing declares `host`.
pub open spec fn file_declares(content: Option<String>, host: Seq<char>) -> bool {
    match content {
        Some(c) => declares(c@, host),
        None => false,
    }
}

/// All hosts that the user's and the system's ssh configuration declare, in
/// order and each once. A file that cannot be read declares none.
pub fn parse_ssh_hosts(user: &Option<String>, system: &Option<String>) -> (out: Vec<String>)
    ensures
        sorted(out@),
        distinct_names(out@),
        forall|h: Seq<char>| #[trigger]
            has_name(out@, h) == (file_declares(*user, h) || file_declares(*system, h)),
{
    let mut hosts = HostSet::new();
    match user {
        Some(c) => add_hosts(c.as_str(), &mut hosts),
        None => {},
    }
    match system {
        Some(c) => add_hosts(c.as_str(), &mut hosts),
        None => {},
    }
    let mut out = hosts.hosts;
    let ghost list = out@;
    proof {
        assert forall|h: Seq<char>| #[trigger]
            has_name(list, h) == (file_declares(*user, h) || file_declares(*system, h)) by {
            assert(hosts@.contains(h) == has_name(list, h));
        }
    }
    sort_stably(&mut out);
    proof {
        lemma_sorted_set(list, out@);
    }
    out
}

/// Sorting a list of distinct texts keeps them distinct, and all of them.
pub proof fn lemma_sorted_set(list: Seq<String>, out: Seq<String>)
    requires
        distinct_names(list),
        stably_sorted(list, out),
    ensures
        sorted(out),
        distinct_names(out),
        forall|h: Seq<char>| #[trigger] has_name(out, h) == has_name(list, h),
{
    assert forall|i: int, j: int| 0 <= i < j < list.len() implies #[trigger] list[i].key()
        != #[trigger] list[j].key() by {
        assert(list[i].named() != list[j].named());
        if list[i].key() == list[j].key() {
            lemma_text_key_injective(list[i]@, list[j]@);
        }
    }
    lemma_sort_keeps_distinct(list, out);
    assert forall|i: int, j: int| 0 <= i < j < out.len() implies #[trigger] out[i].named()
        != #[trigger] out[j].named() by {
        assert(out[i].key() != out[j].key());
    }
    assert forall|h: Seq<char>| #[trigger] has_name(out, h) == has_name(list, h) by {
        if has_name(out, h) {
            let i = choose|i: int| 0 <= i < out.len() && #[trigger] out[i].named() == h;
            lemma_sort_keeps_elements(list, out, out[i]);
            assert(out.contains(out[i]));
            let j = choose|j: int| 0 <= j < list.len() && list[j] == out[i];
            assert(list[j].named() == h);
        }
        if has_name(list, h) {
            let i = choose|i: int| 0 <= i < list.len() && #[trigger] list[i].named() == h;
            lemma_sort_keeps_elements(list, out, list[i]);
            assert(list.contains(list[i]));
            let j = choose|j: int| 0 <= j < out.len() && out[j] == list[i];
            assert(out[j].named() == h);
        }
    }
}

/// Picks what starts with `prefix`.
pub open spec fn starting_with(prefix: Seq<char>) -> spec_fn(String) -> bool {
    |s: String| prefix.is_prefix_of(s@)
}

/// Filter hosts by a prefix for autocomplete. An empty prefix keeps them all.
pub fn hosts_matching(all: &[String], prefix: &str) -> (out: Vec<String>)
    ensures
        out@ == all@.filter(starting_with(prefix@)),
{
    let ghost keep = starting_with(prefix@);
    let mut out: Vec<String> = Vec::new();
    let mut i: usize = 0;
    proof {
        assert(all@.take(0) =~= seq![]);
        reveal(Seq::filter);
    }
    while i < all.len()
        invariant
            i <= all@.len(),
            keep == starting_with(prefix@),
            out@ == all@.take(i as int).filter(keep),
        decreases all@.len() - i,
    {
        proof {
            assert(all@.take(i + 1) =~= all@.take(i as int).push(all@[i as int]));
            all@.take(i as int).lemma_filter_push(all@[i as int], keep);
        }
        if starts_with(all[i].as_str(), prefix) {
            out.push(all[i].clone());
        }
        i += 1;
    }
    assert(all@.take(i as int) =~= all@);
    out
}

/// Every alias of a `Host` line that is no pattern is listed: no character of it
/// is an asterisk, a question mark or an exclamation mark.
pub proof fn law_every_alias_is_listed(
    user: Option<String>,
    system: Option<String>,
    out: Vec<String>,
    file: String,
    i: int,
    host: Seq<char>,
)
    requires
        call_ensures(parse_ssh_hosts, (&user, &system), out),
        user == Some(file) || system == Some(file),
        0 <= i < lines(file@).len(),
        "Host "@.is_prefix_of(trimmed(lines(file@)[i])),
        words(trimmed(lines(file@)[i]).skip(5)).contains(host),
        forall|k: int|
            0 <= k < host.len() ==> #[trigger] host[k] != '*' && host[k] != '?' && host[k] != '!',
    ensures
        exists|k: int| 0 <= k < out@.len() && #[trigger] out@[k]@ == host,
{
    reveal_strlit("Host ");
    let body = trimmed(lines(file@)[i]);
    assert forall|k: int| 0 <= k < 5 implies body[k] == "Host "@[k] by {
        assert(body.subrange(0, 5)[k] == body[k]);
    }
    assert(is_host_line(body));
    assert(aliases(lines(file@)[i]).contains(host));
    assert(declares(file@, host));
    assert(has_name(out@, host));
    let k = choose|k: int| 0 <= k < out@.len() && #[trigger] out@[k].named() == host;
    assert(out@[k]@ == host);
}

/// The letters of the word `Host` may be of either case.
pub open spec fn reads_host(body: Seq<char>) -> bool {
    &&& body.len() >= 5
    &&& body[0] == 'H' || body[0] == 'h'
    &&& body[1] == 'O' || body[1] == 'o'
    &&& body[2] == 'S' || body[2] == 's'
    &&& body[3] == 'T' || body[3] == 't'
    &&& body[4] == ' '
}

/// Nothing is listed but what some `Host` line names, in whatever case: no
/// pattern, nothing twice, and in order.
pub proof fn law_only_aliases_are_listed(
    user: Option<String>,
    system: Option<String>,
    out: Vec<String>,
    a: int,
    b: int,
)
    requires
        call_ensures(parse_ssh_hosts, (&user, &system), out),
        0 <= a < out@.len(),
    ensures
        forall|k: int|
            0 <= k < out@[a]@.len() ==> #[trigger] out@[a]@[k] != '*' && out@[a]@[k] != '?'
                && out@[a]@[k] != '!',
        exists|file: String, i: int|
            (user == Some(file) || system == Some(file)) && 0 <= i < lines(file@).len()
                && reads_host(trimmed(#[trigger] lines(file@)[i])) && words(
                trimmed(lines(file@)[i]).skip(5),
            ).contains(out@[a]@),
        a < b < out@.len() ==> text_lt(out@[a]@, out@[b]@),
{
    let h = out@[a]@;
    assert(out@[a].named() == h);
    assert(has_name(out@, h));
    let file = if file_declares(user, h) {
        user->0
    } else {
        system->0
    };
    assert(declares(file@, h));
    assert forall|k: int| 0 <= k < h.len() implies #[trigger] h[k] != '*' && h[k] != '?' && h[k]
        != '!' by {
        assert(h.contains(h[k]));
    }
    let i = choose|i: int|
        0 <= i < lines(file@).len() && aliases(#[trigger] lines(file@)[i]).contains(h);
    assert(reads_host(trimmed(lines(file@)[i])));
    if a < b < out@.len() {
        assert(lex_le(out@[a].key(), out@[b].key()));
        assert(out@[a].named() != out@[b].named());
        if out@[a].key() == out@[b].key() {
            lemma_text_key_injective(out@[a]@, out@[b]@);
        }
        if !text_lt(out@[a]@, out@[b]@) {
            lemma_lex_total(out@[a].key(), out@[b].key());
        }
    }
}

/// Filtering keeps exactly what starts with the prefix, in the order it had.
pub proof fn law_matching_goes_by_the_prefix(
    all: &[String],
    prefix: &str,
    out: Vec<String>,
    i: int,
)
    requires
        call_ensures(hosts_matching, (all, prefix), out),
        0 <= i < all@.len(),
    ensures
        out@.contains(all@[i]) <==> all@[i]@.len() >= prefix@.len() && all@[i]@.take(
            prefix@.len() as int,
        ) == prefix@,
        prefix@.len() == 0 ==> out@ == all@,
{
    let keep = starting_with(prefix@);
    if keep(all@[i]) {
        all@.lemma_filter_contains(keep, i);
    }
    if out@.contains(all@[i]) {
        let k = choose|k: int| 0 <= k < out@.len() && out@[k] == all@[i];
        all@.lemma_filter_pred(keep, k);
    }
    if prefix@.len() == 0 {
        lemma_keeps_all(all@, keep, prefix@);
    }
}

proof fn lemma_keeps_all(s: Seq<String>, keep: spec_fn(String) -> bool, prefix: Seq<char>)
    requires
        keep == starting_with(prefix),
        prefix.len() == 0,
    ensures
        s.filter(keep) == s,
    decreases s.len(),
{
    if s.len() == 0 {
        reveal(Seq::filter);
        assert(s.filter(keep) =~= s);
    } else {
        let rest = s.drop_last();
        lemma_keeps_all(rest, keep, prefix);
        assert(s =~= rest.push(s.last()));
        rest.lemma_filter_push(s.last(), keep);
        assert(s.last()@.subrange(0, 0) =~= prefix);
    }
}

/// A line declares its aliases however `Host` is spelled in upper and lower case,
/// and whatever white space stands around the line.
pub proof fn law_case_does_not_matter(
    user: Option<String>,
    system: Option<String>,
    out: Vec<String>,
    file: String,
    i: int,
    host: Seq<char>,
)
    requires
        call_ensures(parse_ssh_hosts, (&user, &system), out),
        user == Some(file) || system == Some(file),
        0 <= i < lines(file@).len(),
        reads_host(trimmed(lines(file@)[i])),
        words(trimmed(lines(file@)[i]).skip(5)).contains(host),
        forall|k: int|
            0 <= k < host.len() ==> #[trigger] host[k] != '*' && host[k] != '?' && host[k] != '!',
    ensures
        exists|k: int| 0 <= k < out@.len() && #[trigger] out@[k]@ == host,
{
    assert(aliases(lines(file@)[i]).contains(host));
    assert(declares(file@, host));
    assert(has_name(out@, host));
    let k = choose|k: int| 0 <= k < out@.len() && #[trigger] out@[k].named() == host;
    assert(out@[k]@ == host);
}

}
