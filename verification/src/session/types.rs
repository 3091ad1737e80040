//! What the user asked for, and what is true.

use crate::names::{
    distinct_names, drop_named, has_name, lemma_lookup_push, lemma_without,
    lemma_without_keeps_distinct, lookup, other_than, without, Named,
};
use crate::order::{
    distinct_keys, has_key, law_stable_sort_is_unique, lemma_sort_keeps_distinct,
    lemma_text_key_injective, lex_le, sort_stably, sorted, stably_sorted, str_before, text_key,
    with_key, Keyed,
};
use crate::text::str_eq;
use crate::time::{clock_read, Timestamp};
use crate::watcher::RetryPolicy;
use vstd::prelude::*;

verus! {

/// What the user asked for. Written only by the CLI and TUI.
#[derive(Debug, PartialEq)]
pub struct DesiredSession {
    pub host: String,
    pub auto_reconnect: bool,
    pub retry: RetryPolicy,
    /// Kept sorted by name so diffs against observed state are stable.
    pub forwards: Vec<DesiredForward>,
}

/// One forward that the user asked for.
#[derive(Debug, PartialEq, Eq)]
pub struct DesiredForward {
    pub name: String,
    pub local_port: u16,
    pub remote_host: String,
    pub remote_port: u16,
}

impl Clone for DesiredForward {
    fn clone(&self) -> (r: Self)
        ensures
            r == *self,
    {
        DesiredForward {
            name: self.name.clone(),
            local_port: self.local_port,
            remote_host: self.remote_host.clone(),
            remote_port: self.remote_port,
        }
    }
}

impl Named for DesiredForward {
    open spec fn named(&self) -> Seq<char> {
        self.name@
    }

    fn is_named(&self, name: &str) -> (r: bool) {
        str_eq(self.name.as_str(), name)
    }
}

impl Keyed for DesiredForward {
    open spec fn key(&self) -> Seq<int> {
        text_key(self.name@)
    }

    fn before(&self, other: &Self) -> (r: bool) {
        str_before(self.name.as_str(), other.name.as_str())
    }
}

impl Clone for DesiredSession {
    fn clone(&self) -> (r: Self)
        ensures
            r.host == self.host,
            r.auto_reconnect == self.auto_reconnect,
            r.retry == self.retry,
            r.forwards@ == self.forwards@,
    {
        let mut forwards: Vec<DesiredForward> = Vec::new();
        let mut i: usize = 0;
        while i < self.forwards.len()
            invariant
                i <= self.forwards@.len(),
                forwards@ == self.forwards@.take(i as int),
            decreases self.forwards@.len() - i,
        {
            forwards.push(self.forwards[i].clone());
            i += 1;
            assert(forwards@ =~= self.forwards@.take(i as int));
        }
        assert(forwards@ =~= self.forwards@);
        DesiredSession {
            host: self.host.clone(),
            auto_reconnect: self.auto_reconnect,
            retry: self.retry,
            forwards,
        }
    }
}

impl DesiredSession {
    /// Forwards stand in order of their names, and no name occurs twice.
    pub open spec fn well_formed(&self) -> bool {
        sorted(self.forwards@) && distinct_names(self.forwards@)
    }

    /// A session that asks for no forwards.
    pub fn new(host: String, auto_reconnect: bool, retry: RetryPolicy) -> (s: Self)
        ensures
            s.host == host,
            s.auto_reconnect == auto_reconnect,
            s.retry == retry,
            s.forwards@.len() == 0,
            s.well_formed(),
    {
        DesiredSession { host, auto_reconnect, retry, forwards: Vec::new() }
    }

    /// Insert or replace by name, keeping `forwards` sorted.
    pub fn upsert(&mut self, f: DesiredForward)
        ensures
            stably_sorted(without(old(self).forwards@, f.name@).push(f), final(self).forwards@),
            final(self).host == old(self).host,
            final(self).auto_reconnect == old(self).auto_reconnect,
            final(self).retry == old(self).retry,
            distinct_names(old(self).forwards@) ==> final(self).well_formed(),
    {
        let ghost start = self.forwards@;
        drop_named(&mut self.forwards, f.name.as_str());
        self.forwards.push(f);
        let ghost list = self.forwards@;
        sort_stably(&mut self.forwards);
        proof {
            if distinct_names(start) {
                lemma_upsert_keeps_names_distinct(start, f);
                lemma_names_and_keys(list);
                lemma_sort_keeps_distinct(list, self.forwards@);
                lemma_names_and_keys(self.forwards@);
            }
        }
    }

    /// Returns true if a forward was actually removed.
    pub fn remove(&mut self, name: &str) -> (removed: bool)
        ensures
            final(self).forwards@ == without(old(self).forwards@, name@),
            removed == has_name(old(self).forwards@, name@),
            final(self).host == old(self).host,
            final(self).auto_reconnect == old(self).auto_reconnect,
            final(self).retry == old(self).retry,
            old(self).well_formed() ==> final(self).well_formed(),
    {
        let before: usize = self.forwards.len();
        let ghost start = self.forwards@;
        drop_named(&mut self.forwards, name);
        proof {
            lemma_drop_counts(start, name@);
            if sorted(start) && distinct_names(start) {
                lemma_drop_keeps_shape(start, name@);
            }
        }
        self.forwards.len() != before
    }
}

proof fn lemma_names_and_keys(s: Seq<DesiredForward>)
    ensures
        distinct_names(s) == distinct_keys(s),
{
    if distinct_names(s) {
        assert forall|i: int, j: int| 0 <= i < j < s.len() implies #[trigger] s[i].key()
            != #[trigger] s[j].key() by {
            assert(s[i].named() != s[j].named());
            if s[i].key() == s[j].key() {
                lemma_text_key_injective(s[i].name@, s[j].name@);
            }
        }
    }
    if distinct_keys(s) {
        assert forall|i: int, j: int| 0 <= i < j < s.len() implies #[trigger] s[i].named()
            != #[trigger] s[j].named() by {
            assert(s[i].key() != s[j].key());
        }
    }
}

/// Dropping a name from a list keeps what is left in order, and unchanged.
proof fn lemma_drop_keeps_shape(s: Seq<DesiredForward>, name: Seq<char>)
    requires
        sorted(s),
        distinct_names(s),
    ensures
        sorted(without(s, name)),
        distinct_names(without(s, name)),
    decreases s.len(),
{
    let keep = other_than::<DesiredForward>(name);
    if s.len() == 0 {
        reveal(Seq::filter);
    } else {
        let t = s.drop_last();
        let x = s.last();
        assert forall|i: int, j: int| 0 <= i < j < t.len() implies lex_le(
            #[trigger] t[i].key(),
            #[trigger] t[j].key(),
        ) by {
            assert(t[i] == s[i] && t[j] == s[j]);
        }
        assert forall|i: int, j: int| 0 <= i < j < t.len() implies #[trigger] t[i].named()
            != #[trigger] t[j].named() by {
            assert(t[i] == s[i] && t[j] == s[j]);
        }
        lemma_drop_keeps_shape(t, name);
        assert(s =~= t.push(x));
        t.lemma_filter_push(x, keep);
        let u = without(t, name);
        let v = without(s, name);
        assert forall|i: int, j: int| 0 <= i < j < v.len() implies lex_le(
            #[trigger] v[i].key(),
            #[trigger] v[j].key(),
        ) && v[i].named() != v[j].named() by {
            if j < u.len() {
                assert(v[i] == u[i] && v[j] == u[j]);
            } else {
                assert(v[j] == x && v[i] == u[i]);
                assert(u.contains(u[i]));
                t.lemma_filter_contains_rev(keep, u[i]);
                let k = choose|k: int| 0 <= k < t.len() && t[k] == u[i];
                assert(s[k] == u[i] && s[s.len() - 1] == x);
            }
        }
        assert(sorted(v));
        assert forall|i: int, j: int| 0 <= i < j < v.len() implies #[trigger] v[i].named()
            != #[trigger] v[j].named() by {
            assert(lex_le(v[i].key(), v[j].key()));
        }
    }
}

proof fn lemma_drop_counts(s: Seq<DesiredForward>, name: Seq<char>)
    ensures
        without(s, name).len() <= s.len(),
        (without(s, name).len() == s.len()) == !has_name(s, name),
    decreases s.len(),
{
    let keep = other_than::<DesiredForward>(name);
    if s.len() == 0 {
        reveal(Seq::filter);
    } else {
        let t = s.drop_last();
        lemma_drop_counts(t, name);
        assert(s =~= t.push(s.last()));
        t.lemma_filter_push(s.last(), keep);
        lemma_lookup_push(t, s.last(), name);
    }
}

proof fn lemma_upsert_keeps_names_distinct(s: Seq<DesiredForward>, f: DesiredForward)
    requires
        distinct_names(s),
    ensures
        distinct_names(without(s, f.name@).push(f)),
    decreases s.len(),
{
    let keep = other_than::<DesiredForward>(f.name@);
    let kept = without(s, f.name@);
    let list = kept.push(f);
    lemma_without_keeps_distinct(s, f.name@);
    assert forall|i: int, j: int| 0 <= i < j < list.len() implies #[trigger] list[i].named()
        != #[trigger] list[j].named() by {
        assert(list[i] == kept[i]);
        if j < kept.len() {
            assert(list[j] == kept[j]);
        } else {
            s.lemma_filter_pred(keep, i);
        }
    }
}

/// The phase of a host's connection.
#[derive(Debug, Clone, Copy, PartialEq, Eq, Structural)]
pub enum SessionStatus {
    Connecting,
    Connected,
    Reconnecting,
    Failed,
}

/// Whether a forward is currently established on the live master.
///
/// Deliberately separate from `state::ForwardStatus`, which is frozen as the
/// `pf list --json` contract and the color map of the listing.
#[derive(Debug, Clone, Copy, PartialEq, Eq, Structural)]
pub enum AttachStatus {
    Forwarded,
    Pending,
    Failed,
}

/// What is actually true. Written only by the watcher.
#[derive(Debug)]
pub struct SessionState {
    pub host: String,
    pub watcher_pid: u32,
    pub master_pid: Option<u32>,
    pub status: SessionStatus,
    /// Watcher start. Survives reconnects.
    pub started_at: Timestamp,
    /// Current master. Resets on every reconnect.
    pub connected_at: Option<Timestamp>,
    pub reconnect_count: u32,
    /// Echoed from desired so the flat projection needs only this value.
    pub auto_reconnect: bool,
    pub retry: RetryPolicy,
    pub forwards: Vec<ForwardObs>,
}

/// What a session state holds, with its forwards as a sequence.
#[verifier::ext_equal]
pub struct SessionView {
    pub host: String,
    pub watcher_pid: u32,
    pub master_pid: Option<u32>,
    pub status: SessionStatus,
    pub started_at: Timestamp,
    pub connected_at: Option<Timestamp>,
    pub reconnect_count: u32,
    pub auto_reconnect: bool,
    pub retry: RetryPolicy,
    pub forwards: Seq<ForwardObs>,
}

impl View for SessionState {
    type V = SessionView;

    open spec fn view(&self) -> SessionView {
        SessionView {
            host: self.host,
            watcher_pid: self.watcher_pid,
            master_pid: self.master_pid,
            status: self.status,
            started_at: self.started_at,
            connected_at: self.connected_at,
            reconnect_count: self.reconnect_count,
            auto_reconnect: self.auto_reconnect,
            retry: self.retry,
            forwards: self.forwards@,
        }
    }
}

/// One forward as its watcher last saw it.
#[derive(Debug, PartialEq, Eq)]
pub struct ForwardObs {
    pub name: String,
    pub local_port: u16,
    pub remote_host: String,
    pub remote_port: u16,
    pub status: AttachStatus,
    pub attached_at: Option<Timestamp>,
    /// ssh's stderr when an attach failed.
    pub error: Option<String>,
}

/// A copy of an optional text.
pub fn clone_text(s: &Option<String>) -> (r: Option<String>)
    ensures
        r == *s,
{
    match s {
        Some(t) => Some(t.clone()),
        None => None,
    }
}

impl Clone for ForwardObs {
    fn clone(&self) -> (r: Self)
        ensures
            r == *self,
    {
        ForwardObs {
            name: self.name.clone(),
            local_port: self.local_port,
            remote_host: self.remote_host.clone(),
            remote_port: self.remote_port,
            status: self.status,
            attached_at: self.attached_at,
            error: clone_text(&self.error),
        }
    }
}

impl Named for ForwardObs {
    open spec fn named(&self) -> Seq<char> {
        self.name@
    }

    fn is_named(&self, name: &str) -> (r: bool) {
        str_eq(self.name.as_str(), name)
    }
}

/// A copy of a list of observations.
pub fn clone_forwards(v: &Vec<ForwardObs>) -> (out: Vec<ForwardObs>)
    ensures
        out@ == v@,
{
    let mut out: Vec<ForwardObs> = Vec::new();
    let mut i: usize = 0;
    while i < v.len()
        invariant
            i <= v@.len(),
            out@ == v@.take(i as int),
        decreases v@.len() - i,
    {
        out.push(v[i].clone());
        i += 1;
        assert(out@ =~= v@.take(i as int));
    }
    assert(out@ =~= v@);
    out
}

impl SessionState {
    /// The state of a session whose watcher has just started.
    pub open spec fn is_fresh(
        &self,
        host: String,
        watcher_pid: u32,
        auto_reconnect: bool,
        retry: RetryPolicy,
    ) -> bool {
        &&& self.host == host
        &&& self.watcher_pid == watcher_pid
        &&& self.master_pid is None
        &&& self.status == SessionStatus::Connecting
        &&& self.connected_at is None
        &&& self.reconnect_count == 0
        &&& self.auto_reconnect == auto_reconnect
        &&& self.retry == retry
        &&& self.forwards@.len() == 0
    }

    /// A watcher's first state, started at `now`.
    pub fn starting_at(
        host: String,
        watcher_pid: u32,
        auto_reconnect: bool,
        retry: RetryPolicy,
        now: Timestamp,
    ) -> (s: Self)
        ensures
            s.is_fresh(host, watcher_pid, auto_reconnect, retry),
            s.started_at == now,
    {
        SessionState {
            host,
            watcher_pid,
            master_pid: None,
            status: SessionStatus::Connecting,
            started_at: now,
            connected_at: None,
            reconnect_count: 0,
            auto_reconnect,
            retry,
            forwards: Vec::new(),
        }
    }

    /// A watcher's first state, started now.
    pub fn new(host: String, watcher_pid: u32, auto_reconnect: bool, retry: RetryPolicy) -> (s: Self)
        ensures
            s.is_fresh(host, watcher_pid, auto_reconnect, retry),
            clock_read(s.started_at),
    {
        SessionState::starting_at(host, watcher_pid, auto_reconnect, retry, crate::time::now())
    }
}

impl Clone for SessionState {
    fn clone(&self) -> (r: Self)
        ensures
            r@ == self@,
    {
        SessionState {
            host: self.host.clone(),
            watcher_pid: self.watcher_pid,
            master_pid: self.master_pid,
            status: self.status,
            started_at: self.started_at,
            connected_at: self.connected_at,
            reconnect_count: self.reconnect_count,
            auto_reconnect: self.auto_reconnect,
            retry: self.retry,
            forwards: clone_forwards(&self.forwards),
        }
    }
}

impl Named for SessionState {
    open spec fn named(&self) -> Seq<char> {
        self.host@
    }

    fn is_named(&self, name: &str) -> (r: bool) {
        str_eq(self.host.as_str(), name)
    }
}

impl Keyed for SessionState {
    open spec fn key(&self) -> Seq<int> {
        text_key(self.host@)
    }

    fn before(&self, other: &Self) -> (r: bool) {
        str_before(self.host.as_str(), other.host.as_str())
    }
}

/// Looking up a name is picking the first of what carries its key.
proof fn lemma_lookup_by_key(s: Seq<DesiredForward>, name: Seq<char>)
    ensures
        lookup(s, name) == (if with_key(s, text_key(name)).len() > 0 {
            Some(with_key(s, text_key(name))[0])
        } else {
            None
        }),
        has_name(s, name) == (with_key(s, text_key(name)).len() > 0),
    decreases s.len(),
{
    let k = text_key(name);
    let pick = has_key::<DesiredForward>(k);
    if s.len() == 0 {
        reveal(Seq::filter);
    } else {
        let t = s.drop_last();
        let x = s.last();
        lemma_lookup_by_key(t, name);
        assert(s =~= t.push(x));
        t.lemma_filter_push(x, pick);
        lemma_lookup_push(t, x, name);
        if x.key() == k {
            lemma_text_key_injective(x.name@, name);
        }
    }
}

/// Two choices can be made in either order.
proof fn lemma_filters_commute(
    s: Seq<DesiredForward>,
    p: spec_fn(DesiredForward) -> bool,
    q: spec_fn(DesiredForward) -> bool,
)
    ensures
        s.filter(p).filter(q) == s.filter(q).filter(p),
    decreases s.len(),
{
    if s.len() == 0 {
        reveal(Seq::filter);
        assert(s.filter(p) =~= s);
        assert(s.filter(q) =~= s);
    } else {
        let t = s.drop_last();
        let x = s.last();
        lemma_filters_commute(t, p, q);
        assert(s =~= t.push(x));
        t.lemma_filter_push(x, p);
        t.lemma_filter_push(x, q);
        t.filter(p).lemma_filter_push(x, q);
        t.filter(q).lemma_filter_push(x, p);
    }
}

/// An upsert decides what is found under its own name, and nothing else.
pub proof fn law_upsert_sets_its_own_name_only(
    before: Seq<DesiredForward>,
    f: DesiredForward,
    after: Seq<DesiredForward>,
    name: Seq<char>,
)
    requires
        stably_sorted(without(before, f.name@).push(f), after),
    ensures
        lookup(after, name) == (if name == f.name@ {
            Some(f)
        } else {
            lookup(before, name)
        }),
        has_name(after, name) == (name == f.name@ || has_name(before, name)),
{
    let list = without(before, f.name@).push(f);
    lemma_lookup_by_key(list, name);
    lemma_lookup_by_key(after, name);
    lemma_without(before, f.name@, name);
    lemma_lookup_push(without(before, f.name@), f, name);
}

/// Removing what was just upserted leaves the forwards that there were under
/// other names, in order.
pub proof fn law_remove_undoes_upsert(
    before: Seq<DesiredForward>,
    f: DesiredForward,
    after: Seq<DesiredForward>,
)
    requires
        sorted(before),
        distinct_names(before),
        stably_sorted(without(before, f.name@).push(f), after),
    ensures
        without(after, f.name@) == without(before, f.name@),
{
    let keep = other_than::<DesiredForward>(f.name@);
    let rest = without(before, f.name@);
    let list = rest.push(f);
    let end = without(after, f.name@);
    lemma_without_keeps_distinct(before, f.name@);
    lemma_drop_keeps_shape(before, f.name@);
    lemma_upsert_keeps_names_distinct(before, f);
    lemma_names_and_keys(list);
    lemma_sort_keeps_distinct(list, after);
    lemma_names_and_keys(after);
    lemma_drop_keeps_shape(after, f.name@);
    rest.lemma_filter_push(f, keep);
    assert(rest.filter(keep) == rest) by {
        lemma_filter_again(before, keep);
    }
    assert(without(list, f.name@) == rest);
    assert forall|k: Seq<int>| #[trigger] with_key(rest, k) == with_key(end, k) by {
        let pick = has_key::<DesiredForward>(k);
        lemma_filters_commute(after, keep, pick);
        lemma_filters_commute(list, keep, pick);
        assert(with_key(list, k) == with_key(after, k));
    }
    law_stable_sort_is_unique(rest, end);
}

/// Choosing again what was already chosen changes nothing.
proof fn lemma_filter_again(s: Seq<DesiredForward>, p: spec_fn(DesiredForward) -> bool)
    ensures
        s.filter(p).filter(p) == s.filter(p),
    decreases s.len(),
{
    if s.len() == 0 {
        reveal(Seq::filter);
        assert(s.filter(p) =~= s);
    } else {
        let t = s.drop_last();
        lemma_filter_again(t, p);
        assert(s =~= t.push(s.last()));
        t.lemma_filter_push(s.last(), p);
        t.filter(p).lemma_filter_push(s.last(), p);
    }
}

/// A session's state is seen with everything that it holds.
pub proof fn law_a_state_is_seen_whole(s: SessionState)
    ensures
        s@.host == s.host,
        s@.watcher_pid == s.watcher_pid,
        s@.master_pid == s.master_pid,
        s@.status == s.status,
        s@.started_at == s.started_at,
        s@.connected_at == s.connected_at,
        s@.reconnect_count == s.reconnect_count,
        s@.auto_reconnect == s.auto_reconnect,
        s@.retry == s.retry,
        s@.forwards == s.forwards@,
{
}

/// Things are told apart by the names that they were given.
pub proof fn law_names_are_what_was_given(d: DesiredForward, o: ForwardObs, s: SessionState)
    ensures
        d.named() == d.name@,
        o.named() == o.name@,
        s.named() == s.host@,
{
}

/// A session's first state belongs to its host and its watcher, and knows of no
/// master and no forward yet.
pub proof fn law_how_a_session_starts(
    host: String,
    pid: u32,
    auto_reconnect: bool,
    retry: RetryPolicy,
    s: SessionState,
)
    requires
        call_ensures(SessionState::new, (host, pid, auto_reconnect, retry), s),
    ensures
        s.host@ == host@,
        s.watcher_pid == pid,
        s.auto_reconnect == auto_reconnect,
        s.retry == retry,
        s.master_pid is None,
        s.status == SessionStatus::Connecting,
        s.connected_at is None,
        s.reconnect_count == 0,
        s.forwards@.len() == 0,
{
}

}
