//! Saved profiles and dashboard settings.

use crate::error::{ErrorView, PfError, Result};
use crate::names::{
    distinct_names, drop_named, find_named, has_name, lemma_lookup_push, lemma_position_points,
    lemma_without, lemma_without_keeps_distinct, lookup, position, without, Named,
};
use crate::order::{
    has_key, lemma_sort_keeps_distinct, lemma_text_key_injective, lex_le, sort_stably, sorted,
    stably_sorted, str_before, text_key, with_key, distinct_keys, Keyed,
};
use crate::text::str_eq;
use crate::tui::tree::MachineListMode;
use vstd::prelude::*;
use vstd::string::*;

verus! {

/// A saved forward.
#[derive(Debug, PartialEq, Eq)]
pub struct Profile {
    pub host: String,
    pub local_port: u16,
    pub remote_port: u16,
    pub remote_host: String,
}

impl Clone for Profile {
    fn clone(&self) -> (r: Self)
        ensures
            r == *self,
    {
        Profile {
            host: self.host.clone(),
            local_port: self.local_port,
            remote_port: self.remote_port,
            remote_host: self.remote_host.clone(),
        }
    }
}

/// The remote end of a profile that names none.
pub fn default_remote_host() -> (out: String)
    ensures
        out@ == "localhost"@,
{
    "localhost".to_owned()
}

impl Named for (String, Profile) {
    open spec fn named(&self) -> Seq<char> {
        self.0@
    }

    fn is_named(&self, name: &str) -> (r: bool) {
        str_eq(self.0.as_str(), name)
    }
}

impl Keyed for (String, Profile) {
    open spec fn key(&self) -> Seq<int> {
        text_key(self.0@)
    }

    fn before(&self, other: &Self) -> (r: bool) {
        str_before(self.0.as_str(), other.0.as_str())
    }
}

/// Settings of the dashboard.
#[derive(Debug, Clone, Copy, PartialEq, Eq, Structural)]
pub struct TuiConfig {
    pub machine_source: MachineListMode,
}

/// The whole configuration file.
#[derive(Debug)]
pub struct Config {
    /// Kept in the order of their names.
    pub profiles: Vec<(String, Profile)>,
    pub tui: TuiConfig,
}

impl Default for Config {
    fn default() -> (c: Self)
        ensures
            c@ == Map::<Seq<char>, Profile>::empty(),
            c.well_formed(),
            c.tui.machine_source == MachineListMode::AllHosts,
    {
        let c = Config {
            profiles: Vec::new(),
            tui: TuiConfig { machine_source: MachineListMode::default() },
        };
        assert(c@ =~= Map::<Seq<char>, Profile>::empty());
        c
    }
}

/// The profiles of a list, by name.
pub open spec fn by_name(profiles: Seq<(String, Profile)>) -> Map<Seq<char>, Profile> {
    Map::new(|n: Seq<char>| has_name(profiles, n), |n: Seq<char>| (lookup(profiles, n)->0).1)
}

impl View for Config {
    type V = Map<Seq<char>, Profile>;

    open spec fn view(&self) -> Map<Seq<char>, Profile> {
        by_name(self.profiles@)
    }
}

proof fn lemma_keys_are_names(s: Seq<(String, Profile)>)
    ensures
        distinct_names(s) == distinct_keys(s),
{
    if distinct_names(s) {
        assert forall|i: int, j: int| 0 <= i < j < s.len() implies #[trigger] s[i].key()
            != #[trigger] s[j].key() by {
            assert(s[i].named() != s[j].named());
            if s[i].key() == s[j].key() {
                lemma_text_key_injective(s[i].0@, s[j].0@);
            }
        }
    }
    if distinct_keys(s) {
        assert forall|i: int, j: int| 0 <= i < j < s.len() implies #[trigger] s[i].named()
            != #[trigger] s[j].named() by {
            assert(s[i].key() != s[j].key());
        }
    }
}

proof fn lemma_lookup_by_key(s: Seq<(String, Profile)>, name: Seq<char>)
    ensures
        lookup(s, name) == (if with_key(s, text_key(name)).len() > 0 {
            Some(with_key(s, text_key(name))[0])
        } else {
            None
        }),
        has_name(s, name) == (with_key(s, text_key(name)).len() > 0),
    decreases s.len(),
{
    let k = text_key(name);
    if s.len() == 0 {
        reveal(Seq::filter);
    } else {
        let t = s.drop_last();
        let x = s.last();
        lemma_lookup_by_key(t, name);
        assert(s =~= t.push(x));
        t.lemma_filter_push(x, has_key::<(String, Profile)>(k));
        lemma_lookup_push(t, x, name);
        if x.key() == k {
            lemma_text_key_injective(x.0@, name);
        }
    }
}

/// Sorting changes nothing that is found by name.
proof fn lemma_sorting_keeps_lookups(s: Seq<(String, Profile)>, out: Seq<(String, Profile)>)
    requires
        stably_sorted(s, out),
    ensures
        by_name(out) == by_name(s),
{
    assert forall|n: Seq<char>| #[trigger] has_name(out, n) == has_name(s, n) && lookup(out, n)
        == lookup(s, n) by {
        lemma_lookup_by_key(s, n);
        lemma_lookup_by_key(out, n);
    }
    assert(by_name(out) =~= by_name(s));
}

proof fn lemma_drop_keeps_sorted(s: Seq<(String, Profile)>, name: Seq<char>)
    requires
        sorted(s),
    ensures
        sorted(without(s, name)),
    decreases s.len(),
{
    let keep = crate::names::other_than::<(String, Profile)>(name);
    if s.len() == 0 {
        reveal(Seq::filter);
    } else {
        let t = s.drop_last();
        let x = s.last();
        assert forall|i: int, j: int| 0 <= i < j < t.len() implies lex_le(
            #[trigger] t[i].key(),
            #[trigger] t[j].key(),
        ) by {
            assert(t[i] == s[i] && t[j] == s[j]);
        }
        lemma_drop_keeps_sorted(t, name);
        assert(s =~= t.push(x));
        t.lemma_filter_push(x, keep);
        let u = without(t, name);
        let v = without(s, name);
        assert forall|i: int, j: int| 0 <= i < j < v.len() implies lex_le(
            #[trigger] v[i].key(),
            #[trigger] v[j].key(),
        ) by {
            if j < u.len() {
                assert(v[i] == u[i] && v[j] == u[j]);
            } else {
                assert(v[j] == x && v[i] == u[i]);
                assert(u.contains(u[i]));
                t.lemma_filter_contains_rev(keep, u[i]);
                let k = choose|k: int| 0 <= k < t.len() && t[k] == u[i];
                assert(s[k] == u[i] && s[s.len() - 1] == x);
            }
        }
    }
}

/// Whether `after` is `before` once `profile` was saved under `name`, or was
/// refused because something is.
pub open spec fn adds(
    before: Config,
    name: Seq<char>,
    profile: Profile,
    r: Result<()>,
    after: Config,
) -> bool {
    &&& match r {
        Ok(_) => !before@.contains_key(name) && after@ == before@.insert(name, profile),
        Err(e) => before@.contains_key(name) && e@ == ErrorView::ProfileExists(name) && after
            == before,
    }
    &&& after.tui == before.tui
}

/// Whether `after` is `before` once the profile called `name` was forgotten, or
/// there was none.
pub open spec fn removes(before: Config, name: Seq<char>, r: Result<()>, after: Config) -> bool {
    &&& match r {
        Ok(_) => before@.contains_key(name) && after@ == before@.remove(name),
        Err(e) => !before@.contains_key(name) && e@ == ErrorView::ProfileNotFound(name) && after
            == before,
    }
    &&& after.tui == before.tui
}

impl Config {
    /// Profiles stand in the order of their names, and no name occurs twice.
    pub open spec fn well_formed(&self) -> bool {
        sorted(self.profiles@) && distinct_names(self.profiles@)
    }

    /// Save a profile under a new name.
    pub fn add_profile(&mut self, name: String, profile: Profile) -> (r: Result<()>)
        ensures
            adds(*old(self), name@, profile, r, *final(self)),
            old(self).well_formed() ==> final(self).well_formed(),
    {
        match find_named(self.profiles.as_slice(), name.as_str()) {
            Some(_) => Err(PfError::ProfileExists(name)),
            None => {
                let ghost before = self.profiles@;
                let ghost entry = (name, profile);
                self.profiles.push((name, profile));
                let ghost list = self.profiles@;
                sort_stably(&mut self.profiles);
                proof {
                    lemma_sorting_keeps_lookups(list, self.profiles@);
                    assert forall|n: Seq<char>| #[trigger]
                        has_name(list, n) == (has_name(before, n) || n == entry.0@) && lookup(
                        list,
                        n,
                    ) == (if has_name(before, n) {
                        lookup(before, n)
                    } else if n == entry.0@ {
                        Some(entry)
                    } else {
                        None
                    }) by {
                        lemma_lookup_push(before, entry, n);
                    }
                    assert(self@ =~= old(self)@.insert(entry.0@, entry.1));
                    if distinct_names(before) {
                        assert forall|i: int, j: int| 0 <= i < j < list.len() implies #[trigger] list[i].named()
                            != #[trigger] list[j].named() by {
                            assert(list[i] == before[i]);
                            assert(before[i].named() != entry.0@);
                            if j < before.len() {
                                assert(list[j] == before[j]);
                            }
                        }
                        lemma_keys_are_names(list);
                        lemma_sort_keeps_distinct(list, self.profiles@);
                        lemma_keys_are_names(self.profiles@);
                    }
                }
                Ok(())
            },
        }
    }

    /// Forget a profile.
    pub fn remove_profile(&mut self, name: &str) -> (r: Result<()>)
        ensures
            removes(*old(self), name@, r, *final(self)),
            old(self).well_formed() ==> final(self).well_formed(),
    {
        match find_named(self.profiles.as_slice(), name) {
            None => Err(PfError::ProfileNotFound(name.to_owned())),
            Some(_) => {
                let ghost before = self.profiles@;
                drop_named(&mut self.profiles, name);
                proof {
                    assert forall|n: Seq<char>| #[trigger]
                        has_name(self.profiles@, n) == (n != name@ && has_name(before, n)) && (n
                            != name@ ==> lookup(self.profiles@, n) == lookup(before, n)) by {
                        lemma_without(before, name@, n);
                    }
                    assert(self@ =~= old(self)@.remove(name@));
                    if sorted(before) && distinct_names(before) {
                        lemma_drop_keeps_sorted(before, name@);
                        lemma_without_keeps_distinct(before, name@);
                    }
                }
                Ok(())
            },
        }
    }

    /// The profile saved under `name`.
    pub fn get_profile(&self, name: &str) -> (r: Option<&Profile>)
        ensures
            match r {
                Some(p) => self@.contains_key(name@) && *p == self@[name@],
                None => !self@.contains_key(name@),
            },
    {
        match find_named(self.profiles.as_slice(), name) {
            Some(i) => Some(&self.profiles[i].1),
            None => None,
        }
    }
}

/// A profile that was added is found, and removing it brings back what there
/// was.
pub proof fn law_removing_undoes_adding(
    before: Map<Seq<char>, Profile>,
    name: Seq<char>,
    profile: Profile,
)
    requires
        !before.contains_key(name),
    ensures
        before.insert(name, profile)[name] == profile,
        before.insert(name, profile).remove(name) == before,
{
    assert(before.insert(name, profile).remove(name) =~= before);
}

/// A configuration keeps every profile under its own name: looking one up finds
/// the first entry of that name, and nothing where there is none.
pub proof fn law_profiles_are_found_by_name(c: Config, name: &str, r: Option<&Profile>)
    requires
        call_ensures(Config::get_profile, (&c, name), r),
    ensures
        r is Some ==> exists|i: int|
            0 <= i < c.profiles@.len() && (#[trigger] c.profiles@[i]).0@ == name@
                && c.profiles@[i].1 == *r->0,
        r is None ==> forall|i: int|
            0 <= i < c.profiles@.len() ==> (#[trigger] c.profiles@[i]).0@ != name@,
{
    lemma_position_points(c.profiles@, name@);
    if has_name(c.profiles@, name@) {
        let k = position(c.profiles@, name@);
        assert(c.profiles@[k].0@ == name@);
    } else {
        assert forall|i: int| 0 <= i < c.profiles@.len() implies (#[trigger] c.profiles@[i]).0@
            != name@ by {
            assert(c.profiles@[i].named() == c.profiles@[i].0@);
        }
    }
}

/// Where nothing was configured there are no profiles, and every host is listed.
pub proof fn law_the_default_configuration(c: Config)
    requires
        call_ensures(Config::default, (), c),
    ensures
        c.profiles@.len() == 0,
        c.tui.machine_source == MachineListMode::AllHosts,
{
    if c.profiles@.len() > 0 {
        let n = c.profiles@[0].0@;
        assert(c.profiles@[0].named() == n);
        assert(has_name(c.profiles@, n));
        assert(c@.contains_key(n));
    }
}

/// A profile is saved under a name that is free, and then found there; every
/// other one stays. A name that is taken is refused, and nothing changes.
pub proof fn law_a_saved_profile_is_found(
    before: Config,
    name: Seq<char>,
    profile: Profile,
    r: Result<()>,
    after: Config,
    found: &str,
    p: Option<&Profile>,
    q: Option<&Profile>,
)
    requires
        adds(before, name, profile, r, after),
        call_ensures(Config::get_profile, (&after, found), p),
        call_ensures(Config::get_profile, (&before, found), q),
    ensures
        r is Ok && found@ == name ==> p is Some && *p->0 == profile && q is None,
        r is Ok && found@ != name ==> (p is Some) == (q is Some) && (p is Some ==> *p->0 == *q->0),
        r is Err ==> (p is Some) == (q is Some) && r->Err_0@ == ErrorView::ProfileExists(name),
        r is Err && found@ == name ==> q is Some,
        after.tui.machine_source == before.tui.machine_source,
{
}

/// A profile that is forgotten is not found any more; every other one stays. One
/// that there is not cannot be forgotten, and nothing changes.
pub proof fn law_a_forgotten_profile_is_gone(
    before: Config,
    name: Seq<char>,
    r: Result<()>,
    after: Config,
    found: &str,
    p: Option<&Profile>,
    q: Option<&Profile>,
)
    requires
        removes(before, name, r, after),
        call_ensures(Config::get_profile, (&after, found), p),
        call_ensures(Config::get_profile, (&before, found), q),
    ensures
        found@ == name ==> p is None,
        r is Ok && found@ == name ==> q is Some,
        found@ != name ==> (p is Some) == (q is Some) && (p is Some ==> *p->0 == *q->0),
        r is Err ==> r->Err_0@ == ErrorView::ProfileNotFound(name),
        r is Err && found@ == name ==> q is None,
        after.tui.machine_source == before.tui.machine_source,
{
}

/// A profile that names no remote host leads to the machine itself.
pub proof fn law_the_default_remote_host(out: String)
    requires
        call_ensures(default_remote_host, (), out),
    ensures
        out@ == "localhost"@,
{
}

}
