//! Sets of hosts.

use crate::names::{
    distinct_names, drop_named, find_named, has_name, lemma_lookup_push, lemma_without,
    lemma_without_keeps_distinct, Named,
};
use crate::text::str_eq;
use vstd::prelude::*;
use vstd::string::*;

verus! {

impl Named for String {
    open spec fn named(&self) -> Seq<char> {
        self@
    }

    fn is_named(&self, name: &str) -> (r: bool) {
        str_eq(self.as_str(), name)
    }
}

/// A set of hosts, each held once.
#[derive(Debug)]
pub struct HostSet {
    pub hosts: Vec<String>,
}

impl View for HostSet {
    type V = Set<Seq<char>>;

    open spec fn view(&self) -> Set<Seq<char>> {
        Set::new(|x: Seq<char>| has_name(self.hosts@, x))
    }
}

impl HostSet {
    /// Nothing is held twice.
    pub open spec fn well_formed(&self) -> bool {
        distinct_names(self.hosts@)
    }

    /// The empty set.
    pub fn new() -> (s: Self)
        ensures
            s@ == Set::<Seq<char>>::empty(),
            s.well_formed(),
    {
        let s = HostSet { hosts: Vec::new() };
        assert(s@ =~= Set::<Seq<char>>::empty());
        s
    }

    /// Whether `host` is in the set.
    pub fn contains(&self, host: &str) -> (r: bool)
        ensures
            r == self@.contains(host@),
    {
        find_named(self.hosts.as_slice(), host).is_some()
    }

    /// Add `host`; true if it was not there.
    pub fn insert(&mut self, host: String) -> (added: bool)
        ensures
            final(self)@ == old(self)@.insert(host@),
            added == !old(self)@.contains(host@),
            old(self).well_formed() ==> final(self).well_formed(),
    {
        if self.contains(host.as_str()) {
            assert(self@ =~= self@.insert(host@));
            return false;
        }
        let ghost before = self.hosts@;
        let ghost given = host;
        self.hosts.push(host);
        proof {
            assert forall|x: Seq<char>| #[trigger]
                self@.contains(x) == (x == given@ || has_name(before, x)) by {
                lemma_lookup_push(before, given, x);
            }
            assert(self@ =~= old(self)@.insert(given@));
            if distinct_names(before) {
                let all = self.hosts@;
                assert forall|i: int, j: int| 0 <= i < j < all.len() implies #[trigger] all[i].named()
                    != #[trigger] all[j].named() by {
                    assert(all[i] == before[i]);
                    assert(before[i].named() != given@);
                    if j < before.len() {
                        assert(all[j] == before[j]);
                    }
                }
            }
        }
        true
    }

    /// Drop `host`; true if it was there.
    pub fn remove(&mut self, host: &str) -> (removed: bool)
        ensures
            final(self)@ == old(self)@.remove(host@),
            removed == old(self)@.contains(host@),
            old(self).well_formed() ==> final(self).well_formed(),
    {
        let removed = self.contains(host);
        let ghost before = self.hosts@;
        drop_named(&mut self.hosts, host);
        proof {
            assert forall|x: Seq<char>| #[trigger]
                self@.contains(x) == (x != host@ && has_name(before, x)) by {
                lemma_without(before, host@, x);
            }
            assert(self@ =~= old(self)@.remove(host@));
            if distinct_names(before) {
                lemma_without_keeps_distinct(before, host@);
            }
        }
        removed
    }

    /// Drop every host.
    pub fn clear(&mut self)
        ensures
            final(self)@ == Set::<Seq<char>>::empty(),
            final(self).well_formed(),
    {
        self.hosts.clear();
        assert(self@ =~= Set::<Seq<char>>::empty());
    }
}

}
