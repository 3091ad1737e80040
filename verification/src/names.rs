//! Lists of named things: looking one up, and dropping one.

use vstd::prelude::*;

verus! {

/// Things that are told apart by name.
pub trait Named: Sized {
    /// The name.
    spec fn named(&self) -> Seq<char>;

    /// Whether this is what `name` refers to.
    fn is_named(&self, name: &str) -> (r: bool)
        ensures
            r == (self.named() == name@),
    ;
}

/// Position of the first element called `name`, or the length of the list.
pub open spec fn position<T: Named>(s: Seq<T>, name: Seq<char>) -> int
    decreases s.len(),
{
    if s.len() == 0 || s[0].named() == name {
        0
    } else {
        1 + position(s.drop_first(), name)
    }
}

/// Whether some element is called `name`.
pub open spec fn has_name<T: Named>(s: Seq<T>, name: Seq<char>) -> bool {
    exists|i: int| 0 <= i < s.len() && #[trigger] s[i].named() == name
}

/// The first element called `name`.
pub open spec fn lookup<T: Named>(s: Seq<T>, name: Seq<char>) -> Option<T> {
    if has_name(s, name) {
        Some(s[position(s, name)])
    } else {
        None
    }
}

/// Picks what is not called `name`.
pub open spec fn other_than<T: Named>(name: Seq<char>) -> spec_fn(T) -> bool {
    |t: T| t.named() != name
}

/// The list without anything called `name`.
pub open spec fn without<T: Named>(s: Seq<T>, name: Seq<char>) -> Seq<T> {
    s.filter(other_than(name))
}

/// No two elements share a name.
pub open spec fn distinct_names<T: Named>(s: Seq<T>) -> bool {
    forall|i: int, j: int| 0 <= i < j < s.len() ==> #[trigger] s[i].named() != #[trigger] s[j].named()
}

/// A first match is where `position` points.
pub proof fn lemma_position<T: Named>(s: Seq<T>, name: Seq<char>, i: int)
    requires
        0 <= i <= s.len(),
        forall|k: int| 0 <= k < i ==> #[trigger] s[k].named() != name,
        i < s.len() ==> s[i].named() == name,
    ensures
        position(s, name) == i,
        has_name(s, name) == (i < s.len()),
    decreases s.len(),
{
    if s.len() > 0 && s[0].named() != name {
        let t = s.drop_first();
        assert forall|k: int| 0 <= k < i - 1 implies #[trigger] t[k].named() != name by {
            assert(t[k] == s[k + 1]);
        }
        lemma_position(t, name, i - 1);
    }
    if i < s.len() {
        assert(s[i].named() == name);
    } else {
        assert forall|k: int| 0 <= k < s.len() implies #[trigger] s[k].named() != name by {}
    }
}

/// `position` points at a first match, or past the end when there is none.
pub proof fn lemma_position_points<T: Named>(s: Seq<T>, name: Seq<char>)
    ensures
        0 <= position(s, name) <= s.len(),
        position(s, name) < s.len() <==> has_name(s, name),
        has_name(s, name) ==> s[position(s, name)].named() == name,
        forall|k: int| 0 <= k < position(s, name) ==> #[trigger] s[k].named() != name,
    decreases s.len(),
{
    if s.len() > 0 && s[0].named() != name {
        let t = s.drop_first();
        lemma_position_points(t, name);
        let p = position(t, name);
        assert forall|k: int| 0 <= k < 1 + p implies #[trigger] s[k].named() != name by {
            if k > 0 {
                assert(t[k - 1] == s[k]);
            }
        }
        if p < t.len() {
            assert(s[1 + p] == t[p]);
        } else {
            assert forall|k: int| 0 <= k < s.len() implies #[trigger] s[k].named() != name by {}
        }
    } else if s.len() > 0 {
        assert(s[0].named() == name);
    }
}

/// Find the first element called `name`.
pub fn find_named<T: Named>(v: &[T], name: &str) -> (r: Option<usize>)
    ensures
        match r {
            Some(i) => i < v@.len() && i == position(v@, name@) && has_name(v@, name@)
                && v@[i as int].named() == name@,
            None => !has_name(v@, name@),
        },
{
    let mut i: usize = 0;
    while i < v.len()
        invariant
            i <= v@.len(),
            forall|k: int| 0 <= k < i ==> #[trigger] v@[k].named() != name@,
        decreases v@.len() - i,
    {
        if v[i].is_named(name) {
            proof {
                lemma_position(v@, name@, i as int);
            }
            return Some(i);
        }
        i += 1;
    }
    proof {
        lemma_position(v@, name@, i as int);
    }
    None
}

/// Drop every element called `name`.
pub fn drop_named<T: Named>(v: &mut Vec<T>, name: &str)
    ensures
        final(v)@ == without(old(v)@, name@),
{
    let ghost start = v@;
    let ghost keep = other_than::<T>(name@);
    let ghost mut seen: int = 0;
    let mut i: usize = 0;
    proof {
        assert(start.take(0) =~= seq![]);
        assert(Seq::<T>::empty().filter(keep) =~= seq![]) by {
            reveal(Seq::filter);
        }
        assert(v@ =~= start.take(0).filter(keep) + start.skip(0));
    }
    while i < v.len()
        invariant
            0 <= seen <= start.len(),
            i <= v@.len(),
            keep == other_than::<T>(name@),
            i == start.take(seen).filter(keep).len(),
            v@ == start.take(seen).filter(keep) + start.skip(seen),
        decreases start.len() - seen,
    {
        let ghost done = start.take(seen).filter(keep);
        proof {
            assert(v@.len() == done.len() + (start.len() - seen));
            assert(v@[i as int] == start[seen]);
            assert(start.take(seen + 1) =~= start.take(seen).push(start[seen]));
            start.take(seen).lemma_filter_push(start[seen], keep);
        }
        if v[i].is_named(name) {
            v.remove(i);
            assert(v@ =~= done + start.skip(seen + 1));
        } else {
            i += 1;
            assert(v@ =~= done.push(start[seen]) + start.skip(seen + 1));
        }
        proof {
            seen = seen + 1;
        }
    }
    proof {
        assert(seen == start.len());
        assert(start.take(seen) =~= start);
        assert(start.skip(seen) =~= seq![]);
        assert(v@ =~= start.filter(keep));
    }
}

/// What remains after a drop: the same lookups, but for the dropped name.
pub proof fn lemma_without<T: Named>(s: Seq<T>, gone: Seq<char>, name: Seq<char>)
    ensures
        lookup(without(s, gone), name) == (if name == gone {
            None
        } else {
            lookup(s, name)
        }),
        has_name(without(s, gone), name) == (name != gone && has_name(s, name)),
    decreases s.len(),
{
    let keep = other_than::<T>(gone);
    if s.len() == 0 {
        assert(without(s, gone) =~= s) by {
            reveal(Seq::filter);
        }
    } else {
        let t = s.drop_last();
        let x = s.last();
        lemma_without(t, gone, name);
        assert(s =~= t.push(x));
        t.lemma_filter_push(x, keep);
        lemma_lookup_push(t, x, name);
        lemma_lookup_push(without(t, gone), x, name);
    }
}

/// Looking up in a list with one more element at its end.
pub proof fn lemma_lookup_push<T: Named>(s: Seq<T>, x: T, name: Seq<char>)
    ensures
        lookup(s.push(x), name) == (if has_name(s, name) {
            lookup(s, name)
        } else if x.named() == name {
            Some(x)
        } else {
            None
        }),
        has_name(s.push(x), name) == (has_name(s, name) || x.named() == name),
{
    let u = s.push(x);
    lemma_position_points(s, name);
    let p = position(s, name);
    if has_name(s, name) {
        assert forall|k: int| 0 <= k < p implies #[trigger] u[k].named() != name by {
            assert(u[k] == s[k]);
        }
        assert(u[p] == s[p]);
        lemma_position(u, name, p);
    } else {
        assert forall|k: int| 0 <= k < s.len() implies #[trigger] u[k].named() != name by {
            assert(u[k] == s[k]);
        }
        if x.named() == name {
            lemma_position(u, name, s.len() as int);
        } else {
            lemma_position(u, name, u.len() as int);
        }
    }
}

/// Replacing the first element called `x.named()` by `x`, or adding it.
pub open spec fn put<T: Named>(s: Seq<T>, x: T) -> Seq<T> {
    if has_name(s, x.named()) {
        s.update(position(s, x.named()), x)
    } else {
        s.push(x)
    }
}

/// A replacement changes the lookup of its own name only.
pub proof fn lemma_put<T: Named>(s: Seq<T>, x: T, name: Seq<char>)
    ensures
        lookup(put(s, x), name) == (if name == x.named() {
            Some(x)
        } else {
            lookup(s, name)
        }),
        has_name(put(s, x), name) == (name == x.named() || has_name(s, name)),
{
    lemma_position_points(s, x.named());
    lemma_position_points(s, name);
    lemma_lookup_push(s, x, name);
    if has_name(s, x.named()) {
        let p = position(s, x.named());
        let u = put(s, x);
        let q = position(s, name);
        if name == x.named() {
            assert forall|k: int| 0 <= k < p implies #[trigger] u[k].named() != name by {
                assert(u[k] == s[k]);
            }
            lemma_position(u, name, p);
        } else {
            assert forall|k: int| 0 <= k < q implies #[trigger] u[k].named() != name by {
                if k != p {
                    assert(u[k] == s[k]);
                }
            }
            if q < s.len() {
                assert(u[q] == s[q]);
            }
            lemma_position(u, name, q);
        }
    }
}

/// Picking some elements keeps their names distinct.
pub proof fn lemma_filter_keeps_distinct<T: Named>(s: Seq<T>, keep: spec_fn(T) -> bool)
    requires
        distinct_names(s),
    ensures
        distinct_names(s.filter(keep)),
    decreases s.len(),
{
    if s.len() == 0 {
        reveal(Seq::filter);
    } else {
        let t = s.drop_last();
        let x = s.last();
        assert forall|i: int, j: int| 0 <= i < j < t.len() implies #[trigger] t[i].named()
            != #[trigger] t[j].named() by {
            assert(t[i] == s[i] && t[j] == s[j]);
        }
        lemma_filter_keeps_distinct(t, keep);
        assert(s =~= t.push(x));
        t.lemma_filter_push(x, keep);
        let u = t.filter(keep);
        let v = s.filter(keep);
        assert forall|i: int, j: int| 0 <= i < j < v.len() implies #[trigger] v[i].named()
            != #[trigger] v[j].named() by {
            if j < u.len() {
                assert(v[i] == u[i] && v[j] == u[j]);
            } else {
                assert(v[j] == x && v[i] == u[i]);
                assert(u.contains(u[i]));
                t.lemma_filter_contains_rev(keep, u[i]);
                let k = choose|k: int| 0 <= k < t.len() && t[k] == u[i];
                assert(s[k] == u[i] && s[s.len() - 1] == x);
            }
        }
    }
}

/// Dropping a name keeps the others distinct.
pub proof fn lemma_without_keeps_distinct<T: Named>(s: Seq<T>, name: Seq<char>)
    requires
        distinct_names(s),
    ensures
        distinct_names(without(s, name)),
{
    lemma_filter_keeps_distinct(s, other_than(name));
}

/// A replacement keeps names distinct.
pub proof fn lemma_put_keeps_distinct<T: Named>(s: Seq<T>, x: T)
    requires
        distinct_names(s),
    ensures
        distinct_names(put(s, x)),
{
    lemma_position_points(s, x.named());
    let u = put(s, x);
    let p = position(s, x.named());
    assert forall|i: int, j: int| 0 <= i < j < u.len() implies #[trigger] u[i].named()
        != #[trigger] u[j].named() by {
        if i != p && i < s.len() {
            assert(u[i] == s[i]);
        }
        if j != p && j < s.len() {
            assert(u[j] == s[j]);
        }
        if p < s.len() {
            assert(s[p].named() == x.named());
            assert(i < p ==> s[i].named() != s[p].named());
            assert(p < j && j < s.len() ==> s[p].named() != s[j].named());
        }
    }
}

/// Replace the first element of the same name, or add at the end.
pub fn put_named<T: Named>(v: &mut Vec<T>, name: &str, x: T)
    requires
        name@ == x.named(),
    ensures
        final(v)@ == put(old(v)@, x),
{
    match find_named(v.as_slice(), name) {
        Some(i) => {
            v.set(i, x);
        },
        None => {
            v.push(x);
        },
    }
}

}
