//! Lexicographic order and a stable sort over it.

use crate::text::chars_of;
use vstd::prelude::*;

verus! {

/// `a` precedes `b` lexicographically.
pub open spec fn lex_lt(a: Seq<int>, b: Seq<int>) -> bool
    decreases a.len(),
{
    if b.len() == 0 {
        false
    } else if a.len() == 0 {
        true
    } else if a[0] != b[0] {
        a[0] < b[0]
    } else {
        lex_lt(a.drop_first(), b.drop_first())
    }
}

/// `a` does not come after `b`.
pub open spec fn lex_le(a: Seq<int>, b: Seq<int>) -> bool {
    !lex_lt(b, a)
}

/// The order of strings: by code point.
pub open spec fn text_key(s: Seq<char>) -> Seq<int> {
    s.map_values(|c: char| c as int)
}

/// A string comes before another.
pub open spec fn text_lt(a: Seq<char>, b: Seq<char>) -> bool {
    lex_lt(text_key(a), text_key(b))
}

/// The order is irreflexive.
pub proof fn lemma_lex_irreflexive(a: Seq<int>)
    ensures
        !lex_lt(a, a),
    decreases a.len(),
{
    if a.len() > 0 {
        lemma_lex_irreflexive(a.drop_first());
    }
}

/// The order is transitive.
pub proof fn lemma_lex_transitive(a: Seq<int>, b: Seq<int>, c: Seq<int>)
    requires
        lex_lt(a, b),
        lex_lt(b, c),
    ensures
        lex_lt(a, c),
    decreases a.len(),
{
    if a.len() > 0 && b.len() > 0 && c.len() > 0 && a[0] == b[0] && b[0] == c[0] {
        lemma_lex_transitive(a.drop_first(), b.drop_first(), c.drop_first());
    }
}

/// Two sequences that neither precedes the other are equal.
pub proof fn lemma_lex_total(a: Seq<int>, b: Seq<int>)
    requires
        !lex_lt(a, b),
        !lex_lt(b, a),
    ensures
        a == b,
    decreases a.len(),
{
    if a.len() > 0 && b.len() > 0 {
        assert(a[0] == b[0]);
        lemma_lex_total(a.drop_first(), b.drop_first());
        assert(a =~= seq![a[0]] + a.drop_first());
        assert(b =~= seq![b[0]] + b.drop_first());
    } else {
        assert(a =~= b);
    }
}

/// "Not after" is transitive.
pub proof fn lemma_lex_le_transitive(a: Seq<int>, b: Seq<int>, c: Seq<int>)
    requires
        lex_le(a, b),
        lex_le(b, c),
    ensures
        lex_le(a, c),
{
    if lex_lt(c, a) {
        if lex_lt(a, b) {
            lemma_lex_transitive(c, a, b);
        } else {
            lemma_lex_total(a, b);
        }
    }
}

/// Equal keys come from equal strings.
pub proof fn lemma_text_key_injective(a: Seq<char>, b: Seq<char>)
    requires
        text_key(a) == text_key(b),
    ensures
        a == b,
{
    assert(a.len() == text_key(a).len());
    assert(b.len() == text_key(b).len());
    assert forall|i: int| 0 <= i < a.len() implies a[i] == b[i] by {
        assert(text_key(a)[i] == a[i] as int);
        assert(text_key(b)[i] == b[i] as int);
    }
    assert(a =~= b);
}

/// Whether `a` comes before `b`.
pub fn str_before(a: &str, b: &str) -> (r: bool)
    ensures
        r == text_lt(a@, b@),
{
    let x = chars_of(a);
    let y = chars_of(b);
    let mut i: usize = 0;
    assert(text_key(x@).skip(0) =~= text_key(x@));
    assert(text_key(y@).skip(0) =~= text_key(y@));
    while i < x.len() && i < y.len()
        invariant
            i <= x@.len(),
            i <= y@.len(),
            x@ == a@,
            y@ == b@,
            lex_lt(text_key(x@).skip(i as int), text_key(y@).skip(i as int)) == text_lt(a@, b@),
        decreases x@.len() - i,
    {
        let ghost p = text_key(x@).skip(i as int);
        let ghost q = text_key(y@).skip(i as int);
        assert(p[0] == x@[i as int] as int);
        assert(q[0] == y@[i as int] as int);
        if x[i] != y[i] {
            return x[i] < y[i];
        }
        assert(p.drop_first() =~= text_key(x@).skip(i + 1));
        assert(q.drop_first() =~= text_key(y@).skip(i + 1));
        i += 1;
    }
    i < y.len()
}

/// Values that sort by a key.
pub trait Keyed: Sized {
    /// What the value sorts by.
    spec fn key(&self) -> Seq<int>;

    /// Whether this value's key comes before the other's.
    fn before(&self, other: &Self) -> (r: bool)
        ensures
            r == lex_lt(self.key(), other.key()),
    ;
}

/// No element comes before one to its left.
pub open spec fn sorted<T: Keyed>(s: Seq<T>) -> bool {
    forall|i: int, j: int| 0 <= i < j < s.len() ==> lex_le(#[trigger] s[i].key(), #[trigger] s[j].key())
}

/// The values of key `k`.
pub open spec fn has_key<T: Keyed>(k: Seq<int>) -> spec_fn(T) -> bool {
    |t: T| t.key() == k
}

/// The elements of `s` with key `k`, in order.
pub open spec fn with_key<T: Keyed>(s: Seq<T>, k: Seq<int>) -> Seq<T> {
    s.filter(has_key(k))
}

/// `out` is `s` sorted, with elements of equal key kept in their order.
///
/// This determines `out`: its keys are those of `s` in order, and what stands
/// under each key is what stood under it in `s`.
pub open spec fn stably_sorted<T: Keyed>(s: Seq<T>, out: Seq<T>) -> bool {
    &&& sorted(out)
    &&& out.len() == s.len()
    &&& forall|k: Seq<int>| #[trigger] with_key(out, k) == with_key(s, k)
}

proof fn lemma_swap_keeps_order<T: Keyed>(s: Seq<T>, j: int, k: Seq<int>)
    requires
        0 < j < s.len(),
        s[j - 1].key() != s[j].key(),
    ensures
        with_key(s.update(j - 1, s[j]).update(j, s[j - 1]), k) == with_key(s, k),
{
    let p = has_key::<T>(k);
    let a = s.take(j - 1);
    let x = s[j - 1];
    let y = s[j];
    let b = s.skip(j + 1);
    let t = s.update(j - 1, y).update(j, x);
    assert(s =~= a + seq![x, y] + b);
    assert(t =~= a + seq![y, x] + b);
    Seq::filter_distributes_over_add(a + seq![x, y], b, p);
    Seq::filter_distributes_over_add(a, seq![x, y], p);
    Seq::filter_distributes_over_add(a + seq![y, x], b, p);
    Seq::filter_distributes_over_add(a, seq![y, x], p);
    let e = Seq::<T>::empty();
    assert(seq![x, y] =~= e.push(x).push(y));
    assert(seq![y, x] =~= e.push(y).push(x));
    e.lemma_filter_push(x, p);
    e.lemma_filter_push(y, p);
    e.push(x).lemma_filter_push(y, p);
    e.push(y).lemma_filter_push(x, p);
    assert(seq![x, y].filter(p) =~= seq![y, x].filter(p));
}

/// Sort in place, keeping elements of equal key in their order.
pub fn sort_stably<T: Keyed>(v: &mut Vec<T>)
    ensures
        stably_sorted(old(v)@, final(v)@),
{
    let n: usize = v.len();
    let mut i: usize = 0;
    while i < n
        invariant
            i <= n,
            n == v@.len(),
            n == old(v)@.len(),
            sorted(v@.take(i as int)),
            forall|k: Seq<int>| #[trigger] with_key(v@, k) == with_key(old(v)@, k),
        decreases n - i,
    {
        let mut j: usize = i;
        proof {
            assert forall|a: int, b: int| 0 <= a < b < i implies lex_le(
                #[trigger] v@[a].key(),
                #[trigger] v@[b].key(),
            ) by {
                assert(v@.take(i as int)[a] == v@[a]);
                assert(v@.take(i as int)[b] == v@[b]);
            }
        }
        // Everything up to `i` is in order but for the element at `j`.
        while j > 0 && v[j].before(&v[j - 1])
            invariant
                j <= i < n,
                n == v@.len(),
                n == old(v)@.len(),
                forall|a: int, b: int|
                    0 <= a < b <= i && b != j ==> lex_le(#[trigger] v@[a].key(), #[trigger] v@[b].key()),
                forall|k: Seq<int>| #[trigger] with_key(v@, k) == with_key(old(v)@, k),
            decreases j,
        {
            let ghost before = v@;
            let x = v.remove(j - 1);
            v.insert(j, x);
            proof {
                let p = before[j - 1].key();
                let q = before[j as int].key();
                lemma_lex_irreflexive(p);
                assert(v@ =~= before.update(j - 1, before[j as int]).update(j as int, before[j - 1]));
                assert forall|k: Seq<int>| #[trigger] with_key(v@, k) == with_key(old(v)@, k) by {
                    lemma_swap_keeps_order(before, j as int, k);
                    assert(with_key(before, k) == with_key(old(v)@, k));
                }
                assert forall|a: int, b: int| 0 <= a < b <= i && b != j - 1 implies lex_le(
                    #[trigger] v@[a].key(),
                    #[trigger] v@[b].key(),
                ) by {
                    if b == j {
                        if a == j - 1 {
                            // The pair just exchanged.
                            if lex_lt(p, q) {
                                lemma_lex_transitive(p, q, p);
                            }
                        } else {
                            assert(v@[a] == before[a]);
                            assert(v@[b] == before[j - 1]);
                        }
                    } else if a == j - 1 {
                        assert(v@[a] == before[j as int]);
                        assert(v@[b] == before[b]);
                    } else if a == j {
                        assert(v@[a] == before[j - 1]);
                        assert(v@[b] == before[b]);
                    } else {
                        assert(v@[a] == before[a]);
                        assert(v@[b] == before[b]);
                    }
                }
            }
            j -= 1;
        }
        proof {
            assert forall|a: int, b: int| 0 <= a < b <= i implies lex_le(
                #[trigger] v@[a].key(),
                #[trigger] v@[b].key(),
            ) by {
                if b == j && a < j - 1 {
                    lemma_lex_le_transitive(v@[a].key(), v@[j - 1].key(), v@[j as int].key());
                }
            }
            assert forall|a: int, b: int| 0 <= a < b < i + 1 implies lex_le(
                #[trigger] v@.take(i + 1)[a].key(),
                #[trigger] v@.take(i + 1)[b].key(),
            ) by {
                assert(v@.take(i + 1)[a] == v@[a]);
                assert(v@.take(i + 1)[b] == v@[b]);
            }
        }
        i += 1;
    }
    assert(v@.take(n as int) =~= v@);
}

/// No two elements share a key.
pub open spec fn distinct_keys<T: Keyed>(s: Seq<T>) -> bool {
    forall|i: int, j: int| 0 <= i < j < s.len() ==> #[trigger] s[i].key() != #[trigger] s[j].key()
}

proof fn lemma_at_most_one<T: Keyed>(s: Seq<T>, k: Seq<int>)
    requires
        distinct_keys(s),
    ensures
        with_key(s, k).len() <= 1,
        with_key(s, k).len() == 1 ==> exists|i: int| 0 <= i < s.len() && #[trigger] s[i].key() == k,
    decreases s.len(),
{
    if s.len() == 0 {
        reveal(Seq::filter);
    } else {
        let t = s.drop_last();
        assert forall|i: int, j: int| 0 <= i < j < t.len() implies #[trigger] t[i].key()
            != #[trigger] t[j].key() by {
            assert(t[i] == s[i] && t[j] == s[j]);
        }
        lemma_at_most_one(t, k);
        assert(s =~= t.push(s.last()));
        t.lemma_filter_push(s.last(), has_key(k));
        if s.last().key() == k {
            assert(s[s.len() - 1].key() == k);
            if with_key(t, k).len() == 1 {
                let i = choose|i: int| 0 <= i < t.len() && #[trigger] t[i].key() == k;
                assert(s[i].key() == k);
            }
        } else if with_key(t, k).len() == 1 {
            let i = choose|i: int| 0 <= i < t.len() && #[trigger] t[i].key() == k;
            assert(s[i].key() == k);
        }
    }
}

proof fn lemma_at_least_two<T: Keyed>(s: Seq<T>, i: int, j: int)
    requires
        0 <= i < j < s.len(),
        s[i].key() == s[j].key(),
    ensures
        with_key(s, s[i].key()).len() >= 2,
{
    let p = has_key::<T>(s[i].key());
    let a = s.take(j);
    let b = s.skip(j);
    assert(s =~= a + b);
    Seq::filter_distributes_over_add(a, b, p);
    assert(a[i] == s[i]);
    assert(b[0] == s[j]);
    a.lemma_filter_contains(p, i);
    b.lemma_filter_contains(p, 0);
}

/// Sorting keeps keys distinct.
pub proof fn lemma_sort_keeps_distinct<T: Keyed>(s: Seq<T>, out: Seq<T>)
    requires
        stably_sorted(s, out),
        distinct_keys(s),
    ensures
        distinct_keys(out),
{
    assert forall|i: int, j: int| 0 <= i < j < out.len() implies #[trigger] out[i].key()
        != #[trigger] out[j].key() by {
        if out[i].key() == out[j].key() {
            let k = out[i].key();
            lemma_at_least_two(out, i, j);
            lemma_at_most_one(s, k);
            assert(with_key(out, k) == with_key(s, k));
        }
    }
}

/// Sorting keeps the elements.
pub proof fn lemma_sort_keeps_elements<T: Keyed>(s: Seq<T>, out: Seq<T>, x: T)
    requires
        stably_sorted(s, out),
    ensures
        s.contains(x) == out.contains(x),
{
    let p = has_key::<T>(x.key());
    assert(with_key(out, x.key()) == with_key(s, x.key()));
    if s.contains(x) {
        let i = choose|i: int| 0 <= i < s.len() && s[i] == x;
        s.lemma_filter_contains(p, i);
        out.lemma_filter_contains_rev(p, x);
    }
    if out.contains(x) {
        let i = choose|i: int| 0 <= i < out.len() && out[i] == x;
        out.lemma_filter_contains(p, i);
        s.lemma_filter_contains_rev(p, x);
    }
}

proof fn lemma_first_of_key<T: Keyed>(s: Seq<T>, k: Seq<int>)
    requires
        s.len() > 0,
    ensures
        with_key(s, k) == (if s[0].key() == k {
            seq![s[0]]
        } else {
            seq![]
        }) + with_key(s.drop_first(), k),
{
    let p = has_key::<T>(k);
    assert(s =~= seq![s[0]] + s.drop_first());
    Seq::filter_distributes_over_add(seq![s[0]], s.drop_first(), p);
    let e = Seq::<T>::empty();
    assert(seq![s[0]] =~= e.push(s[0]));
    e.lemma_filter_push(s[0], p);
    assert(e.filter(p) =~= e);
    assert(e.push(s[0]) =~= seq![s[0]]);
}

/// A list has one stable sort: two sorted lists that agree under every key are
/// the same list.
pub proof fn law_stable_sort_is_unique<T: Keyed>(a: Seq<T>, b: Seq<T>)
    requires
        sorted(a),
        sorted(b),
        forall|k: Seq<int>| #[trigger] with_key(a, k) == with_key(b, k),
    ensures
        a == b,
    decreases a.len(),
{
    if a.len() == 0 || b.len() == 0 {
        if a.len() > 0 {
            a.lemma_filter_contains(has_key(a[0].key()), 0);
            assert(with_key(a, a[0].key()) == with_key(b, a[0].key()));
            b.lemma_filter_len(has_key(a[0].key()));
        }
        if b.len() > 0 {
            b.lemma_filter_contains(has_key(b[0].key()), 0);
            assert(with_key(a, b[0].key()) == with_key(b, b[0].key()));
            a.lemma_filter_len(has_key(b[0].key()));
        }
        assert(a =~= b);
    } else {
        lemma_head_is_least(a, b);
        lemma_head_is_least(b, a);
        lemma_lex_total(a[0].key(), b[0].key());
        let k0 = a[0].key();
        lemma_first_of_key(a, k0);
        lemma_first_of_key(b, k0);
        assert(with_key(a, k0) == with_key(b, k0));
        assert(with_key(a, k0)[0] == a[0]);
        assert(with_key(b, k0)[0] == b[0]);
        let ta = a.drop_first();
        let tb = b.drop_first();
        assert forall|k: Seq<int>| #[trigger] with_key(ta, k) == with_key(tb, k) by {
            lemma_first_of_key(a, k);
            lemma_first_of_key(b, k);
            assert(with_key(a, k) == with_key(b, k));
            if k == k0 {
                assert(with_key(ta, k) =~= with_key(a, k).drop_first());
                assert(with_key(tb, k) =~= with_key(b, k).drop_first());
            } else {
                assert(with_key(ta, k) =~= with_key(a, k));
                assert(with_key(tb, k) =~= with_key(b, k));
            }
        }
        assert forall|i: int, j: int| 0 <= i < j < ta.len() implies lex_le(
            #[trigger] ta[i].key(),
            #[trigger] ta[j].key(),
        ) by {
            assert(ta[i] == a[i + 1] && ta[j] == a[j + 1]);
        }
        assert forall|i: int, j: int| 0 <= i < j < tb.len() implies lex_le(
            #[trigger] tb[i].key(),
            #[trigger] tb[j].key(),
        ) by {
            assert(tb[i] == b[i + 1] && tb[j] == b[j + 1]);
        }
        law_stable_sort_is_unique(ta, tb);
        assert(a =~= seq![a[0]] + ta);
        assert(b =~= seq![b[0]] + tb);
    }
}

proof fn lemma_head_is_least<T: Keyed>(a: Seq<T>, b: Seq<T>)
    requires
        a.len() > 0,
        b.len() > 0,
        sorted(a),
        forall|k: Seq<int>| #[trigger] with_key(a, k) == with_key(b, k),
    ensures
        lex_le(a[0].key(), b[0].key()),
{
    let k = b[0].key();
    let p = has_key::<T>(k);
    b.lemma_filter_contains(p, 0);
    assert(with_key(a, k) == with_key(b, k));
    a.lemma_filter_contains_rev(p, b[0]);
    let i = choose|i: int| 0 <= i < a.len() && a[i] == b[0];
    if i > 0 {
        assert(lex_le(a[0].key(), a[i].key()));
    } else {
        lemma_lex_irreflexive(k);
    }
}

/// Texts are ordered by the first character in which they differ, and a text
/// comes before every longer one that starts with it.
pub proof fn law_the_first_difference_decides(a: Seq<char>, b: Seq<char>, i: int)
    requires
        0 <= i <= a.len(),
        i < b.len(),
        forall|k: int| 0 <= k < i ==> a[k] == b[k],
        i == a.len() || (a[i] as int) < (b[i] as int),
    ensures
        text_lt(a, b),
        !text_lt(b, a),
    decreases i,
{
    let (x, y) = (text_key(a), text_key(b));
    if i > 0 {
        let (c, d) = (a.drop_first(), b.drop_first());
        assert forall|k: int| 0 <= k < i - 1 implies c[k] == d[k] by {
            assert(a[k + 1] == b[k + 1]);
        }
        law_the_first_difference_decides(c, d, i - 1);
        assert(x.drop_first() =~= text_key(c));
        assert(y.drop_first() =~= text_key(d));
        assert(x[0] == y[0]);
    } else if a.len() > 0 {
        assert(x[0] < y[0]);
    }
}

/// A stable sort loses nothing, adds nothing, puts nothing out of order, and
/// keeps what carries one key in the order it had.
pub proof fn law_sorting_only_reorders<T: Keyed>(s: Seq<T>, out: Seq<T>, x: T, i: int, j: int)
    requires
        stably_sorted(s, out),
    ensures
        s.contains(x) == out.contains(x),
        0 <= i < j < out.len() ==> !lex_lt(out[j].key(), out[i].key()),
        s.filter(|t: T| t.key() == x.key()) == out.filter(|t: T| t.key() == x.key()),
{
    lemma_sort_keeps_elements(s, out, x);
    if 0 <= i < j < out.len() {
        assert(lex_le(out[i].key(), out[j].key()));
    }
    let same = |t: T| t.key() == x.key();
    assert(same =~= has_key::<T>(x.key()));
    assert(with_key(s, x.key()) == with_key(out, x.key()));
}

}
