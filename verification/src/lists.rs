//! Searching and thinning lists.

use vstd::prelude::*;

verus! {

/// The position of the first item that `p` accepts; the length if there is none.
pub open spec fn position<A>(s: Seq<A>, p: spec_fn(A) -> bool) -> nat
    decreases s.len(),
{
    if s.len() == 0 || p(s[0]) {
        0
    } else {
        1 + position(s.skip(1), p)
    }
}

/// The first item that `p` accepts.
pub open spec fn first<A>(s: Seq<A>, p: spec_fn(A) -> bool) -> Option<A> {
    if position(s, p) < s.len() {
        Some(s[position(s, p) as int])
    } else {
        None
    }
}

/// The first position that `p` accepts is the one behind which it has rejected
/// everything.
pub proof fn lemma_position<A>(s: Seq<A>, p: spec_fn(A) -> bool)
    ensures
        position(s, p) <= s.len(),
        forall|i: int| 0 <= i < position(s, p) ==> !p(#[trigger] s[i]),
        position(s, p) < s.len() ==> p(s[position(s, p) as int]),
    decreases s.len(),
{
    if s.len() > 0 && !p(s[0]) {
        lemma_position(s.skip(1), p);
        assert forall|i: int| 0 <= i < position(s, p) implies !p(#[trigger] s[i]) by {
            if i > 0 {
                assert(s.skip(1)[i - 1] == s[i]);
            }
        }
        if position(s, p) < s.len() {
            assert(s.skip(1)[position(s.skip(1), p) as int] == s[position(s, p) as int]);
        }
    }
}

/// A position that `p` accepts, with none before it, is the first.
pub proof fn lemma_position_is<A>(s: Seq<A>, p: spec_fn(A) -> bool, n: int)
    requires
        0 <= n <= s.len(),
        forall|i: int| 0 <= i < n ==> !p(#[trigger] s[i]),
        n < s.len() ==> p(s[n]),
    ensures
        position(s, p) == n,
{
    lemma_position(s, p);
}

/// A filter leaves something exactly if its predicate accepts some item.
pub proof fn lemma_filter_finds<A>(s: Seq<A>, p: spec_fn(A) -> bool)
    ensures
        s.filter(p).len() > 0 <==> position(s, p) < s.len(),
{
    lemma_position(s, p);
    if position(s, p) < s.len() {
        s.lemma_filter_contains(p, position(s, p) as int);
    }
    if s.filter(p).len() > 0 {
        let x = s.filter(p)[0];
        assert(s.filter(p).contains(x));
        s.lemma_filter_contains_rev(p, x);
        s.lemma_filter_pred(p, 0);
    }
}

/// A filter that accepts every item drops nothing.
pub proof fn lemma_filter_all<A>(s: Seq<A>, p: spec_fn(A) -> bool)
    requires
        forall|i: int| 0 <= i < s.len() ==> p(#[trigger] s[i]),
    ensures
        s.filter(p) == s,
    decreases s.len(),
{
    reveal(Seq::filter);
    if s.len() > 0 {
        let t = s.drop_last();
        assert forall|i: int| 0 <= i < t.len() implies p(#[trigger] t[i]) by {
            assert(t[i] == s[i]);
        }
        lemma_filter_all(t, p);
        assert(s =~= t.push(s.last()));
    } else {
        assert(s.filter(p) =~= s);
    }
}

/// Filtering with one item more at the end.
pub proof fn lemma_filter_push<A>(s: Seq<A>, a: A, p: spec_fn(A) -> bool)
    ensures
        s.push(a).filter(p) == (if p(a) {
            s.filter(p).push(a)
        } else {
            s.filter(p)
        }),
{
    reveal(Seq::filter);
    assert(s.push(a).drop_last() =~= s);
}

/// A filter keeps the order: two items of the result stood in that order before.
pub proof fn lemma_filter_order<A>(s: Seq<A>, p: spec_fn(A) -> bool, i: int, j: int)
    requires
        0 <= i < j < s.filter(p).len(),
    ensures
        exists|k: int, l: int|
            0 <= k < l < s.len() && #[trigger] s[k] == s.filter(p)[i] && #[trigger] s[l]
                == s.filter(p)[j],
    decreases s.len(),
{
    reveal(Seq::filter);
    let t = s.drop_last();
    if p(s.last()) && j == t.filter(p).len() {
        let x = t.filter(p)[i];
        assert(t.filter(p).contains(x));
        t.lemma_filter_contains_rev(p, x);
        let k = choose|k: int| 0 <= k < t.len() && t[k] == x;
        assert(s[k] == s.filter(p)[i] && s[s.len() - 1] == s.filter(p)[j]);
    } else {
        lemma_filter_order(t, p, i, j);
        let (k, l) = choose|k: int, l: int|
            0 <= k < l < t.len() && #[trigger] t[k] == t.filter(p)[i] && #[trigger] t[l]
                == t.filter(p)[j];
        assert(s[k] == s.filter(p)[i] && s[l] == s.filter(p)[j]);
    }
}

/// An item of a filter's result passed the filter and stood in the list.
pub proof fn lemma_filter_item<A>(s: Seq<A>, p: spec_fn(A) -> bool, i: int)
    requires
        0 <= i < s.filter(p).len(),
    ensures
        p(s.filter(p)[i]),
        s.contains(s.filter(p)[i]),
{
    s.lemma_filter_pred(p, i);
    assert(s.filter(p).contains(s.filter(p)[i]));
    s.lemma_filter_contains_rev(p, s.filter(p)[i]);
}

/// What an item is mapped to stands in the mapped list.
pub proof fn lemma_filter_map_keeps<A, B>(s: Seq<A>, f: spec_fn(A) -> Option<B>, i: int)
    requires
        0 <= i < s.len(),
        f(s[i]) is Some,
    ensures
        s.filter_map(f).contains(f(s[i])->0),
    decreases s.len(),
{
    s.lemma_filter_map_take_succ(f, s.len() - 1);
    let t = s.take(s.len() - 1);
    assert(s.take(s.len() as int) =~= s);
    let b = f(s[i])->0;
    if i == s.len() - 1 {
        assert(s.filter_map(f).last() == b);
    } else {
        assert(t[i] == s[i]);
        lemma_filter_map_keeps(t, f, i);
        let k = choose|k: int| 0 <= k < t.filter_map(f).len() && t.filter_map(f)[k] == b;
        assert(s.filter_map(f)[k] == b);
    }
}

/// Mapping and then filtering is mapping what the filter would keep.
pub proof fn lemma_filter_of_filter_map<A, B>(
    s: Seq<A>,
    f: spec_fn(A) -> Option<B>,
    q: spec_fn(B) -> bool,
    g: spec_fn(A) -> Option<B>,
)
    requires
        forall|i: int|
            0 <= i < s.len() ==> g(#[trigger] s[i]) == (match f(s[i]) {
                Some(b) => if q(b) {
                    Some(b)
                } else {
                    None
                },
                None => None,
            }),
    ensures
        s.filter_map(f).filter(q) == s.filter_map(g),
    decreases s.len(),
{
    if s.len() > 0 {
        let t = s.take(s.len() - 1);
        assert forall|i: int| 0 <= i < t.len() implies g(#[trigger] t[i]) == (match f(t[i]) {
            Some(b) => if q(b) {
                Some(b)
            } else {
                None
            },
            None => None,
        }) by {
            assert(t[i] == s[i]);
        }
        lemma_filter_of_filter_map(t, f, q, g);
        s.lemma_filter_map_take_succ(f, s.len() - 1);
        s.lemma_filter_map_take_succ(g, s.len() - 1);
        assert(s.take(s.len() as int) =~= s);
        let a = s[s.len() - 1];
        if let Some(b) = f(a) {
            lemma_filter_push(t.filter_map(f), b, q);
            assert(s.filter_map(f) =~= t.filter_map(f).push(b));
            if q(b) {
                assert(s.filter_map(g) =~= t.filter_map(g).push(b));
            }
        }
    } else {
        reveal(Seq::filter);
        assert(s.filter_map(f).len() == 0 && s.filter_map(g).len() == 0) by {
            reveal(Seq::filter_map);
        }
        assert(s.filter_map(f).filter(q) =~= s.filter_map(g));
    }
}

/// What a filter leaves begins with the first item that it accepts.
pub proof fn lemma_filter_first<A>(s: Seq<A>, p: spec_fn(A) -> bool)
    requires
        position(s, p) < s.len(),
    ensures
        s.filter(p).len() > 0,
        s.filter(p)[0] == s[position(s, p) as int],
    decreases s.len(),
{
    lemma_filter_finds(s, p);
    lemma_position(s, p);
    let n = position(s, p) as int;
    let t = s.drop_last();
    assert(s =~= t.push(s.last()));
    lemma_filter_push(t, s.last(), p);
    if n < t.len() {
        assert forall|i: int| 0 <= i < n implies !p(#[trigger] t[i]) by {
            assert(t[i] == s[i]);
        }
        lemma_position_is(t, p, n);
        lemma_filter_first(t, p);
    } else {
        assert forall|i: int| 0 <= i < t.len() implies !p(#[trigger] t[i]) by {
            assert(t[i] == s[i]);
        }
        lemma_position_is(t, p, t.len() as int);
        lemma_filter_finds(t, p);
    }
}

/// Two mappings that agree on every item of a list give the same.
pub proof fn lemma_filter_map_same<A, B>(
    s: Seq<A>,
    f: spec_fn(A) -> Option<B>,
    g: spec_fn(A) -> Option<B>,
)
    requires
        forall|i: int| 0 <= i < s.len() ==> f(#[trigger] s[i]) == g(s[i]),
    ensures
        s.filter_map(f) == s.filter_map(g),
{
    let q = |b: B| true;
    lemma_filter_of_filter_map(s, f, q, g);
    lemma_filter_all(s.filter_map(f), q);
}

/// Mapping that may drop items is mapping those that are not dropped.
pub proof fn lemma_filter_map_is<A, B>(
    s: Seq<A>,
    f: spec_fn(A) -> Option<B>,
    p: spec_fn(A) -> bool,
    h: spec_fn(A) -> B,
)
    requires
        forall|i: int|
            0 <= i < s.len() ==> f(#[trigger] s[i]) == (if p(s[i]) {
                Some(h(s[i]))
            } else {
                None
            }),
    ensures
        s.filter_map(f) == s.filter(p).map_values(h),
    decreases s.len(),
{
    reveal(Seq::filter);
    if s.len() > 0 {
        let t = s.take(s.len() - 1);
        assert forall|i: int| 0 <= i < t.len() implies f(#[trigger] t[i]) == (if p(t[i]) {
            Some(h(t[i]))
        } else {
            None
        }) by {
            assert(t[i] == s[i]);
        }
        lemma_filter_map_is(t, f, p, h);
        s.lemma_filter_map_take_succ(f, s.len() - 1);
        assert(s.take(s.len() as int) =~= s);
        assert(s.drop_last() =~= t);
        assert(s.filter_map(f) =~= s.filter(p).map_values(h));
    } else {
        reveal(Seq::filter_map);
        assert(s.filter_map(f) =~= s.filter(p).map_values(h));
    }
}

/// A filter that accepts exactly one position leaves that item.
pub proof fn lemma_filter_one<A>(s: Seq<A>, p: spec_fn(A) -> bool, k: int)
    requires
        0 <= k < s.len(),
        forall|i: int| 0 <= i < s.len() ==> (p(#[trigger] s[i]) <==> i == k),
    ensures
        s.filter(p) == seq![s[k]],
    decreases s.len(),
{
    let t = s.drop_last();
    assert(s =~= t.push(s.last()));
    lemma_filter_push(t, s.last(), p);
    assert forall|i: int| 0 <= i < t.len() implies (p(#[trigger] t[i]) <==> i == k) by {
        assert(t[i] == s[i]);
    }
    if k == t.len() {
        lemma_filter_finds(t, p);
        lemma_position(t, p);
        if t.filter(p).len() > 0 {
            assert(p(t[position(t, p) as int]));
        }
        assert(s.filter(p) =~= seq![s[k]]);
    } else {
        lemma_filter_one(t, p, k);
        assert(p(s[s.len() - 1]) <==> s.len() - 1 == k);
    }
}

/// The first item that `keep` accepts, by its position.
pub(crate) fn find_position<T: DeepView, F: Fn(&T) -> bool>(
    v: &Vec<T>,
    keep: F,
    Ghost(p): Ghost<spec_fn(T::V) -> bool>,
) -> (r: usize)
    requires
        forall|t: &T| call_requires(keep, (t,)),
        forall|t: &T, b: bool| call_ensures(keep, (t,), b) ==> b == p(t.deep_view()),
    ensures
        r == position(v.deep_view(), p),
        r <= v@.len(),
        r < v@.len() ==> p(v@[r as int].deep_view()),
{
    let mut i: usize = 0;
    let ghost m = v.deep_view();
    while i < v.len()
        invariant
            i <= v@.len(),
            m == v.deep_view(),
            forall|j: int| 0 <= j < i ==> !p(#[trigger] m[j]),
            forall|t: &T| call_requires(keep, (t,)),
            forall|t: &T, b: bool| call_ensures(keep, (t,), b) ==> b == p(t.deep_view()),
        decreases v@.len() - i,
    {
        assert(m[i as int] == v@[i as int].deep_view());
        if keep(&v[i]) {
            proof {
                lemma_position_is(m, p, i as int);
            }
            return i;
        }
        i += 1;
    }
    proof {
        lemma_position_is(m, p, i as int);
    }
    i
}

/// Drops the items that `keep` rejects.
pub(crate) fn retain<T: DeepView, F: Fn(&T) -> bool>(
    v: &mut Vec<T>,
    keep: F,
    Ghost(p): Ghost<spec_fn(T::V) -> bool>,
)
    requires
        forall|t: &T| call_requires(keep, (t,)),
        forall|t: &T, b: bool| call_ensures(keep, (t,), b) ==> b == p(t.deep_view()),
    ensures
        final(v).deep_view() == old(v).deep_view().filter(p),
{
    let ghost all = v.deep_view();
    let ghost mut k: int = 0;
    let mut i: usize = 0;
    proof {
        reveal(Seq::filter);
        assert(v.deep_view().take(0) =~= all.take(0).filter(p));
        assert(v.deep_view().skip(0) =~= all.skip(0));
    }
    while i < v.len()
        invariant
            i <= v@.len(),
            0 <= k <= all.len(),
            v@.len() - i == all.len() - k,
            v.deep_view().take(i as int) == all.take(k).filter(p),
            v.deep_view().skip(i as int) == all.skip(k),
            forall|t: &T| call_requires(keep, (t,)),
            forall|t: &T, b: bool| call_ensures(keep, (t,), b) ==> b == p(t.deep_view()),
        decreases v@.len() - i,
    {
        let ghost now = v.deep_view();
        proof {
            assert(now.skip(i as int)[0] == now[i as int]);
            assert(all.skip(k)[0] == all[k]);
            assert(all.take(k + 1).drop_last() =~= all.take(k));
            assert(all.take(k + 1).last() == all[k]);
            reveal(Seq::filter);
        }
        if keep(&v[i]) {
            proof {
                assert(now.take(i + 1) =~= now.take(i as int).push(now[i as int]));
                assert(now.skip(i + 1) =~= now.skip(i as int).skip(1));
                assert(all.skip(k + 1) =~= all.skip(k).skip(1));
            }
            i += 1;
        } else {
            v.remove(i);
            proof {
                assert(v.deep_view() =~= now.remove(i as int));
                assert(v.deep_view().take(i as int) =~= now.take(i as int));
                assert(v.deep_view().skip(i as int) =~= now.skip(i as int).skip(1));
                assert(all.skip(k + 1) =~= all.skip(k).skip(1));
            }
        }
        proof {
            k = k + 1;
        }
    }
    proof {
        assert(all.take(k) =~= all);
        assert(v.deep_view().take(i as int) =~= v.deep_view());
    }
}

} // verus!
