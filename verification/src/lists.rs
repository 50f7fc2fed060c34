//! Lists of values and their views.
use vstd::prelude::*;

verus! {

/// The views of the items of a list.
pub open spec fn views<T: View>(v: Seq<T>) -> Seq<T::V> {
    v.map_values(|x: T| x@)
}

/// The views of a list with one more item.
pub broadcast proof fn views_push<T: View>(v: Seq<T>, x: T)
    ensures
        #[trigger] views(v.push(x)) == views(v).push(x@),
{
    assert(views(v.push(x)) =~= views(v).push(x@));
}

/// The first `i + 1` items are the first `i` and the next one.
pub proof fn take_next<A>(s: Seq<A>, i: int)
    requires
        0 <= i < s.len(),
    ensures
        s.take(i + 1) == s.take(i).push(s[i]),
{
    assert(s.take(i + 1) =~= s.take(i).push(s[i]));
}

/// All items together are the list.
pub proof fn take_all<A>(s: Seq<A>)
    ensures
        s.take(s.len() as int) == s,
{
    assert(s.take(s.len() as int) =~= s);
}

/// Filtering by a test on views and taking views can be done in either order.
pub proof fn views_of_filtered<T: View>(s: Seq<T>, p: spec_fn(T::V) -> bool)
    ensures
        views(s.filter(|x: T| p(x@))) == views(s).filter(p),
    decreases s.len(),
{
    reveal(Seq::filter);
    let q = |x: T| p(x@);
    if s.len() > 0 {
        views_of_filtered(s.drop_last(), p);
        assert(views(s).drop_last() =~= views(s.drop_last()));
        views_push(s.drop_last().filter(q), s.last());
    } else {
        assert(views(s.filter(q)) =~= views(s).filter(p));
    }
}

// ── Laws ─────────────────────────────────────────────────────────────────────

/// Where the first item passes a test, it is the first that does.
pub proof fn filter_keeps_first<A>(s: Seq<A>, p: spec_fn(A) -> bool)
    ensures
        s.len() > 0 && p(s[0]) ==> s.filter(p).len() > 0 && s.filter(p)[0] == s[0],
    decreases s.len(),
{
    reveal(Seq::filter);
    if s.len() > 1 {
        filter_keeps_first(s.drop_last(), p);
    } else if s.len() == 1 {
        assert(s.drop_last().filter(p) =~= Seq::empty());
    }
}

/// Where all items pass a test, all are left.
pub proof fn filter_of_all<A>(s: Seq<A>, p: spec_fn(A) -> bool)
    requires
        forall|i: int| 0 <= i < s.len() ==> p(#[trigger] s[i]),
    ensures
        s.filter(p) == s,
    decreases s.len(),
{
    reveal(Seq::filter);
    if s.len() > 0 {
        let a = s.drop_last();
        assert forall|i: int| 0 <= i < a.len() implies p(#[trigger] a[i]) by {
            assert(p(s[i]));
        }
        filter_of_all(a, p);
        assert(p(s[s.len() - 1]));
        assert(a.push(s.last()) =~= s);
    } else {
        assert(s.filter(p) =~= s);
    }
}

/// Where an item stands that passes a test among those that do.
pub proof fn index_after_filter<A>(s: Seq<A>, p: spec_fn(A) -> bool, i: int) -> (k: int)
    requires
        0 <= i < s.len(),
        p(s[i]),
    ensures
        k == s.take(i).filter(p).len(),
        0 <= k < s.filter(p).len(),
        s.filter(p)[k] == s[i],
        s.filter(p).take(k) == s.take(i).filter(p),
{
    let k = s.take(i).filter(p).len() as int;
    take_next(s, i);
    s.take(i).lemma_filter_push(s[i], p);
    let front = s.take(i + 1);
    let back = s.skip(i + 1);
    assert(s =~= front + back);
    Seq::filter_distributes_over_add(front, back, p);
    assert(s.filter(p) == front.filter(p) + back.filter(p));
    assert(front.filter(p) == s.take(i).filter(p).push(s[i]));
    assert(s.filter(p).take(k) =~= s.take(i).filter(p));
    k
}

/// An item that stands before another among those that pass a test stands before it in the list.
pub proof fn index_before_filter<A>(s: Seq<A>, p: spec_fn(A) -> bool, i: int, j: int) -> (m: int)
    requires
        0 <= i < s.len(),
        p(s[i]),
        0 <= j < s.take(i).filter(p).len(),
    ensures
        0 <= m < i,
        s[m] == s.filter(p)[j],
        p(s[m]),
{
    broadcast use vstd::seq_lib::group_filter_ensures;

    let k = index_after_filter(s, p, i);
    let f = s.take(i).filter(p);
    assert(s.filter(p).take(k)[j] == s.filter(p)[j]);
    assert(f[j] == s.filter(p)[j]);
    assert(f.contains(f[j]));
    s.take(i).lemma_filter_contains_rev(p, f[j]);
    let m = choose|m: int| 0 <= m < s.take(i).len() && s.take(i)[m] == f[j];
    assert(s.take(i)[m] == s[m]);
    assert(p(f[j]));
    m
}

/// What is left after a test is what was there and passes it.
pub proof fn filter_holds<A>(s: Seq<A>, p: spec_fn(A) -> bool, x: A)
    ensures
        s.filter(p).contains(x) <==> s.contains(x) && p(x),
{
    broadcast use vstd::seq_lib::group_filter_ensures;

    let f = s.filter(p);
    if f.contains(x) {
        s.lemma_filter_contains_rev(p, x);
        let i = choose|i: int| 0 <= i < f.len() && f[i] == x;
        assert(p(f[i]));
    }
    if s.contains(x) && p(x) {
        let i = choose|i: int| 0 <= i < s.len() && s[i] == x;
        assert(f.contains(s[i]));
    }
}

/// Where no item passes a test, none is left.
pub proof fn filter_of_none<A>(s: Seq<A>, p: spec_fn(A) -> bool)
    requires
        forall|i: int| 0 <= i < s.len() ==> !p(#[trigger] s[i]),
    ensures
        s.filter(p).len() == 0,
    decreases s.len(),
{
    reveal(Seq::filter);
    if s.len() > 0 {
        let a = s.drop_last();
        assert forall|i: int| 0 <= i < a.len() implies !p(#[trigger] a[i]) by {
            assert(!p(s[i]));
        }
        filter_of_none(a, p);
        assert(!p(s[s.len() - 1]));
    }
}

/// No more is left after a test than there was.
pub proof fn filter_is_no_longer<A>(s: Seq<A>, p: spec_fn(A) -> bool)
    ensures
        s.filter(p).len() <= s.len(),
{
    broadcast use vstd::seq_lib::group_filter_ensures;

}

} // verus!
