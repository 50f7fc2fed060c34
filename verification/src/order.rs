//! Keeping, ordering and cutting lists.
use vstd::prelude::*;
use crate::text;
use crate::text::same;
use crate::time::Timestamp;

verus! {

/// A value together with the time that it is ordered by.
pub type Dated<T> = (Option<Timestamp>, T);

/// Whether `a` is older than `b`: no time is older than any time.
pub open spec fn older(a: Option<Timestamp>, b: Option<Timestamp>) -> bool {
    match (a, b) {
        (None, Some(_)) => true,
        (Some(x), Some(y)) => x.is_before(y),
        _ => false,
    }
}

/// Whether `a` is older than `b`.
pub fn is_older(a: Option<Timestamp>, b: Option<Timestamp>) -> (r: bool)
    ensures
        r == older(a, b),
{
    match (a, b) {
        (None, Some(_)) => true,
        (Some(x), Some(y)) => x.before(y),
        _ => false,
    }
}

/// The least index at or after `i` whose time is older than `k`, or the length.
pub open spec fn place_from<T>(s: Seq<Dated<T>>, k: Option<Timestamp>, i: int) -> int
    decreases s.len() - i,
{
    if i >= s.len() {
        s.len() as int
    } else if older(s[i].0, k) {
        i
    } else {
        place_from(s, k, i + 1)
    }
}

/// The list ordered by time, newest first; equal times keep their order.
pub open spec fn newest_first<T>(s: Seq<Dated<T>>) -> Seq<Dated<T>>
    decreases s.len(),
{
    if s.len() == 0 {
        s
    } else {
        let r = newest_first(s.drop_last());
        r.insert(place_from(r, s.last().0, 0), s.last())
    }
}

/// The values of a dated list.
pub open spec fn undated<T>(s: Seq<Dated<T>>) -> Seq<T> {
    s.map_values(|p: Dated<T>| p.1)
}

/// Whether no time is older than one behind it.
pub open spec fn falls<T>(s: Seq<Dated<T>>) -> bool {
    forall|i: int, j: int| 0 <= i < j < s.len() ==> !older(#[trigger] s[i].0, #[trigger] s[j].0)
}

/// The entries with one time.
pub open spec fn at_time<T>(s: Seq<Dated<T>>, k: Option<Timestamp>) -> Seq<Dated<T>> {
    s.filter(|p: Dated<T>| p.0 == k)
}

/// `place_from` finds the least older entry.
proof fn lemma_place<T>(s: Seq<Dated<T>>, k: Option<Timestamp>, i: int)
    requires
        0 <= i <= s.len(),
    ensures
        i <= place_from(s, k, i) <= s.len(),
        forall|j: int| i <= j < place_from(s, k, i) ==> !older(#[trigger] s[j].0, k),
        place_from(s, k, i) < s.len() ==> older(s[place_from(s, k, i)].0, k),
    decreases s.len() - i,
{
    if i < s.len() && !older(s[i].0, k) {
        lemma_place(s, k, i + 1);
    }
}

/// An ordered list has as many entries as the list, and no entry is older than one behind it.
pub proof fn newest_first_falls<T>(s: Seq<Dated<T>>)
    ensures
        newest_first(s).len() == s.len(),
        falls(newest_first(s)),
    decreases s.len(),
{
    if s.len() > 0 {
        let r = newest_first(s.drop_last());
        newest_first_falls(s.drop_last());
        lemma_place(r, s.last().0, 0);
        let p = place_from(r, s.last().0, 0);
        let t = r.insert(p, s.last());
        assert forall|i: int, j: int| 0 <= i < j < t.len() implies !older(
            #[trigger] t[i].0,
            #[trigger] t[j].0,
        ) by {
            if i == p {
                assert(t[j] == r[j - 1]);
                assert(older(r[p].0, s.last().0));
                assert(!older(r[p].0, r[j - 1].0) || p == j - 1);
            } else if j == p {
            } else {
                let a = if i < p { i } else { i - 1 };
                let b = if j < p { j } else { j - 1 };
                assert(t[i] == r[a] && t[j] == r[b]);
            }
        }
    }
}

/// Filtering a list with one entry put in.
proof fn lemma_filter_insert<T>(s: Seq<Dated<T>>, p: int, x: Dated<T>, k: Option<Timestamp>)
    requires
        0 <= p <= s.len(),
        x.0 == k ==> forall|j: int| p <= j < s.len() ==> #[trigger] s[j].0 != k,
    ensures
        at_time(s.insert(p, x), k) == (if x.0 == k {
            at_time(s, k).push(x)
        } else {
            at_time(s, k)
        }),
    decreases s.len(),
{
    reveal(Seq::filter);
    let f = |q: Dated<T>| q.0 == k;
    let t = s.insert(p, x);
    if p == s.len() {
        assert(t.drop_last() =~= s);
        assert(t.last() == x);
    } else {
        assert(t.drop_last() =~= s.drop_last().insert(p, x));
        assert(t.last() == s.last());
        lemma_filter_insert(s.drop_last(), p, x, k);
        assert(s[s.len() - 1] == s.last());
    }
}

/// Ordering keeps every entry, and entries with one time keep their order.
pub proof fn newest_first_is_stable<T>(s: Seq<Dated<T>>, k: Option<Timestamp>)
    ensures
        at_time(newest_first(s), k) == at_time(s, k),
    decreases s.len(),
{
    reveal(Seq::filter);
    if s.len() > 0 {
        let r = newest_first(s.drop_last());
        newest_first_is_stable(s.drop_last(), k);
        newest_first_falls(s.drop_last());
        lemma_place(r, s.last().0, 0);
        let p = place_from(r, s.last().0, 0);
        if s.last().0 == k {
            assert forall|j: int| p <= j < r.len() implies #[trigger] r[j].0 != k by {
                assert(older(r[p].0, k));
                if j > p {
                    assert(!older(r[p].0, r[j].0));
                }
            }
        }
        lemma_filter_insert(r, p, s.last(), k);
    }
}

/// Orders a list by time, newest first; equal times keep their order.
pub fn sort_newest_first<T>(items: Vec<Dated<T>>) -> (r: Vec<T>)
    ensures
        r@ == undated(newest_first(items@)),
        r@.len() == items@.len(),
{
    let mut out: Vec<Dated<T>> = Vec::new();
    let ghost all = items@;
    assert(all.take(0) =~= Seq::<Dated<T>>::empty());
    for x in it: items
        invariant
            it.seq() == all,
            out@ == newest_first(all.take(it.index() as int)),
    {
        let ghost n = it.index() as int;
        let p = place(&out, x.0);
        proof {
            assert(all.take(n + 1).drop_last() =~= all.take(n));
            assert(all.take(n + 1).last() == x);
        }
        out.insert(p, x);
    }
    assert(all.take(all.len() as int) =~= all);
    proof {
        newest_first_falls(all);
    }
    let ghost sorted = out@;
    let mut r: Vec<T> = Vec::new();
    for x in it: out
        invariant
            it.seq() == sorted,
            r@ == undated(sorted.take(it.index() as int)),
    {
        assert(undated(sorted.take(it.index() as int + 1)) =~= undated(
            sorted.take(it.index() as int),
        ).push(x.1));
        r.push(x.1);
    }
    assert(sorted.take(sorted.len() as int) =~= sorted);
    r
}

/// Where an entry of time `k` belongs.
fn place<T>(s: &Vec<Dated<T>>, k: Option<Timestamp>) -> (i: usize)
    ensures
        i == place_from(s@, k, 0),
        i <= s@.len(),
{
    let mut i: usize = 0;
    while i < s.len()
        invariant
            i <= s@.len(),
            place_from(s@, k, 0) == place_from(s@, k, i as int),
        decreases s.len() - i,
    {
        if is_older(s[i].0, k) {
            return i;
        }
        i += 1;
    }
    i
}

// ── Keeping ────────────────────────────────────────────────────────────────────

/// The items whose flag is set, in order.
pub open spec fn kept<T>(items: Seq<T>, flags: Seq<bool>) -> Seq<T>
    decreases items.len(),
{
    if items.len() == 0 {
        items
    } else {
        let r = kept(items.drop_last(), flags.take(items.len() - 1));
        if flags[items.len() - 1] {
            r.push(items.last())
        } else {
            r
        }
    }
}

/// Keeps the items whose flag is set.
pub fn keep<T>(items: Vec<T>, flags: &Vec<bool>) -> (r: Vec<T>)
    requires
        flags@.len() == items@.len(),
    ensures
        r@ == kept(items@, flags@),
{
    let mut r: Vec<T> = Vec::new();
    let ghost all = items@;
    let mut i: usize = 0;
    assert(all.take(0) =~= Seq::<T>::empty());
    for x in it: items
        invariant
            it.seq() == all,
            i == it.index(),
            flags.len() == all.len(),
            r@ == kept(all.take(i as int), flags@.take(i as int)),
    {
        proof {
            assert(all.take(i + 1).drop_last() =~= all.take(i as int));
            assert(flags@.take(i + 1).take(i as int) =~= flags@.take(i as int));
            assert(flags@.take(i + 1)[i as int] == flags@[i as int]);
        }
        if flags[i] {
            r.push(x);
        }
        i += 1;
    }
    assert(all.take(all.len() as int) =~= all);
    assert(flags@.take(all.len() as int) =~= flags@);
    r
}

/// What is kept are items of the list.
pub proof fn kept_are_items<T>(items: Seq<T>, flags: Seq<bool>)
    ensures
        forall|x: T| #[trigger] kept(items, flags).contains(x) ==> items.contains(x),
        forall|i: int| 0 <= i < kept(items, flags).len() ==> items.contains(#[trigger] kept(items, flags)[i]),
    decreases items.len(),
{
    if items.len() > 0 {
        let n = items.len() - 1;
        let a = items.drop_last();
        let r = kept(a, flags.take(n));
        kept_are_items(a, flags.take(n));
        assert forall|i: int| 0 <= i < kept(items, flags).len() implies items.contains(#[trigger] kept(items, flags)[i]) by {
            if i < r.len() {
                assert(a.contains(r[i]));
                let j = choose|j: int| 0 <= j < a.len() && a[j] == r[i];
                assert(items[j] == r[i]);
            } else {
                assert(items[n] == kept(items, flags)[i]);
            }
        }
    }
}

/// Keeping by flags that tell a test is filtering by the test.
pub proof fn kept_is_filter<T>(items: Seq<T>, flags: Seq<bool>, p: spec_fn(T) -> bool)
    requires
        flags.len() == items.len(),
        forall|i: int| 0 <= i < items.len() ==> #[trigger] flags[i] == p(items[i]),
    ensures
        kept(items, flags) == items.filter(p),
    decreases items.len(),
{
    reveal(Seq::filter);
    if items.len() > 0 {
        let n = items.len() - 1;
        assert forall|i: int| 0 <= i < n implies #[trigger] flags.take(n)[i] == p(
            items.drop_last()[i],
        ) by {
            assert(flags[i] == p(items[i]));
        }
        kept_is_filter(items.drop_last(), flags.take(n), p);
        assert(flags[n] == p(items[n]));
    }
}

/// Whether the key at `i` stands nowhere before `i`.
pub open spec fn is_first(keys: Seq<Seq<char>>, i: int) -> bool {
    forall|j: int| 0 <= j < i ==> #[trigger] keys[j] != keys[i]
}

/// For each key, whether it is the first of its kind.
pub open spec fn firsts(keys: Seq<Seq<char>>) -> Seq<bool> {
    Seq::new(keys.len(), |i: int| is_first(keys, i))
}

/// Finds the first of each kind of key.
pub fn first_flags(keys: &Vec<String>) -> (r: Vec<bool>)
    ensures
        r@ == firsts(text::views(keys@)),
{
    let mut r: Vec<bool> = Vec::new();
    let ghost vs = text::views(keys@);
    let mut i: usize = 0;
    while i < keys.len()
        invariant
            i <= keys@.len(),
            vs == text::views(keys@),
            r@.len() == i,
            forall|j: int| 0 <= j < i ==> #[trigger] r@[j] == is_first(vs, j),
        decreases keys.len() - i,
    {
        let mut fresh = true;
        let mut j: usize = 0;
        while j < i
            invariant
                j <= i < keys@.len(),
                vs == text::views(keys@),
                fresh == forall|m: int| 0 <= m < j ==> #[trigger] vs[m] != vs[i as int],
            decreases i - j,
        {
            if same(keys[j].as_str(), keys[i].as_str()) {
                assert(vs[j as int] == vs[i as int]);
                fresh = false;
            }
            j += 1;
        }
        r.push(fresh);
        i += 1;
    }
    assert(r@ =~= firsts(vs));
    r
}

/// The keys that are kept as the first of their kind are all different.
pub proof fn firsts_are_distinct(keys: Seq<Seq<char>>)
    ensures
        kept(keys, firsts(keys)).no_duplicates(),
        forall|k: Seq<char>| keys.contains(k) <==> #[trigger] kept(keys, firsts(keys)).contains(k),
    decreases keys.len(),
{
    if keys.len() > 0 {
        let a = keys.drop_last();
        firsts_are_distinct(a);
        assert(firsts(keys).take(keys.len() - 1) =~= firsts(a)) by {
            assert forall|i: int| 0 <= i < a.len() implies is_first(keys, i) == is_first(a, i) by {
                if is_first(a, i) {
                    assert forall|j: int| 0 <= j < i implies #[trigger] keys[j] != keys[i] by {
                        assert(a[j] == keys[j]);
                    }
                }
                if is_first(keys, i) {
                    assert forall|j: int| 0 <= j < i implies #[trigger] a[j] != a[i] by {
                        assert(a[j] == keys[j]);
                    }
                }
            }
        }
        let r = kept(a, firsts(a));
        let n = keys.len() - 1;
        assert(keys =~= a.push(keys.last()));
        assert(firsts(keys)[n] == is_first(keys, n));
        assert(is_first(keys, n) == !a.contains(keys.last())) by {
            if a.contains(keys.last()) {
                let j = choose|j: int| 0 <= j < a.len() && a[j] == keys.last();
                assert(keys[j] == keys[n]);
            }
            if !a.contains(keys.last()) {
                assert forall|j: int| 0 <= j < n implies #[trigger] keys[j] != keys[n] by {
                    assert(a[j] == keys[j]);
                }
            }
        }
        let res = kept(keys, firsts(keys));
        assert forall|k: Seq<char>| keys.contains(k) <==> #[trigger] res.contains(k) by {
            if keys.contains(k) {
                let j = choose|j: int| 0 <= j < keys.len() && keys[j] == k;
                if j < n {
                    assert(a[j] == k);
                    assert(r.contains(k));
                    let m = choose|m: int| 0 <= m < r.len() && r[m] == k;
                    assert(res[m] == k);
                } else if a.contains(k) {
                    assert(r.contains(k));
                    let m = choose|m: int| 0 <= m < r.len() && r[m] == k;
                    assert(res[m] == k);
                } else {
                    assert(res[res.len() - 1] == k);
                }
            }
            if res.contains(k) {
                let m = choose|m: int| 0 <= m < res.len() && res[m] == k;
                if m < r.len() {
                    assert(r[m] == k);
                    assert(r.contains(k));
                    assert(a.contains(k));
                    let j = choose|j: int| 0 <= j < a.len() && a[j] == k;
                    assert(keys[j] == k);
                } else {
                    assert(keys[n] == k);
                }
            }
        }
        if is_first(keys, n) {
            assert(!r.contains(keys.last()));
        }
    }
}

/// At most the first `n` items.
pub open spec fn cut<T>(s: Seq<T>, n: nat) -> Seq<T> {
    if s.len() <= n {
        s
    } else {
        s.take(n as int)
    }
}

/// Keeps at most the first `n` items.
pub fn truncated<T>(items: Vec<T>, n: usize) -> (r: Vec<T>)
    ensures
        r@ == cut(items@, n as nat),
{
    let mut items = items;
    let ghost before = items@;
    items.truncate(n);
    assert(items@ =~= cut(before, n as nat));
    items
}

/// The lists one after another.
pub open spec fn flat<T>(lists: Seq<Vec<T>>) -> Seq<T>
    decreases lists.len(),
{
    if lists.len() == 0 {
        Seq::empty()
    } else {
        flat(lists.drop_last()) + lists.last()@
    }
}

/// Puts lists one after another.
pub fn flatten<T>(lists: Vec<Vec<T>>) -> (r: Vec<T>)
    ensures
        r@ == flat(lists@),
{
    let mut r: Vec<T> = Vec::new();
    let ghost all = lists@;
    for x in it: lists
        invariant
            it.seq() == all,
            r@ == flat(all.take(it.index() as int)),
    {
        let mut y = x;
        proof {
            let n = it.index() as int;
            assert(all.take(n + 1).drop_last() =~= all.take(n));
            assert(all.take(n + 1).last() == x);
        }
        r.append(&mut y);
    }
    assert(all.take(all.len() as int) =~= all);
    r
}

// ── Entries ────────────────────────────────────────────────────────────────────

/// A value that is told apart by a key and ordered by a time.
pub trait Entry: Sized {
    /// What tells the value apart.
    spec fn key(&self) -> Seq<char>;

    /// The time by which the value is ordered.
    spec fn date(&self) -> Option<Timestamp>;

    /// What tells the value apart.
    fn entry_key(&self) -> (r: String)
        ensures
            r@ == self.key(),
    ;

    /// The time by which the value is ordered.
    fn entry_date(&self) -> (r: Option<Timestamp>)
        ensures
            r == self.date(),
    ;
}

/// The keys of a list.
pub open spec fn keys<T: Entry>(s: Seq<T>) -> Seq<Seq<char>> {
    s.map_values(|x: T| x.key())
}

/// The values of a list, each with its time.
pub open spec fn dated<T: Entry>(s: Seq<T>) -> Seq<Dated<T>> {
    s.map_values(|x: T| (x.date(), x))
}

/// The first value of each key, in order.
pub open spec fn distinct<T: Entry>(s: Seq<T>) -> Seq<T> {
    kept(s, firsts(keys(s)))
}

/// The values ordered by time, newest first; equal times keep their order.
pub open spec fn by_date<T: Entry>(s: Seq<T>) -> Seq<T> {
    undated(newest_first(dated(s)))
}

/// Keeps the first value of each key.
pub fn distinct_entries<T: Entry>(items: Vec<T>) -> (r: Vec<T>)
    ensures
        r@ == distinct(items@),
{
    let mut ks: Vec<String> = Vec::new();
    let mut i: usize = 0;
    while i < items.len()
        invariant
            i <= items@.len(),
            text::views(ks@) == keys(items@).take(i as int),
        decreases items.len() - i,
    {
        broadcast use text::views_push;

        ks.push(items[i].entry_key());
        assert(keys(items@).take(i + 1) =~= keys(items@).take(i as int).push(
            items@[i as int].key(),
        ));
        i += 1;
    }
    assert(keys(items@).take(i as int) =~= keys(items@));
    assert(ks@.len() == text::views(ks@).len());
    let flags = first_flags(&ks);
    keep(items, &flags)
}

/// Orders values by time, newest first; equal times keep their order.
pub fn sort_entries<T: Entry>(items: Vec<T>) -> (r: Vec<T>)
    ensures
        r@ == by_date(items@),
        r@.len() == items@.len(),
{
    let ghost all = items@;
    let mut v: Vec<Dated<T>> = Vec::new();
    for x in it: items
        invariant
            it.seq() == all,
            v@ == dated(all.take(it.index() as int)),
    {
        assert(dated(all.take(it.index() as int + 1)) =~= dated(all.take(it.index() as int)).push(
            (x.date(), x),
        ));
        v.push((x.entry_date(), x));
    }
    assert(all.take(all.len() as int) =~= all);
    sort_newest_first(v)
}

/// Puts lists one after another, keeps the first value of each key and orders by time.
pub fn merge_entries<T: Entry>(lists: Vec<Vec<T>>) -> (r: Vec<T>)
    ensures
        r@ == by_date(distinct(flat(lists@))),
{
    sort_entries(distinct_entries(flatten(lists)))
}

/// Keeping values keeps their keys.
proof fn lemma_keys_of_kept<T: Entry>(s: Seq<T>, flags: Seq<bool>)
    requires
        flags.len() >= s.len(),
    ensures
        keys(kept(s, flags)) == kept(keys(s), flags),
    decreases s.len(),
{
    if s.len() > 0 {
        lemma_keys_of_kept(s.drop_last(), flags.take(s.len() - 1));
        assert(keys(s).drop_last() =~= keys(s.drop_last()));
        let r = kept(s.drop_last(), flags.take(s.len() - 1));
        assert(keys(r.push(s.last())) =~= keys(r).push(s.last().key()));
        assert(keys(s).last() == s.last().key());
    } else {
        assert(keys(s) =~= Seq::<Seq<char>>::empty());
    }
}

/// Among the values that are kept no key stands twice, and no key is lost.
pub proof fn distinct_has_each_key_once<T: Entry>(s: Seq<T>)
    ensures
        keys(distinct(s)).no_duplicates(),
        forall|k: Seq<char>| keys(s).contains(k) <==> #[trigger] keys(distinct(s)).contains(k),
{
    lemma_keys_of_kept(s, firsts(keys(s)));
    firsts_are_distinct(keys(s));
}

/// Ordering by time neither adds nor loses a value, and no value is older than one behind it.
pub proof fn by_date_is_ordered<T: Entry>(s: Seq<T>)
    ensures
        by_date(s).to_multiset() == s.to_multiset(),
        by_date(s).len() == s.len(),
        forall|i: int, j: int|
            0 <= i < j < s.len() ==> !older(
                #[trigger] by_date(s)[i].date(),
                #[trigger] by_date(s)[j].date(),
            ),
{
    newest_first_falls(dated(s));
    lemma_newest_first_dates(s);
    lemma_newest_first_values(dated(s));
    assert(undated(dated(s)) =~= s);
    assert forall|i: int, j: int| 0 <= i < j < s.len() implies !older(
        #[trigger] by_date(s)[i].date(),
        #[trigger] by_date(s)[j].date(),
    ) by {
        let t = newest_first(dated(s));
        assert(t[i].0 == t[i].1.date());
        assert(t[j].0 == t[j].1.date());
    }
}

/// Every entry of an ordered list carries the time of its value.
proof fn lemma_newest_first_dates<T: Entry>(s: Seq<T>)
    ensures
        newest_first(dated(s)).len() == s.len(),
        forall|i: int| 0 <= i < s.len() ==> (#[trigger] newest_first(dated(s))[i]).0
            == newest_first(dated(s))[i].1.date(),
    decreases s.len(),
{
    if s.len() > 0 {
        let a = s.drop_last();
        lemma_newest_first_dates(a);
        assert(dated(s).drop_last() =~= dated(a));
        let r = newest_first(dated(a));
        lemma_place(r, dated(s).last().0, 0);
        let p = place_from(r, dated(s).last().0, 0);
        let t = r.insert(p, dated(s).last());
        assert forall|i: int| 0 <= i < s.len() implies (#[trigger] t[i]).0 == t[i].1.date() by {
            if i < p {
                assert(t[i] == r[i]);
            } else if i > p {
                assert(t[i] == r[i - 1]);
            }
        }
    }
}

/// Ordering keeps the values.
proof fn lemma_newest_first_values<T>(s: Seq<Dated<T>>)
    ensures
        undated(newest_first(s)).to_multiset() == undated(s).to_multiset(),
    decreases s.len(),
{
    if s.len() > 0 {
        let r = newest_first(s.drop_last());
        lemma_newest_first_values(s.drop_last());
        lemma_place(r, s.last().0, 0);
        let p = place_from(r, s.last().0, 0);
        let x = s.last().1;
        assert(undated(r.insert(p, s.last())) =~= undated(r).insert(p, x));
        vstd::seq_lib::to_multiset_insert(undated(r), p, x);
        assert(undated(s) =~= undated(s.drop_last()).push(x));
        undated(s.drop_last()).to_multiset_ensures();
    }
}

/// Values with different keys still have different keys after some were left out.
pub proof fn filter_keeps_keys_apart<T: Entry>(s: Seq<T>, p: spec_fn(T) -> bool)
    requires
        keys(s).no_duplicates(),
    ensures
        keys(s.filter(p)).no_duplicates(),
        forall|k: Seq<char>| #[trigger] keys(s.filter(p)).contains(k) ==> keys(s).contains(k),
    decreases s.len(),
{
    reveal(Seq::filter);
    if s.len() > 0 {
        let a = s.drop_last();
        assert(keys(a) =~= keys(s).drop_last());
        assert(keys(a).no_duplicates());
        filter_keeps_keys_apart(a, p);
        let f = a.filter(p);
        let last = s.last();
        assert forall|k: Seq<char>| keys(a).contains(k) implies keys(s).contains(k) by {
            let j = choose|j: int| 0 <= j < a.len() && keys(a)[j] == k;
            assert(keys(s)[j] == k);
        }
        if p(last) {
            assert(keys(f.push(last)) =~= keys(f).push(last.key()));
            assert(keys(s)[s.len() - 1] == last.key());
            assert(!keys(a).contains(last.key())) by {
                if keys(a).contains(last.key()) {
                    let j = choose|j: int| 0 <= j < a.len() && keys(a)[j] == last.key();
                    assert(keys(s)[j] == keys(s)[s.len() - 1]);
                }
            }
            assert(!keys(f).contains(last.key()));
            let t = keys(f).push(last.key());
            assert forall|k: Seq<char>| #[trigger] t.contains(k) implies keys(s).contains(k) by {
                let j = choose|j: int| 0 <= j < t.len() && t[j] == k;
                if j < f.len() {
                    assert(keys(f)[j] == k);
                    assert(keys(f).contains(k));
                }
            }
        }
    }
}

/// Where an entry belongs is an index or the length.
pub proof fn place_is_within<T>(s: Seq<Dated<T>>, k: Option<Timestamp>)
    ensures
        0 <= place_from(s, k, 0) <= s.len(),
{
    lemma_place(s, k, 0);
}

/// Ordering by time neither adds nor loses a value.
pub proof fn ordering_keeps_values<T>(s: Seq<Dated<T>>)
    ensures
        undated(newest_first(s)).to_multiset() == undated(s).to_multiset(),
        newest_first(s).len() == s.len(),
{
    lemma_newest_first_values(s);
    newest_first_falls(s);
}

/// A list with the same values as one in which no key stands twice has no key twice either.
pub proof fn permuting_keeps_keys_apart<T: Entry>(s: Seq<T>, u: Seq<T>)
    requires
        s.to_multiset() == u.to_multiset(),
        keys(u).no_duplicates(),
    ensures
        keys(s).no_duplicates(),
{
    assert(u.no_duplicates()) by {
        assert forall|i: int, j: int| 0 <= i < u.len() && 0 <= j < u.len() && i != j implies u[i]
            != u[j] by {
            assert(keys(u)[i] != keys(u)[j]);
        }
    }
    u.lemma_multiset_has_no_duplicates();
    s.lemma_multiset_has_no_duplicates_conv();
    assert forall|i: int, j: int| 0 <= i < s.len() && 0 <= j < s.len() && i != j implies keys(s)[i]
        != keys(s)[j] by {
        vstd::seq_lib::to_multiset_contains(s, s[i]);
        vstd::seq_lib::to_multiset_contains(s, s[j]);
        vstd::seq_lib::to_multiset_contains(u, s[i]);
        vstd::seq_lib::to_multiset_contains(u, s[j]);
        assert(s.contains(s[i]) && s.contains(s[j]));
        let a = choose|a: int| 0 <= a < u.len() && u[a] == s[i];
        let b = choose|b: int| 0 <= b < u.len() && u[b] == s[j];
        assert(s[i] != s[j]);
        assert(keys(u)[a] != keys(u)[b]);
    }
}

/// In a merged list no key stands twice.
pub proof fn merged_has_each_key_once<T: Entry>(s: Seq<T>)
    ensures
        keys(by_date(distinct(s))).no_duplicates(),
{
    distinct_has_each_key_once(s);
    by_date_is_ordered(distinct(s));
    permuting_keeps_keys_apart(by_date(distinct(s)), distinct(s));
}

// ── Laws ─────────────────────────────────────────────────────────────────────

/// The first value of a key is the one that is kept of it.
pub proof fn distinct_keeps_the_first<T: Entry>(s: Seq<T>, i: int)
    requires
        0 <= i < s.len(),
        forall|j: int| 0 <= j < i ==> (#[trigger] s[j]).key() != s[i].key(),
    ensures
        distinct(s).contains(s[i]),
{
    assert(is_first(keys(s), i)) by {
        assert forall|j: int| 0 <= j < i implies #[trigger] keys(s)[j] != keys(s)[i] by {
            assert(s[j].key() != s[i].key());
        }
    }
    lemma_flagged_is_kept(s, firsts(keys(s)), i);
}

/// What has its flag set is kept.
proof fn lemma_flagged_is_kept<T>(items: Seq<T>, flags: Seq<bool>, i: int)
    requires
        0 <= i < items.len() <= flags.len(),
        flags[i],
    ensures
        kept(items, flags).contains(items[i]),
    decreases items.len(),
{
    let n = items.len() - 1;
    let r = kept(items.drop_last(), flags.take(n));
    if i < n {
        lemma_flagged_is_kept(items.drop_last(), flags.take(n), i);
        let k = choose|k: int| 0 <= k < r.len() && r[k] == items[i];
        assert(kept(items, flags)[k] == items[i]);
    } else {
        assert(kept(items, flags)[r.len() as int] == items[i]);
    }
}

/// Ordering by time holds the same values.
pub proof fn by_date_holds_the_same<T: Entry>(s: Seq<T>, x: T)
    ensures
        by_date(s).contains(x) == s.contains(x),
{
    by_date_is_ordered(s);
    vstd::seq_lib::to_multiset_contains(s, x);
    vstd::seq_lib::to_multiset_contains(by_date(s), x);
}

/// Of lists one after another each value is there, and none is that was in no list.
pub proof fn flat_holds_each<T>(lists: Seq<Vec<T>>, x: T)
    ensures
        flat(lists).contains(x) == exists|i: int|
            0 <= i < lists.len() && (#[trigger] lists[i])@.contains(x),
    decreases lists.len(),
{
    if lists.len() > 0 {
        let a = lists.drop_last();
        let f = flat(a);
        let l = lists.last()@;
        flat_holds_each(a, x);
        if flat(lists).contains(x) {
            let k = choose|k: int| 0 <= k < flat(lists).len() && flat(lists)[k] == x;
            if k < f.len() {
                assert(f[k] == x);
                let i = choose|i: int| 0 <= i < a.len() && (#[trigger] a[i])@.contains(x);
                assert(lists[i] == a[i]);
            } else {
                assert(l[k - f.len()] == x);
                assert(lists[lists.len() - 1]@.contains(x));
            }
        }
        if exists|i: int| 0 <= i < lists.len() && (#[trigger] lists[i])@.contains(x) {
            let i = choose|i: int| 0 <= i < lists.len() && (#[trigger] lists[i])@.contains(x);
            if i < a.len() {
                assert(a[i]@.contains(x));
                let k = choose|k: int| 0 <= k < f.len() && f[k] == x;
                assert(flat(lists)[k] == x);
            } else {
                let k = choose|k: int| 0 <= k < l.len() && l[k] == x;
                assert(flat(lists)[f.len() + k] == x);
            }
        }
    }
}

/// Cutting keeps the first values, and all of them where there are no more than asked for.
pub proof fn cutting_keeps_the_first<T>(s: Seq<T>, n: nat)
    ensures
        cut(s, n).len() == (if s.len() <= n {
            s.len()
        } else {
            n
        }),
        forall|i: int| 0 <= i < cut(s, n).len() ==> #[trigger] cut(s, n)[i] == s[i],
        s.len() <= n ==> cut(s, n) == s,
{
}

/// In a merged and cut list no key stands twice, no value is older than one behind it, every value
/// was there, and where as many are asked for as there are values each key is there.
pub proof fn merged_news_is_complete<T: Entry>(s: Seq<T>, n: nat)
    ensures
        ({
            let r = cut(by_date(distinct(s)), n);
            &&& r.len() <= n
            &&& keys(r).no_duplicates()
            &&& forall|i: int| 0 <= i < r.len() ==> s.contains(#[trigger] r[i])
            &&& forall|i: int, j: int|
                0 <= i < j < r.len() ==> !older(#[trigger] r[i].date(), #[trigger] r[j].date())
            &&& n >= s.len() ==> forall|k: Seq<char>|
                keys(s).contains(k) <==> #[trigger] keys(r).contains(k)
        }),
{
    let d = distinct(s);
    let b = by_date(d);
    let r = cut(b, n);
    by_date_is_ordered(d);
    merged_has_each_key_once(s);
    distinct_has_each_key_once(s);
    kept_are_items(s, firsts(keys(s)));
    lemma_kept_len(s, firsts(keys(s)));
    assert forall|i: int, j: int| 0 <= i < r.len() && 0 <= j < r.len() && i != j implies keys(
        r,
    )[i] != keys(r)[j] by {
        assert(keys(b)[i] == keys(r)[i] && keys(b)[j] == keys(r)[j]);
    }
    assert forall|i: int| 0 <= i < r.len() implies s.contains(#[trigger] r[i]) by {
        assert(b.contains(b[i]));
        by_date_holds_the_same(d, b[i]);
        assert(d.contains(b[i]));
    }
    assert forall|i: int, j: int| 0 <= i < j < r.len() implies !older(
        #[trigger] r[i].date(),
        #[trigger] r[j].date(),
    ) by {
        assert(!older(b[i].date(), b[j].date()));
    }
    if n >= s.len() {
        assert(r == b);
        assert forall|k: Seq<char>| keys(s).contains(k) <==> #[trigger] keys(r).contains(k) by {
            assert(keys(s).contains(k) <==> keys(d).contains(k));
            if keys(d).contains(k) {
                let i = choose|i: int| 0 <= i < keys(d).len() && keys(d)[i] == k;
                assert(d.contains(d[i]));
                by_date_holds_the_same(d, d[i]);
                let m = choose|m: int| 0 <= m < b.len() && b[m] == d[i];
                assert(keys(b)[m] == k);
            }
            if keys(b).contains(k) {
                let i = choose|i: int| 0 <= i < keys(b).len() && keys(b)[i] == k;
                assert(b.contains(b[i]));
                by_date_holds_the_same(d, b[i]);
                let m = choose|m: int| 0 <= m < d.len() && d[m] == b[i];
                assert(keys(d)[m] == k);
            }
        }
    }
}

/// No more is kept than there is.
proof fn lemma_kept_len<T>(items: Seq<T>, flags: Seq<bool>)
    ensures
        kept(items, flags).len() <= items.len(),
    decreases items.len(),
{
    if items.len() > 0 {
        lemma_kept_len(items.drop_last(), flags.take(items.len() - 1));
    }
}

/// A time is older than each that is later, whether by seconds or by nanoseconds in the same
/// second, no time is older than any, and of two times at most one is older.
pub proof fn older_is_an_order(a: Timestamp, b: Timestamp, x: Option<Timestamp>, y: Option<Timestamp>, z: Option<Timestamp>)
    ensures
        a.secs < b.secs ==> older(Some(a), Some(b)),
        a.secs == b.secs && a.nanos < b.nanos ==> older(Some(a), Some(b)),
        older(None, Some(a)),
        !older(x, x),
        older(x, y) ==> !older(y, x),
        older(x, y) && older(y, z) ==> older(x, z),
        !older(x, y) && !older(y, x) ==> x == y,
{
}

/// Keeping the first of each key adds nothing.
pub proof fn distinct_is_no_longer<T: Entry>(s: Seq<T>)
    ensures
        distinct(s).len() <= s.len(),
{
    lemma_kept_len(s, firsts(keys(s)));
}

/// Cutting twice is cutting at the lesser number.
pub proof fn cutting_twice<T>(s: Seq<T>, a: nat, b: nat)
    ensures
        cut(cut(s, a), b) == (if a <= b {
            cut(s, a)
        } else {
            cut(s, b)
        }),
{
    assert(cut(cut(s, a), b) =~= (if a <= b {
        cut(s, a)
    } else {
        cut(s, b)
    }));
}

} // verus!
