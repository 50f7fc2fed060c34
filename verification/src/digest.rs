//! Putting news together.
use vstd::prelude::*;
use crate::fetcher::NewsItem;
use crate::lists;
use crate::order;
use crate::text;
use crate::time;
use crate::time::Timestamp;
use crate::unicode;

verus! {

/// Whether a story belongs in a digest: it is no repository, and one of the keywords stands in
/// its title or description.
pub open spec fn story_fits(n: NewsItem, keywords: Seq<Seq<char>>) -> bool {
    &&& !text::holds(n.url@, "github.com"@)
    &&& keywords.len() == 0 || exists|i: int|
        0 <= i < keywords.len() && text::holds(
            unicode::lowercase(n.title@) + " "@ + unicode::lowercase(n.description@),
            unicode::lowercase(#[trigger] keywords[i]),
        )
}

/// Whether an article belongs in a digest: it has a description.
pub open spec fn article_fits(n: NewsItem) -> bool {
    text::trimmed(n.description@).len() > 0
}

/// Whether a story belongs in a digest.
pub fn is_fitting_story(n: &NewsItem, keywords: &Vec<String>) -> (r: bool)
    ensures
        r == story_fits(*n, text::views(keywords@)),
{
    if text::contains(&n.url, "github.com") {
        return false;
    }
    if keywords.len() == 0 {
        return true;
    }
    let all = text::concat3(&n.title.to_lowercase(), " ", &n.description.to_lowercase());
    let ghost ks = text::views(keywords@);
    let mut i: usize = 0;
    while i < keywords.len()
        invariant
            i <= keywords@.len(),
            keywords@.len() > 0,
            !text::holds(n.url@, "github.com"@),
            ks == text::views(keywords@),
            all@ == unicode::lowercase(n.title@) + " "@ + unicode::lowercase(n.description@),
            forall|j: int|
                0 <= j < i ==> !text::holds(all@, unicode::lowercase(#[trigger] ks[j])),
        decreases keywords.len() - i,
    {
        if text::contains(&all, &keywords[i].to_lowercase()) {
            assert(text::holds(all@, unicode::lowercase(ks[i as int])));
            return true;
        }
        i += 1;
    }
    false
}

/// Keeps the stories that belong in a digest.
fn keep_stories(items: Vec<NewsItem>, keywords: &Vec<String>) -> (r: Vec<NewsItem>)
    ensures
        r@ == items@.filter(|n: NewsItem| story_fits(n, text::views(keywords@))),
{
    let mut flags: Vec<bool> = Vec::new();
    let mut i: usize = 0;
    while i < items.len()
        invariant
            i <= items@.len(),
            flags@.len() == i,
            forall|j: int|
                0 <= j < i ==> #[trigger] flags@[j] == story_fits(
                    items@[j],
                    text::views(keywords@),
                ),
        decreases items.len() - i,
    {
        flags.push(is_fitting_story(&items[i], keywords));
        i += 1;
    }
    proof {
        order::kept_is_filter(
            items@,
            flags@,
            |n: NewsItem| story_fits(n, text::views(keywords@)),
        );
    }
    order::keep(items, &flags)
}

/// Keeps the articles that belong in a digest.
fn keep_articles(items: Vec<NewsItem>) -> (r: Vec<NewsItem>)
    ensures
        r@ == items@.filter(|n: NewsItem| article_fits(n)),
{
    let mut flags: Vec<bool> = Vec::new();
    let mut i: usize = 0;
    while i < items.len()
        invariant
            i <= items@.len(),
            flags@.len() == i,
            forall|j: int| 0 <= j < i ==> #[trigger] flags@[j] == article_fits(items@[j]),
        decreases items.len() - i,
    {
        flags.push(!text::is_empty(&text::trim(&items[i].description)));
        i += 1;
    }
    proof {
        order::kept_is_filter(items@, flags@, |n: NewsItem| article_fits(n));
    }
    order::keep(items, &flags)
}

/// The time by which news of a digest is ordered: without one it is as if of the start of 1970.
pub open spec fn digest_time(n: NewsItem) -> Timestamp {
    match n.published {
        Some(t) => t,
        None => time::epoch(),
    }
}

/// News with the times by which it is ordered.
pub open spec fn timed(s: Seq<NewsItem>) -> Seq<order::Dated<NewsItem>> {
    s.map_values(|n: NewsItem| (Some(digest_time(n)), n))
}

/// News ordered by time, newest first.
fn sort_digest(items: Vec<NewsItem>) -> (r: Vec<NewsItem>)
    ensures
        r@ == order::undated(order::newest_first(timed(items@))),
{
    let ghost all = items@;
    let mut v: Vec<order::Dated<NewsItem>> = Vec::new();
    for x in it: items
        invariant
            it.seq() == all,
            v@ == timed(all.take(it.index() as int)),
    {
        assert(timed(all.take(it.index() as int + 1)) =~= timed(all.take(it.index() as int)).push(
            (Some(digest_time(x)), x),
        ));
        let t = match x.published {
            Some(t) => t,
            None => Timestamp { secs: 0, nanos: 0 },
        };
        v.push((Some(t), x));
    }
    proof {
        lists::take_all(all);
    }
    order::sort_newest_first(v)
}

/// The news of a digest: the stories and articles that belong in it, each address once, newest
/// first, at most `max`.
pub open spec fn digest(
    stories: Seq<NewsItem>,
    feeds: Seq<NewsItem>,
    tagged: Seq<NewsItem>,
    keywords: Seq<Seq<char>>,
    max: nat,
) -> Seq<NewsItem> {
    let all = stories.filter(|n: NewsItem| story_fits(n, keywords)) + feeds.filter(
        |n: NewsItem| article_fits(n),
    ) + tagged.filter(|n: NewsItem| article_fits(n));
    order::cut(order::undated(order::newest_first(timed(order::distinct(all)))), max)
}

/// Puts the news of a digest together.
pub fn compose_digest(
    stories: Vec<NewsItem>,
    feeds: Vec<NewsItem>,
    tagged: Vec<NewsItem>,
    keywords: &Vec<String>,
    max: usize,
) -> (r: Vec<NewsItem>)
    ensures
        r@ == digest(stories@, feeds@, tagged@, text::views(keywords@), max as nat),
{
    let mut all = keep_stories(stories, keywords);
    let mut b = keep_articles(feeds);
    let mut c = keep_articles(tagged);
    all.append(&mut b);
    all.append(&mut c);
    order::truncated(sort_digest(order::distinct_entries(all)), max)
}

/// A digest is no longer than was asked for, no address stands in it twice, and no news is older
/// than what follows it.
pub proof fn digest_is_ordered(
    stories: Seq<NewsItem>,
    feeds: Seq<NewsItem>,
    tagged: Seq<NewsItem>,
    keywords: Seq<Seq<char>>,
    max: nat,
)
    ensures
        digest(stories, feeds, tagged, keywords, max).len() <= max,
        forall|i: int, j: int|
            #![trigger digest(stories, feeds, tagged, keywords, max)[i], digest(stories, feeds, tagged, keywords, max)[j]]
            0 <= i < j < digest(stories, feeds, tagged, keywords, max).len() ==> {
                let d = digest(stories, feeds, tagged, keywords, max);
                !digest_time(d[i]).is_before(digest_time(d[j])) && d[i].url@ != d[j].url@
            },
{
    let all = stories.filter(|n: NewsItem| story_fits(n, keywords)) + feeds.filter(
        |n: NewsItem| article_fits(n),
    ) + tagged.filter(|n: NewsItem| article_fits(n));
    let u = order::distinct(all);
    let t = order::newest_first(timed(u));
    let s = order::undated(t);
    let d = digest(stories, feeds, tagged, keywords, max);
    order::newest_first_falls(timed(u));
    order::ordering_keeps_values(timed(u));
    order::distinct_has_each_key_once(all);
    assert(order::undated(timed(u)) =~= u);
    lemma_timed_stays(u);
    order::permuting_keeps_keys_apart(s, u);
    assert forall|i: int, j: int| #![trigger d[i], d[j]] 0 <= i < j < d.len() implies !digest_time(
        d[i],
    ).is_before(digest_time(d[j])) && d[i].url@ != d[j].url@ by {
        assert(d[i] == t[i].1 && d[j] == t[j].1);
        assert(t[i].0 == Some(digest_time(t[i].1)));
        assert(t[j].0 == Some(digest_time(t[j].1)));
        assert(!order::older(t[i].0, t[j].0));
        assert(order::keys(s)[i] != order::keys(s)[j]);
    }
}

/// Every entry of an ordered list carries the time of its news.
proof fn lemma_timed_stays(s: Seq<NewsItem>)
    ensures
        order::newest_first(timed(s)).len() == s.len(),
        forall|i: int| 0 <= i < s.len() ==> (#[trigger] order::newest_first(timed(s))[i]).0 == Some(
            digest_time(order::newest_first(timed(s))[i].1),
        ),
    decreases s.len(),
{
    if s.len() > 0 {
        let a = s.drop_last();
        lemma_timed_stays(a);
        assert(timed(s).drop_last() =~= timed(a));
        let r = order::newest_first(timed(a));
        order::place_is_within(r, timed(s).last().0);
        let p = order::place_from(r, timed(s).last().0, 0);
        let t = r.insert(p, timed(s).last());
        assert forall|i: int| 0 <= i < s.len() implies (#[trigger] t[i]).0 == Some(
            digest_time(t[i].1),
        ) by {
            if i < p {
                assert(t[i] == r[i]);
            } else if i > p {
                assert(t[i] == r[i - 1]);
            }
        }
    }
}

// ── Laws ─────────────────────────────────────────────────────────────────────

/// A story belongs in a digest where it is no repository and a keyword stands in its title or in
/// its description, and an article where it has a description.
pub proof fn what_belongs_in_a_digest(n: NewsItem, keywords: Seq<Seq<char>>, i: int)
    requires
        0 <= i < keywords.len(),
    ensures
        text::holds(n.url@, "github.com"@) ==> !story_fits(n, keywords),
        !text::holds(n.url@, "github.com"@) && text::holds(
            unicode::lowercase(n.title@),
            unicode::lowercase(keywords[i]),
        ) ==> story_fits(n, keywords),
        !text::holds(n.url@, "github.com"@) && text::holds(
            unicode::lowercase(n.description@),
            unicode::lowercase(keywords[i]),
        ) ==> story_fits(n, keywords),
        !text::holds(n.url@, "github.com"@) ==> story_fits(n, Seq::empty()),
        story_fits(n, keywords) ==> exists|j: int|
            0 <= j < keywords.len() && text::holds(
                unicode::lowercase(n.title@) + " "@ + unicode::lowercase(n.description@),
                unicode::lowercase(#[trigger] keywords[j]),
            ),
        article_fits(n) <==> text::trimmed(n.description@).len() > 0,
{
    let t = unicode::lowercase(n.title@);
    let d = unicode::lowercase(n.description@);
    let k = unicode::lowercase(keywords[i]);
    if text::holds(t, k) || text::holds(d, k) {
        if text::holds(t, k) {
            text::holds_in_either(t, " "@, k);
        }
        text::holds_in_either(t + " "@, d, k);
    }
}

/// Whether news is put together for a digest: it is a story or an article that belongs in it.
pub open spec fn digest_candidates(
    stories: Seq<NewsItem>,
    feeds: Seq<NewsItem>,
    tagged: Seq<NewsItem>,
    keywords: Seq<Seq<char>>,
    n: NewsItem,
) -> bool {
    ||| stories.contains(n) && story_fits(n, keywords)
    ||| feeds.contains(n) && article_fits(n)
    ||| tagged.contains(n) && article_fits(n)
}

/// Every story and every article that belongs in a digest has its address there where enough news
/// is asked for, and all news of a digest belongs in it.
pub proof fn digests_are_complete(
    stories: Seq<NewsItem>,
    feeds: Seq<NewsItem>,
    tagged: Seq<NewsItem>,
    keywords: Seq<Seq<char>>,
    max: nat,
    n: NewsItem,
)
    ensures
        digest(stories, feeds, tagged, keywords, max).contains(n) ==> digest_candidates(
            stories,
            feeds,
            tagged,
            keywords,
            n,
        ),
        max >= stories.len() + feeds.len() + tagged.len() && digest_candidates(
            stories,
            feeds,
            tagged,
            keywords,
            n,
        ) ==> exists|k: int|
            0 <= k < digest(stories, feeds, tagged, keywords, max).len() && (#[trigger] digest(
                stories,
                feeds,
                tagged,
                keywords,
                max,
            )[k]).url@ == n.url@,
{
    broadcast use vstd::seq_lib::group_filter_ensures;

    let p = |n: NewsItem| story_fits(n, keywords);
    let q = |n: NewsItem| article_fits(n);
    let a = stories.filter(p);
    let b = feeds.filter(q);
    let c = tagged.filter(q);
    let all = a + b + c;
    let u = order::distinct(all);
    let t = order::newest_first(timed(u));
    let s = order::undated(t);
    let d = digest(stories, feeds, tagged, keywords, max);
    lists::filter_holds(stories, p, n);
    lists::filter_holds(feeds, q, n);
    lists::filter_holds(tagged, q, n);
    order::newest_first_falls(timed(u));
    order::ordering_keeps_values(timed(u));
    order::distinct_has_each_key_once(all);
    order::distinct_is_no_longer(all);
    order::kept_are_items(all, order::firsts(order::keys(all)));
    assert(order::undated(timed(u)) =~= u);
    if d.contains(n) {
        let i = choose|i: int| 0 <= i < d.len() && d[i] == n;
        assert(s[i] == n);
        assert(s.contains(n));
        vstd::seq_lib::to_multiset_contains(s, n);
        vstd::seq_lib::to_multiset_contains(u, n);
        assert(u.contains(n));
        assert(all.contains(n));
        let j = choose|j: int| 0 <= j < all.len() && all[j] == n;
        if j < a.len() {
            assert(a[j] == n);
        } else if j < a.len() + b.len() {
            assert(b[j - a.len()] == n);
        } else {
            assert(c[j - a.len() - b.len()] == n);
        }
    }
    if max >= stories.len() + feeds.len() + tagged.len() && digest_candidates(
        stories,
        feeds,
        tagged,
        keywords,
        n,
    ) {
        assert(a.len() <= stories.len() && b.len() <= feeds.len() && c.len() <= tagged.len());
        assert(all.contains(n)) by {
            if a.contains(n) {
                let j = choose|j: int| 0 <= j < a.len() && a[j] == n;
                assert(all[j] == n);
            } else if b.contains(n) {
                let j = choose|j: int| 0 <= j < b.len() && b[j] == n;
                assert(all[a.len() + j] == n);
            } else {
                let j = choose|j: int| 0 <= j < c.len() && c[j] == n;
                assert(all[a.len() + b.len() + j] == n);
            }
        }
        let j = choose|j: int| 0 <= j < all.len() && all[j] == n;
        assert(order::keys(all)[j] == n.url@);
        assert(order::keys(all).contains(n.url@));
        assert(order::keys(u).contains(n.url@));
        let m = choose|m: int| 0 <= m < order::keys(u).len() && order::keys(u)[m] == n.url@;
        assert(u.contains(u[m]));
        vstd::seq_lib::to_multiset_contains(u, u[m]);
        vstd::seq_lib::to_multiset_contains(s, u[m]);
        assert(s.contains(u[m]));
        let k = choose|k: int| 0 <= k < s.len() && s[k] == u[m];
        assert(d == s);
        assert(d[k].url@ == n.url@);
    }
}

/// News without a date is ordered as if it were of the start of 1970, and other news by its date.
pub proof fn digests_are_ordered_by_date(n: NewsItem)
    ensures
        n.published matches Some(t) ==> digest_time(n) == t,
        n.published is None ==> digest_time(n).secs == 0 && digest_time(n).nanos == 0,
{
}

/// Where less news is asked for, a digest is the first of what it would be otherwise, as much as is
/// asked for.
pub proof fn shorter_digests_are_the_first(
    stories: Seq<NewsItem>,
    feeds: Seq<NewsItem>,
    tagged: Seq<NewsItem>,
    keywords: Seq<Seq<char>>,
    max: nat,
    more: nat,
)
    requires
        max <= more,
    ensures
        digest(stories, feeds, tagged, keywords, max) == order::cut(
            digest(stories, feeds, tagged, keywords, more),
            max,
        ),
        digest(stories, feeds, tagged, keywords, more).len() >= max ==> digest(
            stories,
            feeds,
            tagged,
            keywords,
            max,
        ).len() == max,
{
    let all = stories.filter(|n: NewsItem| story_fits(n, keywords)) + feeds.filter(
        |n: NewsItem| article_fits(n),
    ) + tagged.filter(|n: NewsItem| article_fits(n));
    order::cutting_twice(
        order::undated(order::newest_first(timed(order::distinct(all)))),
        more,
        max,
    );
}

} // verus!
