//! Technology news: Hacker News, GitHub and feeds.
use vstd::prelude::*;
use crate::fetcher::{News, NewsItem};
use crate::json;
use crate::lists;
use crate::number;
use crate::order;
use crate::order::Entry;
use crate::pattern;
use crate::percent;
use crate::text;
use crate::text::same;
use crate::time;
use crate::time::Timestamp;
use crate::unicode;
use crate::xml;
use crate::xml::{Attr, Xml, XmlAttr, XmlEvent};

verus! {

// ── Feeds ──────────────────────────────────────────────────────────────────────

/// A text without its tags: each tag becomes a space, and each run of white space one space.
pub open spec fn plain_text(s: Seq<char>) -> Seq<char> {
    pattern::all_replaced(
        pattern::SPACES@,
        text::trimmed(pattern::all_replaced(pattern::TAG@, s, " "@)),
        " "@,
    )
}

/// Removes the tags of a text.
pub fn strip_html(s: &str) -> (r: String)
    ensures
        r@ == plain_text(s@),
{
    let stripped = pattern::replace_all(pattern::TAG, s, " ");
    pattern::replace_all(pattern::SPACES, &text::trim(&stripped), " ")
}

/// Whether a word counts in the match of a phrase: more than one byte, beginning with a letter
/// or a digit.
pub open spec fn is_token(w: Seq<char>) -> bool {
    text::byte_count(w) > 1 && w.len() > 0 && unicode::alphanumeric(w[0])
}

/// The words of a phrase of which all must stand in an article: the first two that count.
pub open spec fn phrase_tokens(phrase: Seq<char>) -> Seq<Seq<char>> {
    order::cut(text::words(phrase).filter(|w: Seq<char>| is_token(w)), 2)
}

/// Whether an article speaks of a phrase: the phrase stands in it, or all its tokens do.
pub open spec fn speaks_of(article: Seq<char>, phrase: Seq<char>) -> bool {
    ||| text::holds(article, phrase)
    ||| phrase_tokens(phrase).len() > 0 && text::holds_all(article, phrase_tokens(phrase))
}

/// Whether an article with this title and description is wanted: without keywords each is.
pub open spec fn wanted(title: Seq<char>, desc: Seq<char>, keywords: Seq<Seq<char>>) -> bool {
    ||| keywords.len() == 0
    ||| exists|i: int|
        0 <= i < keywords.len() && speaks_of(
            unicode::lowercase(title) + " "@ + unicode::lowercase(desc),
            unicode::lowercase(#[trigger] keywords[i]),
        )
}

/// Whether a word counts in the match of a phrase.
fn counts_as_token(w: &str) -> (r: bool)
    ensures
        r == is_token(w@),
{
    let v = text::chars_of(w);
    text::byte_len(w) > 1 && v.len() > 0 && v[0].is_alphanumeric()
}

/// The words of a phrase of which all must stand in an article.
pub fn tokens_of(phrase: &str) -> (r: Vec<String>)
    ensures
        text::views(r@) == phrase_tokens(phrase@),
{
    let words = text::split_whitespace(phrase);
    let mut r: Vec<String> = Vec::new();
    let ghost ws = text::views(words@);
    let ghost p = |w: Seq<char>| is_token(w);
    let mut i: usize = 0;
    while i < words.len()
        invariant
            i <= words@.len(),
            ws == text::views(words@),
            p == (|w: Seq<char>| is_token(w)),
            text::views(r@) == ws.take(i as int).filter(p),
        decreases words.len() - i,
    {
        broadcast use text::views_push;

        proof {
            lists::take_next(ws, i as int);
            ws.take(i as int).lemma_filter_push(ws[i as int], p);
        }
        if counts_as_token(&words[i]) {
            r.push(words[i].clone());
        }
        i += 1;
    }
    proof {
        lists::take_all(ws);
    }
    let ghost all = r@;
    r.truncate(2);
    assert(text::views(r@) =~= order::cut(text::views(all), 2));
    r
}

/// Whether an article speaks of a phrase.
fn is_about(article: &str, phrase: &str) -> (r: bool)
    ensures
        r == speaks_of(article@, phrase@),
{
    if text::contains(article, phrase) {
        return true;
    }
    let tokens = tokens_of(phrase);
    assert(text::views(tokens@).len() == tokens@.len());
    tokens.len() > 0 && text::contains_all(article, &tokens)
}

/// Whether an article is wanted.
pub fn is_wanted(title: &str, desc: &str, keywords: &Vec<String>) -> (r: bool)
    ensures
        r == wanted(title@, desc@, text::views(keywords@)),
{
    if keywords.len() == 0 {
        return true;
    }
    let mut article = title.to_lowercase();
    article.append(" ");
    article.append(&desc.to_lowercase());
    let ghost ks = text::views(keywords@);
    let mut i: usize = 0;
    while i < keywords.len()
        invariant
            i <= keywords@.len(),
            ks == text::views(keywords@),
            article@ == unicode::lowercase(title@) + " "@ + unicode::lowercase(desc@),
            forall|j: int|
                0 <= j < i ==> !speaks_of(article@, unicode::lowercase(#[trigger] ks[j])),
        decreases keywords.len() - i,
    {
        let k = keywords[i].to_lowercase();
        if is_about(&article, &k) {
            assert(speaks_of(article@, unicode::lowercase(ks[i as int])));
            return true;
        }
        i += 1;
    }
    false
}

/// The time that a feed gives: as in RFC 2822, or else in one of the forms of a time in UTC.
pub open spec fn feed_time(s: Seq<char>) -> Option<Timestamp> {
    match time::rfc2822_time(text::trimmed(s)) {
        Some(t) => Some(t),
        None => time::utc_time(text::trimmed(s)),
    }
}

/// Reads the time that a feed gives.
pub fn parse_feed_time(s: &str) -> (r: Option<Timestamp>)
    ensures
        r == feed_time(s@),
{
    let t = text::trim(s);
    match time::parse_rfc2822(&t) {
        Some(x) => Some(x),
        None => time::parse_utc(&t),
    }
}

/// The value of the last attribute with a name, or a fallback.
pub open spec fn last_raw(attrs: Seq<Attr>, name: Seq<char>, fallback: Seq<char>) -> Seq<char>
    decreases attrs.len(),
{
    if attrs.len() == 0 {
        fallback
    } else if attrs.last().name == name {
        attrs.last().raw
    } else {
        last_raw(attrs.drop_last(), name, fallback)
    }
}

/// The value of the last attribute with a name, or the fallback.
fn last_raw_value(attrs: &Vec<XmlAttr>, name: &str, fallback: &str) -> (r: String)
    ensures
        r@ == last_raw(xml::attr_views(attrs@), name@, fallback@),
{
    let ghost vs = xml::attr_views(attrs@);
    let mut r = fallback.to_owned();
    let mut i: usize = 0;
    while i < attrs.len()
        invariant
            i <= attrs@.len(),
            vs == xml::attr_views(attrs@),
            r@ == last_raw(vs.take(i as int), name@, fallback@),
        decreases attrs.len() - i,
    {
        proof {
            lists::take_next(vs, i as int);
            assert(vs.take(i + 1).drop_last() =~= vs.take(i as int));
        }
        if same(&attrs[i].name, name) {
            r = attrs[i].raw.clone();
        }
        i += 1;
    }
    proof {
        lists::take_all(vs);
    }
    r
}

/// How far the reading of a feed has come.
#[verifier::ext_equal]
pub struct Feed {
    /// Whether an item is open.
    pub open: bool,
    /// The element that was opened last within an item.
    pub tag: Seq<char>,
    pub title: Seq<char>,
    pub link: Seq<char>,
    pub desc: Seq<char>,
    pub date: Seq<char>,
    /// The items that were wanted.
    pub items: Seq<News>,
    /// Whether there are as many items as were asked for.
    pub full: bool,
}

/// The beginning of a feed.
pub open spec fn new_feed() -> Feed {
    Feed {
        open: false,
        tag: Seq::empty(),
        title: Seq::empty(),
        link: Seq::empty(),
        desc: Seq::empty(),
        date: Seq::empty(),
        items: Seq::empty(),
        full: false,
    }
}

/// Whether an element is an item of a feed.
pub open spec fn is_item(tag: Seq<char>) -> bool {
    tag == "item"@ || tag == "entry"@
}

/// Whether an element describes an item.
pub open spec fn is_desc(tag: Seq<char>) -> bool {
    tag == "description"@ || tag == "summary"@ || tag == "content"@ || tag == "content:encoded"@
}

/// Whether an element dates an item.
pub open spec fn is_date(tag: Seq<char>) -> bool {
    tag == "pubdate"@ || tag == "published"@ || tag == "updated"@ || tag == "dc:date"@
}

/// A feed after text in an item; only text between tags can date it.
pub open spec fn with_text(f: Feed, t: Seq<char>, dates: bool) -> Feed {
    if f.tag == "title"@ {
        Feed { title: t, ..f }
    } else if f.tag == "link"@ && f.link.len() == 0 {
        Feed { link: t, ..f }
    } else if is_desc(f.tag) {
        Feed { desc: t, ..f }
    } else if dates && is_date(f.tag) {
        Feed { date: t, ..f }
    } else {
        f
    }
}

/// The item that a feed has open.
pub open spec fn open_item(f: Feed, source: Seq<char>) -> News {
    News {
        title: f.title,
        url: f.link,
        source,
        published: feed_time(f.date),
        description: text::shortened(plain_text(f.desc), 300),
    }
}

/// A feed after the end of its open item: the item is kept where it has a title and a link
/// and is wanted.
pub open spec fn with_item_closed(
    f: Feed,
    source: Seq<char>,
    keywords: Seq<Seq<char>>,
    max: nat,
) -> Feed {
    let g = Feed { open: false, tag: Seq::empty(), ..f };
    if f.title.len() == 0 || f.link.len() == 0 || !wanted(f.title, f.desc, keywords) {
        g
    } else {
        let items = f.items.push(open_item(f, source));
        Feed { items, full: items.len() >= max, ..g }
    }
}

/// A feed after one more event.
pub open spec fn feed_step(
    f: Feed,
    e: Xml,
    source: Seq<char>,
    keywords: Seq<Seq<char>>,
    max: nat,
) -> Feed {
    match e {
        Xml::Start { name, attrs } => {
            let tag = unicode::lowercase(name);
            if is_item(tag) {
                Feed {
                    open: true,
                    title: Seq::empty(),
                    link: Seq::empty(),
                    desc: Seq::empty(),
                    date: Seq::empty(),
                    ..f
                }
            } else if !f.open {
                f
            } else if tag == "link"@ {
                Feed { tag, link: last_raw(attrs, "href"@, f.link), ..f }
            } else {
                Feed { tag, ..f }
            }
        },
        Xml::Empty { name, attrs } => if f.open && unicode::lowercase(name) == "link"@ {
            Feed { link: last_raw(attrs, "href"@, f.link), ..f }
        } else {
            f
        },
        Xml::Text(t) => if f.open {
            with_text(f, t, true)
        } else {
            f
        },
        Xml::CData(t) => if f.open {
            with_text(f, t, false)
        } else {
            f
        },
        Xml::End { name } => if is_item(unicode::lowercase(name)) && f.open {
            with_item_closed(f, source, keywords, max)
        } else {
            f
        },
        Xml::Other => f,
    }
}

/// A feed after events; once it is full, no further event changes it.
pub open spec fn feed_after(
    events: Seq<Xml>,
    source: Seq<char>,
    keywords: Seq<Seq<char>>,
    max: nat,
) -> Feed
    decreases events.len(),
{
    if events.len() == 0 {
        new_feed()
    } else {
        let f = feed_after(events.drop_last(), source, keywords, max);
        if f.full {
            f
        } else {
            feed_step(f, events.last(), source, keywords, max)
        }
    }
}

/// A reader of feeds.
pub struct FeedReader {
    pub open: bool,
    pub tag: String,
    pub title: String,
    pub link: String,
    pub desc: String,
    pub date: String,
    pub items: Vec<NewsItem>,
    pub full: bool,
}

impl View for FeedReader {
    type V = Feed;

    open spec fn view(&self) -> Feed {
        Feed {
            open: self.open,
            tag: self.tag@,
            title: self.title@,
            link: self.link@,
            desc: self.desc@,
            date: self.date@,
            items: lists::views(self.items@),
            full: self.full,
        }
    }
}

impl FeedReader {
    /// A reader at the beginning of a feed.
    pub fn new() -> (r: FeedReader)
        ensures
            r@ == new_feed(),
    {
        FeedReader {
            open: false,
            tag: String::new(),
            title: String::new(),
            link: String::new(),
            desc: String::new(),
            date: String::new(),
            items: Vec::new(),
            full: false,
        }
    }

    /// Takes text in an item.
    fn take_text(&mut self, t: &str, dates: bool)
        ensures
            final(self)@ == with_text(old(self)@, t@, dates),
    {
        if same(&self.tag, "title") {
            self.title = t.to_owned();
        } else if same(&self.tag, "link") && text::is_empty(&self.link) {
            self.link = t.to_owned();
        } else if same(&self.tag, "description") || same(&self.tag, "summary") || same(
            &self.tag,
            "content",
        ) || same(&self.tag, "content:encoded") {
            self.desc = t.to_owned();
        } else if dates && (same(&self.tag, "pubdate") || same(&self.tag, "published") || same(
            &self.tag,
            "updated",
        ) || same(&self.tag, "dc:date")) {
            self.date = t.to_owned();
        }
    }

    /// Closes the open item.
    fn close_item(&mut self, source: &str, keywords: &Vec<String>, max: usize)
        requires
            !old(self)@.full,
        ensures
            final(self)@ == with_item_closed(
                old(self)@,
                source@,
                text::views(keywords@),
                max as nat,
            ),
    {
        self.open = false;
        self.tag = String::new();
        if text::is_empty(&self.title) || text::is_empty(&self.link) || !is_wanted(
            &self.title,
            &self.desc,
            keywords,
        ) {
            return ;
        }
        let plain = strip_html(&self.desc);
        let item = NewsItem {
            title: self.title.clone(),
            url: self.link.clone(),
            source: source.to_owned(),
            published: parse_feed_time(&self.date),
            description: text::take_chars(&plain, 300),
        };
        proof {
            lists::views_push(self.items@, item);
        }
        self.items.push(item);
        if self.items.len() >= max {
            self.full = true;
        }
    }

    /// Takes one more event.
    pub fn step(&mut self, e: &XmlEvent, source: &str, keywords: &Vec<String>, max: usize)
        requires
            !old(self)@.full,
        ensures
            final(self)@ == feed_step(
                old(self)@,
                e@,
                source@,
                text::views(keywords@),
                max as nat,
            ),
    {
        match e {
            XmlEvent::Start { name, attrs } => {
                let tag = name.to_lowercase();
                if same(&tag, "item") || same(&tag, "entry") {
                    self.open = true;
                    self.title = String::new();
                    self.link = String::new();
                    self.desc = String::new();
                    self.date = String::new();
                } else if self.open {
                    if same(&tag, "link") {
                        self.link = last_raw_value(attrs, "href", &self.link);
                    }
                    self.tag = tag;
                }
            },
            XmlEvent::Empty { name, attrs } => {
                if self.open && same(&name.to_lowercase(), "link") {
                    self.link = last_raw_value(attrs, "href", &self.link);
                }
            },
            XmlEvent::Text(t) => {
                if self.open {
                    self.take_text(t, true);
                }
            },
            XmlEvent::CData(t) => {
                if self.open {
                    self.take_text(t, false);
                }
            },
            XmlEvent::End { name } => {
                let tag = name.to_lowercase();
                if (same(&tag, "item") || same(&tag, "entry")) && self.open {
                    self.close_item(source, keywords, max);
                }
            },
            XmlEvent::Other => {},
        }
    }
}

/// The wanted items of a feed, by its events.
pub fn rss_items_from_events(
    events: &Vec<XmlEvent>,
    source: &str,
    keywords: &Vec<String>,
    max: usize,
) -> (r: Vec<NewsItem>)
    ensures
        lists::views(r@) == feed_after(
            xml::event_views(events@),
            source@,
            text::views(keywords@),
            max as nat,
        ).items,
{
    let ghost vs = xml::event_views(events@);
    let ghost ks = text::views(keywords@);
    let mut reader = FeedReader::new();
    let mut i: usize = 0;
    while i < events.len()
        invariant
            i <= events@.len(),
            vs == xml::event_views(events@),
            ks == text::views(keywords@),
            reader@ == feed_after(vs.take(i as int), source@, ks, max as nat),
        decreases events.len() - i,
    {
        proof {
            assert(vs.take(i + 1).drop_last() =~= vs.take(i as int));
        }
        if !reader.full {
            reader.step(&events[i], source, keywords, max);
        }
        i += 1;
    }
    proof {
        lists::take_all(vs);
    }
    reader.items
}

/// The wanted items of a feed: those with a title and a link that speak of a keyword, up to the
/// number asked for.
pub fn parse_rss_items(xml: &str, source: &str, keywords: &Vec<String>, max: usize) -> (r: Vec<
    NewsItem,
>)
    ensures
        lists::views(r@) == feed_after(
            xml::events_in(xml@),
            source@,
            text::views(keywords@),
            max as nat,
        ).items,
{
    let events = xml::read_events(xml);
    rss_items_from_events(&events, source, keywords, max)
}

/// Whether news may come of a feed: it has a title and an address, carries the source's name,
/// and its description is the beginning of one with which it is wanted.
pub open spec fn acceptable(n: News, source: Seq<char>, keywords: Seq<Seq<char>>) -> bool {
    &&& n.title.len() > 0
    &&& n.url.len() > 0
    &&& n.source == source
    &&& n.description.len() <= 300
    &&& exists|desc: Seq<char>| #[trigger]
        wanted(n.title, desc, keywords) && n.description == text::shortened(plain_text(desc), 300)
}

/// Every item that is kept is acceptable, and there are at most as many as were asked for, or
/// one where none was.
pub proof fn kept_items_are_wanted(
    events: Seq<Xml>,
    source: Seq<char>,
    keywords: Seq<Seq<char>>,
    max: nat,
)
    ensures
        feed_after(events, source, keywords, max).items.len() <= (if max == 0 {
            1
        } else {
            max
        }),
        !feed_after(events, source, keywords, max).full ==> feed_after(
            events,
            source,
            keywords,
            max,
        ).items.len() < (if max == 0 {
            1
        } else {
            max
        }),
        forall|i: int|
            0 <= i < feed_after(events, source, keywords, max).items.len() ==> acceptable(
                #[trigger] feed_after(events, source, keywords, max).items[i],
                source,
                keywords,
            ),
    decreases events.len(),
{
    if events.len() > 0 {
        kept_items_are_wanted(events.drop_last(), source, keywords, max);
        let f = feed_after(events.drop_last(), source, keywords, max);
        let g = feed_after(events, source, keywords, max);
        assert forall|i: int| 0 <= i < g.items.len() implies acceptable(
            #[trigger] g.items[i],
            source,
            keywords,
        ) by {
            if i < f.items.len() {
                assert(g.items[i] == f.items[i]);
                assert(acceptable(f.items[i], source, keywords));
            } else {
                assert(g.items[i] == open_item(f, source));
                let n = g.items[i];
                assert(n.description == text::shortened(plain_text(f.desc), 300));
                assert(n.description.len() <= 300);
                assert(n.source == source);
                assert(wanted(n.title, f.desc, keywords));
            }
        }
    }
}

// ── Hacker News ────────────────────────────────────────────────────────────────

/// A story that a search found.
pub struct HNHit {
    pub title: String,
    pub url: String,
    pub object_id: String,
    pub story_text: String,
    pub created_at: String,
}

/// The addresses of the searches that are made one after another until one finds a story: by
/// date, by relevance, and by relevance without the tag.
pub open spec fn hackernews_addresses(kw: Seq<char>, max: nat) -> Seq<Seq<char>> {
    let q = percent::query_text(kw);
    let n = number::decimal(max);
    seq![
        "https://hn.algolia.com/api/v1/search_by_date?query="@ + q + "&tags=story&hitsPerPage="@
            + n,
        "https://hn.algolia.com/api/v1/search?query="@ + q + "&tags=story&hitsPerPage="@ + n,
        "https://hn.algolia.com/api/v1/search?query="@ + q + "&hitsPerPage="@ + n,
    ]
}

/// The addresses of the searches for stories.
pub fn hackernews_urls(kw: &str, max: usize) -> (r: Vec<String>)
    ensures
        text::views(r@) == hackernews_addresses(kw@, max as nat),
{
    let q = percent::urlencoding(kw);
    let n = number::usize_text(max);
    let r = vec![
        text::concat4(
            "https://hn.algolia.com/api/v1/search_by_date?query=",
            &q,
            "&tags=story&hitsPerPage=",
            &n,
        ),
        text::concat4("https://hn.algolia.com/api/v1/search?query=", &q, "&tags=story&hitsPerPage=", &n),
        text::concat4("https://hn.algolia.com/api/v1/search?query=", &q, "&hitsPerPage=", &n),
    ];
    assert(text::views(r@) =~= hackernews_addresses(kw@, max as nat));
    r
}

/// The index of the search for stories to make next, after `tried` searches of which the last
/// found `found` stories: once one finds a story, no other is made.
pub fn next_story_search(tried: usize, found: usize) -> (r: Option<usize>)
    ensures
        r == (if found == 0 && tried < 3 {
            Some(tried)
        } else {
            None
        }),
{
    if found == 0 && tried < 3 {
        Some(tried)
    } else {
        None
    }
}

/// The news of a story; a story without an address links to its discussion.
pub open spec fn hit_news(h: HNHit) -> News {
    News {
        title: h.title@,
        url: if h.url@.len() == 0 {
            "https://news.ycombinator.com/item?id="@ + h.object_id@
        } else {
            h.url@
        },
        source: "Hacker News"@,
        published: time::rfc3339_time(h.created_at@),
        description: text::shortened(h.story_text@, 300),
    }
}

/// The news of a story.
pub fn hackernews_item(h: &HNHit) -> (r: NewsItem)
    ensures
        r@ == hit_news(*h),
{
    NewsItem {
        title: h.title.clone(),
        url: if text::is_empty(&h.url) {
            let mut u = "https://news.ycombinator.com/item?id=".to_owned();
            u.append(&h.object_id);
            u
        } else {
            h.url.clone()
        },
        source: "Hacker News".to_owned(),
        published: time::parse_rfc3339(&h.created_at),
        description: text::take_chars(&h.story_text, 300),
    }
}

/// The news of the stories that have a title.
pub fn hackernews_items(hits: &Vec<HNHit>) -> (r: Vec<NewsItem>)
    ensures
        lists::views(r@) == hits@.filter(|h: HNHit| h.title@.len() > 0).map_values(
            |h: HNHit| hit_news(h),
        ),
        (forall|i: int| 0 <= i < hits@.len() ==> (#[trigger] hits@[i]).title@.len() > 0) ==> r@.len()
            == hits@.len() && forall|i: int|
            0 <= i < r@.len() ==> (#[trigger] r@[i]).title@ == hits@[i].title@ && (
            hits@[i].url@.len() > 0 ==> r@[i].url@ == hits@[i].url@) && r@[i].published
                == time::rfc3339_time(hits@[i].created_at@),
{
    let ghost all = hits@;
    let ghost f = |h: HNHit| h.title@.len() > 0;
    let ghost g = |h: HNHit| hit_news(h);
    let mut r: Vec<NewsItem> = Vec::new();
    let mut i: usize = 0;
    assert(all.take(0).filter(f).map_values(g) =~= Seq::empty()) by {
        reveal(Seq::filter);
    }
    assert(lists::views(r@) =~= Seq::empty());
    while i < hits.len()
        invariant
            i <= hits@.len(),
            all == hits@,
            f == (|h: HNHit| h.title@.len() > 0),
            g == (|h: HNHit| hit_news(h)),
            lists::views(r@) == all.take(i as int).filter(f).map_values(g),
        decreases hits.len() - i,
    {
        broadcast use lists::views_push;

        proof {
            lists::take_next(all, i as int);
            all.take(i as int).lemma_filter_push(all[i as int], f);
            let a = all.take(i as int).filter(f);
            assert(a.push(all[i as int]).map_values(g) =~= a.map_values(g).push(g(all[i as int])));
        }
        if !text::is_empty(&hits[i].title) {
            r.push(hackernews_item(&hits[i]));
        }
        i += 1;
    }
    proof {
        lists::take_all(all);
        assert(lists::views(r@).len() == r@.len());
        if forall|i: int| 0 <= i < all.len() ==> (#[trigger] all[i]).title@.len() > 0 {
            assert forall|i: int| 0 <= i < all.len() implies f(#[trigger] all[i]) by {
                assert(all[i].title@.len() > 0);
            }
            lists::filter_of_all(all, f);
            assert forall|i: int| 0 <= i < r@.len() implies (#[trigger] r@[i]).title@
                == all[i].title@ && (all[i].url@.len() > 0 ==> r@[i].url@ == all[i].url@)
                && r@[i].published == time::rfc3339_time(all[i].created_at@) by {
                assert(lists::views(r@)[i] == g(all[i]));
            }
        }
    }
    r
}

// ── Sharing and merging ────────────────────────────────────────────────────────

/// How many items each of `n` searches is asked for: an even share and two more, and no more
/// than all.
pub fn share(max: usize, n: usize) -> (r: usize)
    ensures
        r == (if n == 0 {
            max as int
        } else if max / n + 2 < max {
            max / n + 2
        } else {
            max as int
        }),
        r == even_share(max as nat, n as nat),
{
    if n == 0 {
        return max;
    }
    let q: usize = max / n;
    assert(q <= max) by (nonlinear_arith)
        requires
            q == max / n,
            n >= 1,
            max >= 0,
    ;
    if max - q <= 2 {
        max
    } else {
        q + 2
    }
}

/// The news of several searches: each address once, newest first, at most `max`.
pub fn merge_news(results: Vec<Vec<NewsItem>>, max: usize) -> (r: Vec<NewsItem>)
    ensures
        r@ == order::cut(order::by_date(order::distinct(order::flat(results@))), max as nat),
        r@.len() <= max,
        forall|i: int| 0 <= i < r@.len() ==> order::flat(results@).contains(#[trigger] r@[i]),
        forall|i: int, j: int|
            0 <= i < j < r@.len() ==> (#[trigger] r@[i]).url@ != (#[trigger] r@[j]).url@
                && !order::older(r@[i].published, r@[j].published),
        max >= order::flat(results@).len() ==> forall|n: NewsItem|
            #[trigger] order::flat(results@).contains(n) ==> exists|k: int|
                0 <= k < r@.len() && (#[trigger] r@[k]).url@ == n.url@,
{
    let ghost all = order::flat(results@);
    let r = order::truncated(order::merge_entries(results), max);
    proof {
        lemma_merged_news(all, r@, max as nat);
    }
    r
}

/// The news of several feeds: each address once, newest first.
pub fn merge_feeds(results: Vec<Vec<NewsItem>>) -> (r: Vec<NewsItem>)
    ensures
        r@ == order::by_date(order::distinct(order::flat(results@))),
        forall|i: int| 0 <= i < r@.len() ==> order::flat(results@).contains(#[trigger] r@[i]),
        forall|i: int, j: int|
            0 <= i < j < r@.len() ==> (#[trigger] r@[i]).url@ != (#[trigger] r@[j]).url@
                && !order::older(r@[i].published, r@[j].published),
        forall|n: NewsItem|
            #[trigger] order::flat(results@).contains(n) ==> exists|k: int|
                0 <= k < r@.len() && (#[trigger] r@[k]).url@ == n.url@,
{
    let ghost all = order::flat(results@);
    let r = order::merge_entries(results);
    proof {
        order::distinct_is_no_longer(all);
        order::by_date_is_ordered(order::distinct(all));
        lemma_merged_news(all, r@, all.len());
    }
    r
}

/// The stories and the projects together, newest first, at most `max`.
pub fn combine_news(hn: Vec<NewsItem>, gh: Vec<NewsItem>, max: usize) -> (r: Vec<NewsItem>)
    ensures
        r@ == order::cut(order::by_date(hn@ + gh@), max as nat),
        r@.len() <= max,
        forall|i: int, j: int|
            0 <= i < j < r@.len() ==> !order::older(
                (#[trigger] r@[i]).published,
                (#[trigger] r@[j]).published,
            ),
        max >= hn@.len() + gh@.len() ==> r@.to_multiset() == (hn@ + gh@).to_multiset(),
{
    let mut all = hn;
    let mut gh = gh;
    all.append(&mut gh);
    let ghost both = all@;
    let r = order::truncated(order::sort_entries(all), max);
    proof {
        order::by_date_is_ordered(both);
        let b = order::by_date(both);
        assert forall|i: int, j: int| 0 <= i < j < r@.len() implies !order::older(
            (#[trigger] r@[i]).published,
            (#[trigger] r@[j]).published,
        ) by {
            assert(r@[i] == b[i] && r@[j] == b[j]);
            assert(!order::older(b[i].date(), b[j].date()));
        }
    }
    r
}

// ── Keyword expansion ──────────────────────────────────────────────────────────

/// What the language model is asked for search terms.
pub const NEWS_EXPAND_PROMPT: &'static str = r#"你是技術新聞搜尋專家。請根據以下關鍵字，同時生成英文與繁體中文兩組搜尋詞組，用於搜尋技術新聞與案例分享。

英文詞組（4–6 個）：
- 目標工具的子元件、開發公司或社群、常見使用場景術語
- ❌ 不要包含競品；不要包含過於通用的詞彙

繁體中文詞組（3–5 個）：
- 適合搜尋台灣技術媒體（iThome、科技新報）的說法
- 可直接使用英文原名（如 KubeRay、Ray Framework），或業界慣用中文術語
- ❌ 不要逐字翻譯英文

✅ 例子："kuberay" →
  en: ["ray cluster", "ray serve", "anyscale ray", "ray operator"]
  zh: ["KubeRay", "Ray 框架", "Ray 分散式"]

關鍵字：{keyword}

只回傳 JSON，不加任何說明：
{"en": ["ray cluster", "ray serve", "anyscale ray"], "zh": ["KubeRay", "Ray 框架", "Ray 分散式"]}"#;

/// What the language model is asked for the search terms of a keyword.
pub fn news_expand_prompt(kw: &str) -> (r: String)
    ensures
        r@ == text::replaced(NEWS_EXPAND_PROMPT@, "{keyword}"@, kw@),
{
    proof {
        reveal_strlit("{keyword}");
    }
    text::replace(NEWS_EXPAND_PROMPT, "{keyword}", kw)
}

/// The part of a reply that is read as search terms.
pub fn news_terms_part(reply: &str) -> (r: String)
    ensures
        r@ == text::from_first(json::unfenced(reply@), "{"@),
{
    text::skip_to(&json::strip_code_fences(reply), "{")
}

/// The keyword and the terms that were read behind it.
pub fn with_keyword(kw: &str, terms: Vec<String>) -> (r: Vec<String>)
    ensures
        text::views(r@) == seq![kw@] + text::views(terms@),
{
    let mut terms = terms;
    let ghost had = terms@;
    let mut r = vec![kw.to_owned()];
    r.append(&mut terms);
    assert(text::views(r@) =~= seq![kw@] + text::views(had));
    r
}

/// The English and the Chinese search terms of a keyword, each with the keyword in front;
/// `parsed` is what the reply was read as, if it could be read.
pub fn expanded_keywords(kw: &str, parsed: Option<(Vec<String>, Vec<String>)>) -> (r: (
    Vec<String>,
    Vec<String>,
))
    ensures
        text::views(r.0@) == seq![kw@] + (match parsed {
            Some(p) => text::views(p.0@),
            None => Seq::empty(),
        }),
        text::views(r.1@) == seq![kw@] + (match parsed {
            Some(p) => text::views(p.1@),
            None => Seq::empty(),
        }),
{
    match parsed {
        Some(p) => (with_keyword(kw, p.0), with_keyword(kw, p.1)),
        None => {
            let a: Vec<String> = Vec::new();
            let b: Vec<String> = Vec::new();
            assert(text::views(a@) =~= Seq::empty());
            assert(text::views(b@) =~= Seq::empty());
            (with_keyword(kw, a), with_keyword(kw, b))
        },
    }
}

// ── GitHub ─────────────────────────────────────────────────────────────────────

/// A project that a search found.
pub struct GitHubItem {
    pub full_name: String,
    pub html_url: String,
    pub description: Option<String>,
    pub pushed_at: Option<String>,
    pub created_at: Option<String>,
    pub stargazers_count: Option<u64>,
    pub language: Option<String>,
}

/// The windows of days in which projects are searched that were worked on.
pub const PUSHED_WINDOWS: [u32; 3] = [30, 90, 365];

/// The windows of days in which new projects are searched, with the stars they must have.
pub const EMERGING_WINDOWS: [(u32, u64); 3] = [(90, 10), (180, 5), (365, 2)];

/// The query for projects that were worked on since a day.
pub fn pushed_query(kw: &str, since: &str) -> (r: String)
    ensures
        r@ == kw@ + " pushed:>"@ + since@,
{
    let mut r = kw.to_owned();
    r.append(" pushed:>");
    r.append(since);
    r
}

/// The query for projects that were created since a day and have stars.
pub fn emerging_query(kw: &str, since: &str, min_stars: u64) -> (r: String)
    ensures
        r@ == kw@ + " created:>"@ + since@ + " stars:>"@ + number::decimal(min_stars as nat),
{
    let mut r = kw.to_owned();
    r.append(" created:>");
    r.append(since);
    r.append(" stars:>");
    r.append(&number::u64_text(min_stars));
    r
}

/// The address of a search for projects.
pub fn github_search_url(query: &str, max: usize) -> (r: String)
    ensures
        r@ == "https://api.github.com/search/repositories?q="@ + percent::query_text(query@)
            + "&sort=stars&order=desc&per_page="@ + number::decimal(max as nat),
{
    let q = percent::urlencoding(query);
    let n = number::usize_text(max);
    text::concat4(
        "https://api.github.com/search/repositories?q=",
        &q,
        "&sort=stars&order=desc&per_page=",
        &n,
    )
}

/// What a search in one window came to.
pub enum SearchOutcome {
    /// No reply.
    NotSent,
    /// A reply with a status, and the number of projects in it where it could be read.
    Replied { status: u16, found: Option<usize> },
}

/// What to do after a search in one window.
#[derive(Debug, Clone, Copy, PartialEq, Eq, Structural)]
pub enum SearchStep {
    /// Search in the next window.
    Next,
    /// Give up.
    Stop,
    /// Take the projects that were found.
    Take,
}

/// What to do after a search in one window: a refusal ends the search, and a window without
/// projects is passed over.
pub fn after_search(outcome: SearchOutcome) -> (r: SearchStep)
    ensures
        r == (match outcome {
            SearchOutcome::NotSent => SearchStep::Next,
            SearchOutcome::Replied { status, found } => if status == 403 {
                SearchStep::Stop
            } else if found matches Some(n) && n > 0 {
                SearchStep::Take
            } else {
                SearchStep::Next
            },
        }),
        r == search_step(outcome),
{
    match outcome {
        SearchOutcome::NotSent => SearchStep::Next,
        SearchOutcome::Replied { status, found } => {
            if status == 403 {
                SearchStep::Stop
            } else {
                match found {
                    Some(n) => if n > 0 {
                        SearchStep::Take
                    } else {
                        SearchStep::Next
                    },
                    None => SearchStep::Next,
                }
            }
        },
    }
}

/// An optional text, or a fallback.
pub open spec fn text_or(s: Option<String>, fallback: Seq<char>) -> Seq<char> {
    match s {
        Some(x) => x@,
        None => fallback,
    }
}

/// An optional text, or the fallback.
pub fn or_text(s: &Option<String>, fallback: &str) -> (r: String)
    ensures
        r@ == text_or(*s, fallback@),
{
    match s {
        Some(x) => x.clone(),
        None => fallback.to_owned(),
    }
}

/// The news of a project; the date is that of its creation or that of the last work on it.
pub open spec fn project_news(item: GitHubItem, by_creation: bool) -> News {
    let date = if by_creation {
        item.created_at
    } else {
        item.pushed_at
    };
    let stars = match item.stargazers_count {
        Some(n) => n as nat,
        None => 0,
    };
    News {
        title: item.full_name@,
        url: item.html_url@,
        source: "GitHub"@,
        published: match date {
            Some(d) => time::rfc3339_time(d@),
            None => None,
        },
        description: "⭐ "@ + text::right_aligned(number::decimal(stars), 6) + " | "@ + text_or(
            item.language,
            "unknown"@,
        ) + " | "@ + text_or(item.description, "No description"@),
    }
}

/// The news of a project.
pub fn github_item(item: &GitHubItem, by_creation: bool) -> (r: NewsItem)
    ensures
        r@ == project_news(*item, by_creation),
{
    let date = if by_creation {
        &item.created_at
    } else {
        &item.pushed_at
    };
    let published = match date {
        Some(d) => time::parse_rfc3339(d),
        None => None,
    };
    let stars: u64 = match item.stargazers_count {
        Some(n) => n,
        None => 0,
    };
    let mut description = "⭐ ".to_owned();
    description.append(&text::align_right(&number::u64_text(stars), 6));
    description.append(" | ");
    description.append(&or_text(&item.language, "unknown"));
    description.append(" | ");
    description.append(&or_text(&item.description, "No description"));
    NewsItem {
        title: item.full_name.clone(),
        url: item.html_url.clone(),
        source: "GitHub".to_owned(),
        published,
        description,
    }
}

/// The news of projects.
pub fn github_items(items: &Vec<GitHubItem>, by_creation: bool) -> (r: Vec<NewsItem>)
    ensures
        lists::views(r@) == items@.map_values(|x: GitHubItem| project_news(x, by_creation)),
        r@.len() == items@.len(),
        forall|i: int|
            0 <= i < r@.len() ==> (#[trigger] r@[i]).title@ == items@[i].full_name@ && r@[i].url@
                == items@[i].html_url@,
{
    let ghost g = |x: GitHubItem| project_news(x, by_creation);
    let mut r: Vec<NewsItem> = Vec::new();
    let mut i: usize = 0;
    assert(lists::views(r@) =~= items@.take(0).map_values(g));
    while i < items.len()
        invariant
            i <= items@.len(),
            g == (|x: GitHubItem| project_news(x, by_creation)),
            lists::views(r@) == items@.take(i as int).map_values(g),
        decreases items.len() - i,
    {
        broadcast use lists::views_push;

        assert(items@.take(i + 1).map_values(g) =~= items@.take(i as int).map_values(g).push(
            g(items@[i as int]),
        ));
        r.push(github_item(&items[i], by_creation));
        i += 1;
    }
    proof {
        lists::take_all(items@);
        assert(lists::views(r@).len() == r@.len());
        assert forall|i: int| 0 <= i < r@.len() implies (#[trigger] r@[i]).title@
            == items@[i].full_name@ && r@[i].url@ == items@[i].html_url@ by {
            assert(lists::views(r@)[i] == g(items@[i]));
        }
    }
    r
}

// ── Retrying ───────────────────────────────────────────────────────────────────

/// How often a request is made at most.
pub const MAX_TRIES: u32 = 3;

/// What a request came to.
pub enum Attempt {
    /// No reply.
    NotSent,
    /// A reply with a status, and whether its body could be read.
    Replied { status: u16, readable: bool },
}

/// What to do after a request.
#[derive(Debug, Clone, Copy, PartialEq, Eq, Structural)]
pub enum NextTry {
    /// Take the body.
    Take,
    /// Give up.
    GiveUp,
    /// Make the request again after some seconds.
    Again { wait_secs: u64 },
}

/// What to do after the request number `tried`, counted from zero: a refusal of the request is
/// final, and any other failure is followed by another request, up to three in all, after one
/// second and then two.
pub open spec fn next_try(tried: nat, a: Attempt) -> NextTry {
    let again = if tried == 0 {
        NextTry::Again { wait_secs: 1 }
    } else if tried == 1 {
        NextTry::Again { wait_secs: 2 }
    } else {
        NextTry::GiveUp
    };
    match a {
        Attempt::NotSent => again,
        Attempt::Replied { status, readable } => if 400 <= status < 500 {
            NextTry::GiveUp
        } else if readable && !(500 <= status < 600) {
            NextTry::Take
        } else {
            again
        },
    }
}

/// What to do after the request number `tried`.
pub fn after_attempt(tried: u32, a: Attempt) -> (r: NextTry)
    ensures
        r == next_try(tried as nat, a),
{
    let again = if tried == 0 {
        NextTry::Again { wait_secs: 1 }
    } else if tried == 1 {
        NextTry::Again { wait_secs: 2 }
    } else {
        NextTry::GiveUp
    };
    match a {
        Attempt::NotSent => again,
        Attempt::Replied { status, readable } => {
            if 400 <= status && status < 500 {
                NextTry::GiveUp
            } else if readable && !(500 <= status && status < 600) {
                NextTry::Take
            } else {
                again
            }
        },
    }
}

/// A request is made at most three times, and never again after it was refused.
pub proof fn tries_are_bounded(tried: nat, a: Attempt)
    ensures
        next_try(tried, a) is Again ==> tried + 1 < MAX_TRIES,
        a matches Attempt::Replied { status, .. } && 400 <= status < 500 ==> next_try(tried, a)
            == NextTry::GiveUp,
{
}

// ── Feed sources ───────────────────────────────────────────────────────────────

/// The feeds: address, name, and whether the feed is in Chinese.
pub const RSS_SOURCES: [(&'static str, &'static str, bool); 10] = [
    ("https://feed.infoq.com/", "InfoQ", false),
    ("https://www.theregister.com/headlines.atom", "The Register", false),
    ("https://feeds.arstechnica.com/arstechnica/technology-lab", "Ars Technica", false),
    ("https://techcrunch.com/feed/", "TechCrunch", false),
    ("https://thenewstack.io/feed/", "The New Stack", false),
    ("https://lobste.rs/rss", "Lobsters", false),
    ("https://dev.to/feed", "dev.to", false),
    ("https://www.ithome.com.tw/rss", "iThome", true),
    ("https://technews.tw/feed/", "科技新報", true),
    ("https://www.inside.com.tw/feed", "INSIDE", true),
];

/// How many items each feed is asked for.
pub fn items_per_source(max: usize) -> (r: usize)
    ensures
        r == (if max / 10 + 2 < max {
            max / 10 + 2
        } else {
            max as int
        }),
{
    share(max, RSS_SOURCES.len())
}

/// A keyword as the tag of a feed: lowercase, with hyphens for spaces, of letters, digits and
/// hyphens alone, and without hyphens at its ends.
pub open spec fn medium_slug(kw: Seq<char>) -> Seq<char> {
    let hyphened = unicode::lowercase(kw).map_values(|c: char| if c == ' ' { '-' } else { c });
    let kept = hyphened.filter(|c: char| unicode::alphanumeric(c) || c == '-');
    text::without_suffixes(text::without_prefixes(kept, "-"@), "-"@)
}

/// A keyword as the tag of a feed.
pub fn to_medium_slug(kw: &str) -> (r: String)
    ensures
        r@ == medium_slug(kw@),
{
    let lower = kw.to_lowercase();
    let ghost f = |c: char| if c == ' ' { '-' } else { c };
    let ghost p = |c: char| unicode::alphanumeric(c) || c == '-';
    let ghost all = lower@.map_values(f);
    let mut kept = String::new();
    for c in it: lower.chars()
        invariant
            it.seq() == lower@,
            f == (|c: char| if c == ' ' { '-' } else { c }),
            p == (|c: char| unicode::alphanumeric(c) || c == '-'),
            all == lower@.map_values(f),
            kept@ == all.take(it.index() as int).filter(p),
    {
        let d = if c == ' ' { '-' } else { c };
        proof {
            let i = it.index() as int;
            lists::take_next(all, i);
            all.take(i).lemma_filter_push(all[i], p);
            assert(all[i] == d);
        }
        if d.is_alphanumeric() || d == '-' {
            kept.push(d);
        }
    }
    proof {
        lists::take_all(all);
        reveal_strlit("-");
    }
    text::trim_end_matches(&text::trim_start_matches(&kept, "-"), "-")
}

/// The tags of the first four keywords that make one.
pub fn medium_slugs(keywords: &Vec<String>) -> (r: Vec<String>)
    ensures
        text::views(r@) == order::cut(text::views(keywords@), 4).map_values(
            |k: Seq<char>| medium_slug(k),
        ).filter(|s: Seq<char>| s.len() > 0),
{
    let ghost f = |k: Seq<char>| medium_slug(k);
    let ghost p = |s: Seq<char>| s.len() > 0;
    let n: usize = if keywords.len() <= 4 {
        keywords.len()
    } else {
        4
    };
    let ghost all = order::cut(text::views(keywords@), 4).map_values(f);
    let mut r: Vec<String> = Vec::new();
    let mut i: usize = 0;
    while i < n
        invariant
            i <= n <= keywords@.len(),
            n <= 4,
            f == (|k: Seq<char>| medium_slug(k)),
            p == (|s: Seq<char>| s.len() > 0),
            all == order::cut(text::views(keywords@), 4).map_values(f),
            all.len() == n,
            text::views(r@) == all.take(i as int).filter(p),
        decreases n - i,
    {
        broadcast use text::views_push;

        let slug = to_medium_slug(&keywords[i]);
        proof {
            lists::take_next(all, i as int);
            all.take(i as int).lemma_filter_push(all[i as int], p);
            assert(all[i as int] == slug@);
        }
        if !text::is_empty(&slug) {
            r.push(slug);
        }
        i += 1;
    }
    proof {
        lists::take_all(all);
    }
    r
}

/// The address of a tag's feed.
pub fn medium_url(slug: &str) -> (r: String)
    ensures
        r@ == "https://medium.com/feed/tag/"@ + slug@,
{
    let mut r = "https://medium.com/feed/tag/".to_owned();
    r.append(slug);
    r
}

// ── Laws ─────────────────────────────────────────────────────────────────────

/// News is told apart by its address alone and ordered by its publication: of two pieces of news
/// with one address the first stays, and two with different addresses both stay.
pub proof fn news_is_told_apart_by_address(a: NewsItem, b: NewsItem)
    ensures
        a.url@ == b.url@ ==> order::distinct(seq![a, b]) == seq![a],
        a.url@ != b.url@ ==> order::distinct(seq![a, b]) == seq![a, b],
        a.date() == a.published,
{
    let s = seq![a, b];
    let ks = order::keys(s);
    let fl = order::firsts(ks);
    assert(ks[0] == a.url@ && ks[1] == b.url@);
    assert(fl[0] == order::is_first(ks, 0) && fl[1] == order::is_first(ks, 1));
    assert(order::is_first(ks, 1) == (a.url@ != b.url@)) by {
        if order::is_first(ks, 1) {
            assert(ks[0] != ks[1]);
        }
    }
    assert(s.drop_last() =~= seq![a]);
    assert(seq![a].drop_last() =~= Seq::<NewsItem>::empty());
    let one = order::kept(seq![a], fl.take(1));
    assert(fl.take(1)[0] == fl[0]);
    assert(order::kept(seq![a].drop_last(), fl.take(1).take(0)) =~= Seq::<NewsItem>::empty());
    assert(Seq::<NewsItem>::empty().push(a) =~= seq![a]);
    assert(one =~= seq![a]);
    assert(seq![a].push(b) =~= seq![a, b]);
}

/// Text and character data fill the element of an open item alike: its title becomes the text, its
/// link too where it has none yet, and so does its description; nothing else of it changes.
pub proof fn character_data_is_text(
    f: Feed,
    t: Seq<char>,
    source: Seq<char>,
    keywords: Seq<Seq<char>>,
    max: nat,
)
    requires
        f.open,
    ensures
        ({
            let a = feed_step(f, Xml::Text(t), source, keywords, max);
            let b = feed_step(f, Xml::CData(t), source, keywords, max);
            &&& a.open && b.open && a.items == f.items && b.items == f.items
            &&& a.tag == f.tag && b.tag == f.tag
            &&& f.tag == "title"@ ==> a.title == t && b.title == t
            &&& f.tag != "title"@ ==> a.title == f.title && b.title == f.title
            &&& f.tag == "link"@ && f.link.len() == 0 ==> a.link == t && b.link == t
            &&& f.tag != "link"@ || f.link.len() > 0 ==> a.link == f.link && b.link == f.link
            &&& f.tag == "description"@ || f.tag == "summary"@ || f.tag == "content"@ || f.tag
                == "content:encoded"@ ==> a.desc == t && b.desc == t
            &&& f.tag == "title"@ || f.tag == "link"@ ==> a.desc == f.desc && b.desc == f.desc
            &&& f.tag == "pubdate"@ || f.tag == "published"@ || f.tag == "updated"@ || f.tag
                == "dc:date"@ ==> a.date == t
        }),
{
    lemma_elements_differ();
}

/// The elements of an item have different names.
proof fn lemma_elements_differ()
    ensures
        "title"@ != "link"@ && "title"@ != "description"@ && "title"@ != "summary"@ && "title"@
            != "content"@ && "title"@ != "content:encoded"@ && "title"@ != "pubdate"@ && "title"@
            != "published"@ && "title"@ != "updated"@ && "title"@ != "dc:date"@,
        "link"@ != "description"@ && "link"@ != "summary"@ && "link"@ != "content"@ && "link"@
            != "content:encoded"@ && "link"@ != "pubdate"@ && "link"@ != "published"@ && "link"@
            != "updated"@ && "link"@ != "dc:date"@,
        !is_item("title"@) && !is_item("link"@) && !is_item("description"@),
        !is_desc("pubdate"@) && !is_desc("published"@) && !is_desc("updated"@)
            && !is_desc("dc:date"@),
        !is_item("pubdate"@),
{
    reveal_strlit("title");
    reveal_strlit("link");
    reveal_strlit("description");
    reveal_strlit("summary");
    reveal_strlit("content");
    reveal_strlit("content:encoded");
    reveal_strlit("pubdate");
    reveal_strlit("published");
    reveal_strlit("updated");
    reveal_strlit("dc:date");
    reveal_strlit("item");
    reveal_strlit("entry");
    assert("title"@.len() == 5 && "link"@.len() == 4 && "description"@.len() == 11
        && "summary"@.len() == 7 && "content"@.len() == 7 && "content:encoded"@.len() == 15
        && "pubdate"@.len() == 7 && "published"@.len() == 9 && "updated"@.len() == 7
        && "dc:date"@.len() == 7 && "item"@.len() == 4 && "entry"@.len() == 5);
    assert("title"@[0] == 't' && "link"@[0] == 'l' && "item"@[0] == 'i' && "entry"@[0] == 'e');
    assert("pubdate"@[0] == 'p' && "summary"@[0] == 's' && "content"@[0] == 'c' && "updated"@[0]
        == 'u' && "dc:date"@[0] == 'd');
}

/// Character data or text.
pub open spec fn chars_event(t: Seq<char>, cdata: bool) -> Xml {
    if cdata {
        Xml::CData(t)
    } else {
        Xml::Text(t)
    }
}

/// An item element with a title, a link and a description, each given as text or as character
/// data.
pub open spec fn item_element(
    item: Seq<char>,
    title: (Seq<char>, bool),
    link: (Seq<char>, bool),
    desc: (Seq<char>, bool),
    names: (Seq<char>, Seq<char>, Seq<char>),
) -> Seq<Xml> {
    seq![
        Xml::Start { name: item, attrs: Seq::empty() },
        Xml::Start { name: names.0, attrs: Seq::empty() },
        chars_event(title.0, title.1),
        Xml::End { name: names.0 },
        Xml::Start { name: names.1, attrs: Seq::empty() },
        chars_event(link.0, link.1),
        Xml::End { name: names.1 },
        Xml::Start { name: names.2, attrs: Seq::empty() },
        chars_event(desc.0, desc.1),
        Xml::End { name: names.2 },
        Xml::End { name: item },
    ]
}

/// An item with a title, a link and a description is read wherever it stands in a feed that has
/// not given enough items yet: where the title and the link are not empty and the keywords want
/// it, it comes behind the items before it, with the title, the link and the feed's name as they
/// were given; otherwise no item comes of it.
pub proof fn items_are_read_whole(
    before: Seq<Xml>,
    item: Seq<char>,
    title: (Seq<char>, bool),
    link: (Seq<char>, bool),
    desc: (Seq<char>, bool),
    names: (Seq<char>, Seq<char>, Seq<char>),
    source: Seq<char>,
    keywords: Seq<Seq<char>>,
    max: nat,
)
    requires
        !feed_after(before, source, keywords, max).full,
        unicode::lowercase(item) == "item"@ || unicode::lowercase(item) == "entry"@,
        unicode::lowercase(names.0) == "title"@,
        unicode::lowercase(names.1) == "link"@,
        unicode::lowercase(names.2) == "description"@,
    ensures
        ({
            let had = feed_after(before, source, keywords, max).items;
            let got = feed_after(
                before + item_element(item, title, link, desc, names),
                source,
                keywords,
                max,
            ).items;
            if title.0.len() > 0 && link.0.len() > 0 && wanted(title.0, desc.0, keywords) {
                &&& got.len() == had.len() + 1
                &&& got.take(had.len() as int) == had
                &&& got.last().title == title.0
                &&& got.last().url == link.0
                &&& got.last().source == source
                &&& got.last().description.len() <= 300
                &&& plain_text(desc.0).len() <= 300 ==> got.last().description == plain_text(desc.0)
            } else {
                got == had
            }
        }),
{
    lemma_elements_differ();
    let e = item_element(item, title, link, desc, names);
    let f0 = feed_after(before, source, keywords, max);
    let f1 = feed_step(f0, e[0], source, keywords, max);
    let f2 = feed_step(f1, e[1], source, keywords, max);
    let f3 = feed_step(f2, e[2], source, keywords, max);
    let f4 = feed_step(f3, e[3], source, keywords, max);
    let f5 = feed_step(f4, e[4], source, keywords, max);
    assert(last_raw(Seq::<Attr>::empty(), "href"@, f4.link) == f4.link);
    let f6 = feed_step(f5, e[5], source, keywords, max);
    let f7 = feed_step(f6, e[6], source, keywords, max);
    let f8 = feed_step(f7, e[7], source, keywords, max);
    let f9 = feed_step(f8, e[8], source, keywords, max);
    let f10 = feed_step(f9, e[9], source, keywords, max);
    let f11 = feed_step(f10, e[10], source, keywords, max);
    assert(f1.open && f1.title.len() == 0 && f1.link.len() == 0 && !f1.full);
    assert(f2.open && f2.tag == "title"@ && !f2.full);
    assert(f3.title == title.0 && f3.open && f3.link.len() == 0 && !f3.full);
    assert(f4 == f3);
    assert(f5.tag == "link"@ && f5.link.len() == 0 && f5.title == title.0 && !f5.full);
    assert(f6.link == link.0 && f6.title == title.0 && f6.open && !f6.full);
    assert(f7 == f6);
    assert(f8.tag == "description"@ && f8.link == link.0 && f8.title == title.0 && !f8.full);
    assert(f9.desc == desc.0 && f9.link == link.0 && f9.title == title.0 && f9.open && !f9.full);
    assert(f10 == f9);
    assert(f10.items == f0.items);
    let s = before + e;
    lemma_feed_steps(before, e, 1, source, keywords, max);
    lemma_feed_steps(before, e, 2, source, keywords, max);
    lemma_feed_steps(before, e, 3, source, keywords, max);
    lemma_feed_steps(before, e, 4, source, keywords, max);
    lemma_feed_steps(before, e, 5, source, keywords, max);
    lemma_feed_steps(before, e, 6, source, keywords, max);
    lemma_feed_steps(before, e, 7, source, keywords, max);
    lemma_feed_steps(before, e, 8, source, keywords, max);
    lemma_feed_steps(before, e, 9, source, keywords, max);
    lemma_feed_steps(before, e, 10, source, keywords, max);
    lemma_feed_steps(before, e, 11, source, keywords, max);
    assert(before + e.take(0) =~= before);
    assert(before + e.take(11) =~= s);
    let got = f11.items;
    if title.0.len() > 0 && link.0.len() > 0 && wanted(title.0, desc.0, keywords) {
        assert(got.take(f0.items.len() as int) =~= f0.items);
    }
}

/// A feed after one more event of a list.
proof fn lemma_feed_steps(
    before: Seq<Xml>,
    e: Seq<Xml>,
    k: int,
    source: Seq<char>,
    keywords: Seq<Seq<char>>,
    max: nat,
)
    requires
        0 < k <= e.len(),
    ensures
        ({
            let f = feed_after(before + e.take(k - 1), source, keywords, max);
            feed_after(before + e.take(k), source, keywords, max) == (if f.full {
                f
            } else {
                feed_step(f, e[k - 1], source, keywords, max)
            })
        }),
{
    let s = before + e.take(k);
    assert(s.drop_last() =~= before + e.take(k - 1));
    assert(s.last() == e[k - 1]);
}

/// The link of an item can be an attribute: a link element with an address is the item's link,
/// whether it is empty or not, and an element without one changes nothing.
pub proof fn links_can_be_attributes(
    f: Feed,
    name: Seq<char>,
    href: Attr,
    source: Seq<char>,
    keywords: Seq<Seq<char>>,
    max: nat,
)
    requires
        f.open,
        unicode::lowercase(name) == "link"@,
        href.name == "href"@,
    ensures
        feed_step(f, Xml::Empty { name, attrs: seq![href] }, source, keywords, max).link
            == href.raw,
        feed_step(f, Xml::Start { name, attrs: seq![href] }, source, keywords, max).link
            == href.raw,
        feed_step(f, Xml::Empty { name, attrs: Seq::empty() }, source, keywords, max).link
            == f.link,
        feed_step(f, Xml::Start { name, attrs: Seq::empty() }, source, keywords, max).link
            == f.link,
{
    lemma_elements_differ();
    assert(seq![href].last() == href);
}

/// Once a feed has given as many items as were asked for, what follows changes nothing.
pub proof fn full_feeds_stay(
    before: Seq<Xml>,
    more: Seq<Xml>,
    source: Seq<char>,
    keywords: Seq<Seq<char>>,
    max: nat,
)
    requires
        feed_after(before, source, keywords, max).items.len() >= max,
        feed_after(before, source, keywords, max).items.len() > 0,
    ensures
        feed_after(before + more, source, keywords, max).items == feed_after(
            before,
            source,
            keywords,
            max,
        ).items,
    decreases more.len(),
{
    kept_items_are_wanted(before, source, keywords, max);
    if more.len() > 0 {
        full_feeds_stay(before, more.drop_last(), source, keywords, max);
        kept_items_are_wanted(before + more.drop_last(), source, keywords, max);
        assert((before + more).drop_last() =~= before + more.drop_last());
    } else {
        assert(before + more =~= before);
    }
}

/// An article is wanted where a keyword stands in its title, whatever its description is, and
/// where one stands in its description, whatever its title is; and where there are no keywords.
pub proof fn titles_and_descriptions_count(
    title: Seq<char>,
    desc: Seq<char>,
    keywords: Seq<Seq<char>>,
    i: int,
)
    requires
        0 <= i < keywords.len(),
    ensures
        text::holds(unicode::lowercase(title), unicode::lowercase(keywords[i])) ==> wanted(
            title,
            desc,
            keywords,
        ),
        text::holds(unicode::lowercase(desc), unicode::lowercase(keywords[i])) ==> wanted(
            title,
            desc,
            keywords,
        ),
        wanted(title, desc, Seq::empty()),
{
    let a = unicode::lowercase(title) + " "@;
    let k = unicode::lowercase(keywords[i]);
    if text::holds(unicode::lowercase(title), k) || text::holds(unicode::lowercase(desc), k) {
        if text::holds(unicode::lowercase(title), k) {
            text::holds_in_either(unicode::lowercase(title), " "@, k);
        }
        text::holds_in_either(a, unicode::lowercase(desc), k);
        assert(speaks_of(a + unicode::lowercase(desc), k));
    }
}

/// An article in which neither a keyword nor a first word of any keyword stands is not wanted.
pub proof fn other_articles_are_not_wanted(
    title: Seq<char>,
    desc: Seq<char>,
    keywords: Seq<Seq<char>>,
)
    requires
        keywords.len() > 0,
        ({
            let article = unicode::lowercase(title) + " "@ + unicode::lowercase(desc);
            forall|i: int|
                0 <= i < keywords.len() ==> {
                    let k = unicode::lowercase(#[trigger] keywords[i]);
                    &&& !text::holds(article, k)
                    &&& phrase_tokens(k).len() > 0 ==> !text::holds(article, phrase_tokens(k)[0])
                        || !text::holds(article, phrase_tokens(k).last())
                }
        }),
    ensures
        !wanted(title, desc, keywords),
{
    let article = unicode::lowercase(title) + " "@ + unicode::lowercase(desc);
    if wanted(title, desc, keywords) {
        let i = choose|i: int|
            0 <= i < keywords.len() && speaks_of(article, unicode::lowercase(#[trigger] keywords[i]));
        let ts = phrase_tokens(unicode::lowercase(keywords[i]));
        assert(ts.len() > 0 && text::holds_all(article, ts));
        assert(text::holds(article, ts[0]) && text::holds(article, ts[ts.len() - 1]));
    }
}

/// The words of a phrase that must stand in an article are words of it, at most two, and the first
/// of them that are more than one byte long and begin with a letter or a digit.
pub proof fn first_words_count(phrase: Seq<char>)
    ensures
        phrase_tokens(phrase).len() <= 2,
        forall|i: int|
            0 <= i < phrase_tokens(phrase).len() ==> text::words(phrase).contains(
                #[trigger] phrase_tokens(phrase)[i],
            ) && text::byte_count(phrase_tokens(phrase)[i]) > 1 && unicode::alphanumeric(
                phrase_tokens(phrase)[i][0],
            ),
        text::words(phrase).len() > 0 && text::byte_count(text::words(phrase)[0]) > 1
            && text::words(phrase)[0].len() > 0 && unicode::alphanumeric(text::words(phrase)[0][0])
            ==> phrase_tokens(phrase).len() > 0 && phrase_tokens(phrase)[0] == text::words(
            phrase,
        )[0],
        (forall|w: Seq<char>| #[trigger] text::words(phrase).contains(w) ==> is_token(w)) && text::words(
            phrase,
        ).len() <= 2 ==> phrase_tokens(phrase) == text::words(phrase),
{
    let p = |w: Seq<char>| is_token(w);
    let ws = text::words(phrase);
    let f = ws.filter(p);
    broadcast use vstd::seq_lib::group_filter_ensures;

    assert forall|i: int| 0 <= i < phrase_tokens(phrase).len() implies ws.contains(
        #[trigger] phrase_tokens(phrase)[i],
    ) && text::byte_count(phrase_tokens(phrase)[i]) > 1 && unicode::alphanumeric(
        phrase_tokens(phrase)[i][0],
    ) by {
        assert(f.contains(f[i]));
        ws.lemma_filter_contains_rev(p, f[i]);
        assert(p(f[i]));
    }
    lists::filter_keeps_first(ws, p);
    if forall|w: Seq<char>| #[trigger] ws.contains(w) ==> is_token(w) {
        assert forall|i: int| 0 <= i < ws.len() implies p(#[trigger] ws[i]) by {
            assert(ws.contains(ws[i]));
        }
        lists::filter_of_all(ws, p);
    }
}

/// A feed's date is read in the form of mail where it has one, and in that of a time in UTC
/// otherwise; white space round it plays no part.
pub proof fn feed_dates_are_read(s: Seq<char>)
    ensures
        time::rfc2822_time(text::trimmed(s)) is Some ==> feed_time(s) == time::rfc2822_time(
            text::trimmed(s),
        ),
        time::rfc2822_time(text::trimmed(s)) is None ==> feed_time(s) == time::utc_time(
            text::trimmed(s),
        ),
{
}

/// The news of a story has its title and its address, or that of its discussion where it has none,
/// the time at which it was posted and the beginning of its text.
pub proof fn stories_are_told_as_they_are(h: HNHit)
    ensures
        hit_news(h).title == h.title@,
        h.url@.len() > 0 ==> hit_news(h).url == h.url@,
        h.url@.len() == 0 ==> text::ends(hit_news(h).url, h.object_id@) && text::begins(
            hit_news(h).url,
            "https://news.ycombinator.com/item?id="@,
        ),
        hit_news(h).published == time::rfc3339_time(h.created_at@),
        h.story_text@.len() <= 300 ==> hit_news(h).description == h.story_text@,
        h.story_text@.len() > 300 ==> hit_news(h).description == h.story_text@.take(300),
        hit_news(h).source == "Hacker News"@,
{
    let front = "https://news.ycombinator.com/item?id="@;
    let u = front + h.object_id@;
    assert(u.subrange(0, front.len() as int) =~= front);
    assert(u.subrange(u.len() - h.object_id@.len(), u.len() as int) =~= h.object_id@);
}

/// The news of a project has its full name and its address; its date is that of its creation where
/// new projects are searched and that of the last work on it otherwise, and its stars, language
/// and description stand in what is told of it.
pub proof fn projects_are_told_as_they_are(item: GitHubItem, by_creation: bool)
    ensures
        ({
            let n = project_news(item, by_creation);
            &&& n.title == item.full_name@
            &&& n.url == item.html_url@
            &&& n.source == "GitHub"@
            &&& by_creation ==> n.published == (match item.created_at {
                Some(d) => time::rfc3339_time(d@),
                None => None,
            })
            &&& !by_creation ==> n.published == (match item.pushed_at {
                Some(d) => time::rfc3339_time(d@),
                None => None,
            })
            &&& item.description matches Some(d) ==> text::ends(n.description, d@)
            &&& item.language matches Some(l) ==> text::holds(n.description, l@)
            &&& item.stargazers_count matches Some(k) ==> text::holds(
                n.description,
                number::decimal(k as nat),
            )
        }),
{
    broadcast use {text::holds_in_front, text::holds_at_end};

    let n = project_news(item, by_creation);
    let stars = match item.stargazers_count {
        Some(n) => n as nat,
        None => 0,
    };
    let digits = number::decimal(stars);
    let cell = text::right_aligned(digits, 6);
    text::aligning_keeps_the_text(digits, 6);
    let l = text_or(item.language, "unknown"@);
    let d = text_or(item.description, "No description"@);
    assert(text::holds(n.description, cell));
    text::holds_within(n.description, cell, digits);
    assert(text::holds(n.description, l));
    assert(n.description.subrange(n.description.len() - d.len(), n.description.len() as int) =~= d);
}

/// A search that is refused is not gone on with, one that found projects gives them, and any other
/// goes on in the next window.
pub open spec fn search_step(outcome: SearchOutcome) -> SearchStep {
    match outcome {
        SearchOutcome::NotSent => SearchStep::Next,
        SearchOutcome::Replied { status, found } => if status == 403 {
            SearchStep::Stop
        } else if found matches Some(n) && n > 0 {
            SearchStep::Take
        } else {
            SearchStep::Next
        },
    }
}

/// Projects are taken only of a reply that was not refused and holds some, and then always; a
/// refusal ends the search, and nothing else does.
pub proof fn searches_stop_at_refusals(outcome: SearchOutcome)
    ensures
        search_step(outcome) is Take <==> (outcome matches SearchOutcome::Replied { status, found }
            && status != 403 && found is Some && found->0 > 0),
        search_step(outcome) is Stop <==> (outcome matches SearchOutcome::Replied { status, .. }
            && status == 403),
{
}

/// A request goes on only until there is a body: a body that can be read is taken, unless the
/// status says that it is none, and a request that failed is made again after a longer pause each
/// time.
pub proof fn bodies_are_taken(tried: nat, a: Attempt)
    ensures
        a matches Attempt::Replied { status, readable } && readable && status < 400 ==> next_try(
            tried,
            a,
        ) is Take,
        a is NotSent && tried + 1 < MAX_TRIES ==> next_try(tried, a) is Again,
        a matches Attempt::Replied { status, .. } && 500 <= status < 600 && tried + 1 < MAX_TRIES
            ==> next_try(tried, a) is Again,
        a matches Attempt::Replied { status, readable } && !readable && !(400 <= status < 500)
            && tried + 1 < MAX_TRIES ==> next_try(tried, a) is Again,
        next_try(tried, a) matches NextTry::Again { wait_secs } ==> wait_secs == tried + 1,
        next_try(tried, a) is Take ==> (a matches Attempt::Replied { readable, .. } && readable),
{
}

/// How many items each of `n` searches is asked for.
pub open spec fn even_share(max: nat, n: nat) -> nat {
    if n == 0 {
        max
    } else if max / n + 2 < max {
        max / n + 2
    } else {
        max
    }
}

/// Searches together are asked for at least as many items as are wanted, and none for more.
pub proof fn shares_are_enough(max: nat, n: nat)
    requires
        n > 0,
    ensures
        even_share(max, n) * n >= max,
        even_share(max, n) <= max,
        max > 0 ==> even_share(max, n) > 0,
{
    assert((max / n + 2) * n >= max && max * n >= max) by (nonlinear_arith)
        requires
            n > 0,
            max >= 0,
    ;
}

/// A tag has letters, digits and hyphens alone, and no hyphen at its ends; a keyword in lowercase
/// letters and digits is its own tag.
pub proof fn tags_are_plain(kw: Seq<char>)
    ensures
        forall|i: int|
            0 <= i < medium_slug(kw).len() ==> unicode::alphanumeric(#[trigger] medium_slug(kw)[i])
                || medium_slug(kw)[i] == '-',
        medium_slug(kw).len() > 0 ==> medium_slug(kw).last() != '-',
        (forall|i: int|
            0 <= i < unicode::lowercase(kw).len() ==> unicode::alphanumeric(
                #[trigger] unicode::lowercase(kw)[i],
            ) && unicode::lowercase(kw)[i] != '-' && unicode::lowercase(kw)[i] != ' ')
            ==> medium_slug(kw) == unicode::lowercase(kw),
{
    reveal_strlit("-");
    let f = |c: char| if c == ' ' { '-' } else { c };
    let p = |c: char| unicode::alphanumeric(c) || c == '-';
    let low = unicode::lowercase(kw);
    let h = low.map_values(f);
    let k = h.filter(p);
    let a = text::without_prefixes(k, "-"@);
    let b = text::without_suffixes(a, "-"@);
    broadcast use vstd::seq_lib::group_filter_ensures;

    text::prefixes_off_is_part(k, "-"@);
    text::suffixes_off_is_part(a, "-"@);
    assert forall|i: int| 0 <= i < b.len() implies unicode::alphanumeric(#[trigger] b[i]) || b[i]
        == '-' by {
        let d = k.len() - a.len();
        assert(b[i] == a[i]);
        assert(a[i] == k[d + i]);
        assert(k.contains(k[d + i]));
        assert(p(k[d + i]));
    }
    if b.len() > 0 && b.last() == '-' {
        assert(b.subrange(b.len() - 1, b.len() as int) =~= "-"@);
        assert(text::ends(b, "-"@));
    }
    if forall|i: int|
        0 <= i < low.len() ==> unicode::alphanumeric(#[trigger] low[i]) && low[i] != '-' && low[i]
            != ' ' {
        assert(h =~= low);
        assert forall|i: int| 0 <= i < h.len() implies p(#[trigger] h[i]) by {
            assert(unicode::alphanumeric(low[i]));
        }
        lists::filter_of_all(h, p);
        assert(k == low);
        if text::begins(low, "-"@) {
            assert(low.subrange(0, 1)[0] == '-');
            assert(low[0] == '-');
        }
        if text::ends(low, "-"@) {
            assert(low.subrange(low.len() - 1, low.len() as int)[0] == '-');
            assert(low[low.len() - 1] == '-');
        }
    }
}

/// An item that is closed is told as it was read: its title, its link, the feed's name, its date
/// and the beginning of its description; the items before it stay.
pub proof fn closed_items_are_told_as_read(
    f: Feed,
    name: Seq<char>,
    source: Seq<char>,
    keywords: Seq<Seq<char>>,
    max: nat,
)
    requires
        f.open,
        unicode::lowercase(name) == "item"@ || unicode::lowercase(name) == "entry"@,
    ensures
        ({
            let g = feed_step(f, Xml::End { name }, source, keywords, max);
            &&& !g.open
            &&& f.title.len() > 0 && f.link.len() > 0 && wanted(f.title, f.desc, keywords)
                ==> g.items.len() == f.items.len() + 1 && g.items.drop_last() == f.items
                && g.items.last().title == f.title && g.items.last().url == f.link
                && g.items.last().source == source && g.items.last().published == feed_time(f.date)
                && g.items.last().description == text::shortened(plain_text(f.desc), 300)
            &&& !(f.title.len() > 0 && f.link.len() > 0 && wanted(f.title, f.desc, keywords))
                ==> g.items == f.items
            &&& g.full ==> g.items.len() >= max || f.full
            &&& g.items.len() > f.items.len() && g.items.len() >= max ==> g.full
        }),
{
    let g = feed_step(f, Xml::End { name }, source, keywords, max);
    if g.items.len() > f.items.len() {
        assert(g.items.drop_last() =~= f.items);
    }
}

/// An item begins with nothing read, and elements outside of items and their texts are passed over.
pub proof fn items_begin_empty(
    f: Feed,
    name: Seq<char>,
    attrs: Seq<Attr>,
    t: Seq<char>,
    source: Seq<char>,
    keywords: Seq<Seq<char>>,
    max: nat,
)
    ensures
        is_item(unicode::lowercase(name)) ==> ({
            let g = feed_step(f, Xml::Start { name, attrs }, source, keywords, max);
            g.open && g.title.len() == 0 && g.link.len() == 0 && g.desc.len() == 0 && g.date.len()
                == 0 && g.items == f.items
        }),
        !f.open && !is_item(unicode::lowercase(name)) ==> feed_step(
            f,
            Xml::Start { name, attrs },
            source,
            keywords,
            max,
        ) == f,
        !f.open ==> feed_step(f, Xml::Text(t), source, keywords, max) == f && feed_step(
            f,
            Xml::CData(t),
            source,
            keywords,
            max,
        ) == f,
        f.open && !is_item(unicode::lowercase(name)) ==> feed_step(
            f,
            Xml::Start { name, attrs },
            source,
            keywords,
            max,
        ).tag == unicode::lowercase(name),
{
}

/// Each search for stories asks for the keyword and the number of stories; the first is by date.
pub proof fn story_searches_ask_for_the_keyword(kw: Seq<char>, max: nat, i: int)
    requires
        0 <= i < 3,
    ensures
        hackernews_addresses(kw, max).len() == 3,
        text::holds(hackernews_addresses(kw, max)[i], "query="@ + percent::query_text(kw)),
        text::ends(hackernews_addresses(kw, max)[i], number::decimal(max)),
        text::begins(hackernews_addresses(kw, max)[0], "https://hn.algolia.com/api/v1/search_by_date?"@),
{
    broadcast use {text::holds_in_front, text::holds_at_end};

    let q = percent::query_text(kw);
    let n = number::decimal(max);
    let m = "query="@ + q;
    let u = hackernews_addresses(kw, max)[i];
    let a = "https://hn.algolia.com/api/v1/search_by_date?query="@;
    let b = "https://hn.algolia.com/api/v1/search?query="@;
    let a0 = "https://hn.algolia.com/api/v1/search_by_date?"@;
    let b0 = "https://hn.algolia.com/api/v1/search?"@;
    assert(a =~= a0 + "query="@) by {
        reveal_strlit("https://hn.algolia.com/api/v1/search_by_date?query=");
        reveal_strlit("https://hn.algolia.com/api/v1/search_by_date?");
        reveal_strlit("query=");
    }
    assert(b =~= b0 + "query="@) by {
        reveal_strlit("https://hn.algolia.com/api/v1/search?query=");
        reveal_strlit("https://hn.algolia.com/api/v1/search?");
        reveal_strlit("query=");
    }
    let tail1 = "&tags=story&hitsPerPage="@ + n;
    let tail2 = "&hitsPerPage="@ + n;
    if i == 0 {
        assert(u =~= a0 + m + tail1);
        assert(text::holds(a0 + m + tail1, m));
    } else if i == 1 {
        assert(u =~= b0 + m + tail1);
        assert(text::holds(b0 + m + tail1, m));
    } else {
        assert(u =~= b0 + m + tail2);
        assert(text::holds(b0 + m + tail2, m));
    }
    assert(u.subrange(u.len() - n.len(), u.len() as int) =~= n);
    let first = hackernews_addresses(kw, max)[0];
    assert(first.subrange(0, a0.len() as int) =~= a0);
}

/// Projects are searched in wider and wider windows, new ones with fewer and fewer stars.
pub proof fn windows_become_wider(i: int)
    requires
        0 <= i < 2,
    ensures
        PUSHED_WINDOWS@[i] < PUSHED_WINDOWS@[i + 1],
        EMERGING_WINDOWS@[i].0 < EMERGING_WINDOWS@[i + 1].0,
        EMERGING_WINDOWS@[i].1 > EMERGING_WINDOWS@[i + 1].1,
        PUSHED_WINDOWS@[2] == 365,
        EMERGING_WINDOWS@[2].0 == 365,
{
    assert(i == 0 || i == 1);
}

/// Merged news has each address once, newest first, and all of them where enough is asked for.
proof fn lemma_merged_news(all: Seq<NewsItem>, r: Seq<NewsItem>, max: nat)
    requires
        r == order::cut(order::by_date(order::distinct(all)), max),
    ensures
        r.len() <= max,
        forall|i: int| 0 <= i < r.len() ==> all.contains(#[trigger] r[i]),
        forall|i: int, j: int|
            0 <= i < j < r.len() ==> (#[trigger] r[i]).url@ != (#[trigger] r[j]).url@
                && !order::older(r[i].published, r[j].published),
        max >= all.len() ==> forall|n: NewsItem|
            #[trigger] all.contains(n) ==> exists|k: int|
                0 <= k < r.len() && (#[trigger] r[k]).url@ == n.url@,
{
    order::merged_news_is_complete(all, max);
    let ks = order::keys(r);
    assert forall|i: int, j: int| 0 <= i < j < r.len() implies (#[trigger] r[i]).url@ != (
    #[trigger] r[j]).url@ && !order::older(r[i].published, r[j].published) by {
        assert(ks[i] != ks[j]);
        assert(!order::older(r[i].date(), r[j].date()));
    }
    if max >= all.len() {
        assert forall|n: NewsItem| #[trigger] all.contains(n) implies exists|k: int|
            0 <= k < r.len() && (#[trigger] r[k]).url@ == n.url@ by {
            let m = choose|m: int| 0 <= m < all.len() && all[m] == n;
            assert(order::keys(all)[m] == n.url@);
            assert(order::keys(all).contains(n.url@));
            assert(ks.contains(n.url@));
            let k = choose|k: int| 0 <= k < ks.len() && ks[k] == n.url@;
            assert(r[k].url@ == n.url@);
        }
    }
}

} // verus!
