//! Podcasts.
use vstd::prelude::*;
use crate::lists;
use crate::number;
use crate::order;
use crate::order::Entry;
use crate::pattern;
use crate::text;
use crate::text::same;
use crate::time;
use crate::time::Timestamp;
use crate::xml;
use crate::xml::{Attr, Xml, XmlAttr, XmlEvent};

verus! {

/// An episode of a podcast.
#[derive(Debug, Clone)]
pub struct PodcastEpisode {
    pub podcast_name: String,
    pub title: String,
    pub url: String,
    pub published: Option<Timestamp>,
    pub description: String,
    pub duration: String,
}

/// An episode, by its texts.
#[verifier::ext_equal]
pub struct Episode {
    pub podcast_name: Seq<char>,
    pub title: Seq<char>,
    pub url: Seq<char>,
    pub published: Option<Timestamp>,
    pub description: Seq<char>,
    pub duration: Seq<char>,
}

impl View for PodcastEpisode {
    type V = Episode;

    open spec fn view(&self) -> Episode {
        Episode {
            podcast_name: self.podcast_name@,
            title: self.title@,
            url: self.url@,
            published: self.published,
            description: self.description@,
            duration: self.duration@,
        }
    }
}

/// Episodes are ordered by their publication.
impl Entry for PodcastEpisode {
    open spec fn key(&self) -> Seq<char> {
        self.url@
    }

    open spec fn date(&self) -> Option<Timestamp> {
        self.published
    }

    fn entry_key(&self) -> (r: String) {
        self.url.clone()
    }

    fn entry_date(&self) -> (r: Option<Timestamp>) {
        self.published
    }
}

// ── Searching for podcasts ─────────────────────────────────────────────────────

/// A podcast that a search found.
pub struct ItunesResult {
    pub collection_name: String,
    pub feed_url: String,
}

/// The address of a search.
pub fn itunes_url(kw: &str, max_pods: usize) -> (r: String)
    ensures
        r@ == "https://itunes.apple.com/search?term="@ + text::replaced(kw@, " "@, "+"@)
            + "&media=podcast&limit="@ + number::decimal(max_pods as nat),
{
    proof {
        reveal_strlit(" ");
    }
    let mut r = "https://itunes.apple.com/search?term=".to_owned();
    r.append(&text::replace(kw, " ", "+"));
    r.append("&media=podcast&limit=");
    r.append(&number::usize_text(max_pods));
    r
}

/// The name and the feed of a podcast.
pub open spec fn name_and_feed(p: ItunesResult) -> (String, String) {
    (p.collection_name, p.feed_url)
}

/// The podcasts that have a feed.
pub fn podcasts_with_feed(results: Vec<ItunesResult>) -> (r: Vec<(String, String)>)
    ensures
        r@ == results@.filter(|p: ItunesResult| p.feed_url@.len() > 0).map_values(
            |p: ItunesResult| name_and_feed(p),
        ),
        forall|i: int| 0 <= i < r@.len() ==> (#[trigger] r@[i]).1@.len() > 0,
        (forall|i: int| 0 <= i < results@.len() ==> (#[trigger] results@[i]).feed_url@.len() > 0)
            ==> r@.len() == results@.len() && forall|i: int|
            0 <= i < r@.len() ==> (#[trigger] r@[i]).0 == results@[i].collection_name && r@[i].1
                == results@[i].feed_url,
{
    let ghost all = results@;
    let ghost f = |p: ItunesResult| p.feed_url@.len() > 0;
    let ghost g = |p: ItunesResult| name_and_feed(p);
    let mut r: Vec<(String, String)> = Vec::new();
    assert(all.take(0).filter(f).map_values(g) =~= Seq::empty()) by {
        reveal(Seq::filter);
    }
    for x in it: results
        invariant
            it.seq() == all,
            f == (|p: ItunesResult| p.feed_url@.len() > 0),
            g == (|p: ItunesResult| name_and_feed(p)),
            r@ == all.take(it.index() as int).filter(f).map_values(g),
    {
        proof {
            let i = it.index() as int;
            lists::take_next(all, i);
            all.take(i).lemma_filter_push(x, f);
            let a = all.take(i).filter(f);
            assert(a.push(x).map_values(g) =~= a.map_values(g).push(g(x)));
        }
        if !text::is_empty(&x.feed_url) {
            r.push((x.collection_name, x.feed_url));
        }
    }
    proof {
        lists::take_all(all);
        let kept = all.filter(f);
        assert forall|i: int| 0 <= i < r@.len() implies (#[trigger] r@[i]).1@.len() > 0 by {
            assert(kept.contains(kept[i]));
            lists::filter_holds(all, f, kept[i]);
        }
        if forall|i: int| 0 <= i < all.len() ==> (#[trigger] all[i]).feed_url@.len() > 0 {
            assert forall|i: int| 0 <= i < all.len() implies f(#[trigger] all[i]) by {
                assert(all[i].feed_url@.len() > 0);
            }
            lists::filter_of_all(all, f);
        }
    }
    r
}

// ── Reading a feed ─────────────────────────────────────────────────────────────

/// A text with its HTML entities resolved, as `decode_html_entities` of html-escape does it.
pub uninterp spec fn entities_decoded(s: Seq<char>) -> Seq<char>;

/// `html_escape::decode_html_entities`: a function of the text alone.
#[verifier::external_body]
pub(crate) fn decode_html_entities(s: &str) -> (r: String)
    ensures
        r@ == entities_decoded(s@),
{
    html_escape::decode_html_entities(s).into_owned()
}

/// A text without tags and with its entities resolved.
pub open spec fn plain_description(s: Seq<char>) -> Seq<char> {
    entities_decoded(pattern::all_replaced(pattern::TAG@, s, ""@))
}

/// Removes the tags of a text and resolves its entities.
pub fn strip_html(s: &str) -> (r: String)
    ensures
        r@ == plain_description(s@),
{
    decode_html_entities(&pattern::replace_all(pattern::TAG, s, ""))
}

/// How far the reading of a podcast's feed has come.
#[verifier::ext_equal]
pub struct Pod {
    /// Whether an item is open.
    pub open: bool,
    /// The element that was opened last.
    pub tag: Seq<char>,
    pub title: Seq<char>,
    pub url: Seq<char>,
    pub published: Option<Timestamp>,
    pub description: Seq<char>,
    pub duration: Seq<char>,
    /// The episodes that were kept.
    pub episodes: Seq<Episode>,
    /// Whether there are as many episodes as were asked for.
    pub full: bool,
}

/// The beginning of a feed.
pub open spec fn new_pod() -> Pod {
    Pod {
        open: false,
        tag: Seq::empty(),
        title: Seq::empty(),
        url: Seq::empty(),
        published: None,
        description: Seq::empty(),
        duration: Seq::empty(),
        episodes: Seq::empty(),
        full: false,
    }
}

/// A feed after text in an item: the first text for a field is kept, and a publication that
/// cannot be read is passed over.
pub open spec fn with_field(p: Pod, t: Seq<char>) -> Pod {
    if p.tag == "title"@ && p.title.len() == 0 {
        Pod { title: t, ..p }
    } else if p.tag == "link"@ && p.url.len() == 0 {
        Pod { url: t, ..p }
    } else if p.tag == "pubDate"@ && p.published is None {
        Pod { published: time::rfc2822_time(t), ..p }
    } else if (p.tag == "description"@ || p.tag == "summary"@) && p.description.len() == 0 {
        Pod { description: t, ..p }
    } else if p.tag == "duration"@ && p.duration.len() == 0 {
        Pod { duration: t, ..p }
    } else {
        p
    }
}

/// The address after the attributes of an enclosure: the first that is not empty is kept.
pub open spec fn enclosure_url(url: Seq<char>, attrs: Seq<Attr>) -> Seq<char>
    decreases attrs.len(),
{
    if attrs.len() == 0 {
        url
    } else {
        let u = enclosure_url(url, attrs.drop_last());
        if u.len() == 0 && xml::local_name(attrs.last().name) == "url"@ {
            attrs.last().value
        } else {
            u
        }
    }
}

/// A feed after a start tag.
pub open spec fn pod_start(p: Pod, name: Seq<char>, attrs: Seq<Attr>) -> Pod {
    let q = Pod { tag: name, ..p };
    if name == "item"@ {
        Pod {
            open: true,
            title: Seq::empty(),
            url: Seq::empty(),
            published: None,
            description: Seq::empty(),
            duration: Seq::empty(),
            ..q
        }
    } else if name == "enclosure"@ && p.open {
        Pod { url: enclosure_url(p.url, attrs), ..q }
    } else {
        q
    }
}

/// A feed after the end of its open item: the episode is kept where it has a title and is not
/// older than the cutoff.
pub open spec fn pod_item_closed(p: Pod, name: Seq<char>, max: nat, cutoff: Option<Timestamp>) -> Pod {
    let q = Pod { open: false, ..p };
    if time::recent(p.published, cutoff) && p.title.len() > 0 {
        let e = Episode {
            podcast_name: name,
            title: p.title,
            url: p.url,
            published: p.published,
            description: text::shortened(plain_description(p.description), 500),
            duration: p.duration,
        };
        let episodes = p.episodes.push(e);
        Pod { episodes, full: episodes.len() >= max, ..q }
    } else {
        q
    }
}

/// A feed after one more event.
pub open spec fn pod_step(p: Pod, e: Xml, name: Seq<char>, max: nat, cutoff: Option<Timestamp>) -> Pod {
    match e {
        Xml::Start { name: tag, attrs } => pod_start(p, tag, attrs),
        Xml::CData(t) => if p.open {
            with_field(p, t)
        } else {
            p
        },
        Xml::Text(t) => if p.open && text::trimmed(t).len() > 0 {
            with_field(p, text::trimmed(t))
        } else {
            p
        },
        Xml::End { name: tag } => if tag == "item"@ && p.open {
            pod_item_closed(p, name, max, cutoff)
        } else {
            p
        },
        _ => p,
    }
}

/// A feed after events; once it is full, no further event changes it.
pub open spec fn pod_after(events: Seq<Xml>, name: Seq<char>, max: nat, cutoff: Option<Timestamp>) -> Pod
    decreases events.len(),
{
    if events.len() == 0 {
        new_pod()
    } else {
        let p = pod_after(events.drop_last(), name, max, cutoff);
        if p.full {
            p
        } else {
            pod_step(p, events.last(), name, max, cutoff)
        }
    }
}

/// A reader of a podcast's feed.
pub struct PodReader {
    pub open: bool,
    pub tag: String,
    pub title: String,
    pub url: String,
    pub published: Option<Timestamp>,
    pub description: String,
    pub duration: String,
    pub episodes: Vec<PodcastEpisode>,
    pub full: bool,
}

impl View for PodReader {
    type V = Pod;

    open spec fn view(&self) -> Pod {
        Pod {
            open: self.open,
            tag: self.tag@,
            title: self.title@,
            url: self.url@,
            published: self.published,
            description: self.description@,
            duration: self.duration@,
            episodes: lists::views(self.episodes@),
            full: self.full,
        }
    }
}

/// The address after the attributes of an enclosure.
fn take_enclosure(url: &str, attrs: &Vec<XmlAttr>) -> (r: String)
    ensures
        r@ == enclosure_url(url@, xml::attr_views(attrs@)),
{
    let ghost vs = xml::attr_views(attrs@);
    let mut r = url.to_owned();
    let mut i: usize = 0;
    while i < attrs.len()
        invariant
            i <= attrs@.len(),
            vs == xml::attr_views(attrs@),
            r@ == enclosure_url(url@, vs.take(i as int)),
        decreases attrs.len() - i,
    {
        proof {
            lists::take_next(vs, i as int);
            assert(vs.take(i + 1).drop_last() =~= vs.take(i as int));
        }
        if text::is_empty(&r) && same(&xml::local_part(&attrs[i].name), "url") {
            r = attrs[i].value.clone();
        }
        i += 1;
    }
    proof {
        lists::take_all(vs);
    }
    r
}

impl PodReader {
    /// A reader at the beginning of a feed.
    pub fn new() -> (r: PodReader)
        ensures
            r@ == new_pod(),
    {
        PodReader {
            open: false,
            tag: String::new(),
            title: String::new(),
            url: String::new(),
            published: None,
            description: String::new(),
            duration: String::new(),
            episodes: Vec::new(),
            full: false,
        }
    }

    /// Takes text in an item.
    pub fn update_episode_field(&mut self, t: &str)
        ensures
            final(self)@ == with_field(old(self)@, t@),
    {
        if same(&self.tag, "title") && text::is_empty(&self.title) {
            self.title = t.to_owned();
        } else if same(&self.tag, "link") && text::is_empty(&self.url) {
            self.url = t.to_owned();
        } else if same(&self.tag, "pubDate") && self.published.is_none() {
            self.published = time::parse_rfc2822(t);
        } else if (same(&self.tag, "description") || same(&self.tag, "summary"))
            && text::is_empty(&self.description) {
            self.description = t.to_owned();
        } else if same(&self.tag, "duration") && text::is_empty(&self.duration) {
            self.duration = t.to_owned();
        }
    }

    /// Takes a start tag.
    fn start(&mut self, name: &str, attrs: &Vec<XmlAttr>)
        ensures
            final(self)@ == pod_start(old(self)@, name@, xml::attr_views(attrs@)),
    {
        self.tag = name.to_owned();
        if same(name, "item") {
            self.open = true;
            self.title = String::new();
            self.url = String::new();
            self.published = None;
            self.description = String::new();
            self.duration = String::new();
        } else if same(name, "enclosure") && self.open {
            self.url = take_enclosure(&self.url, attrs);
        }
    }

    /// Closes the open item.
    fn close_item(&mut self, name: &str, max: usize, cutoff: Option<Timestamp>)
        requires
            !old(self)@.full,
        ensures
            final(self)@ == pod_item_closed(old(self)@, name@, max as nat, cutoff),
    {
        self.open = false;
        if time::is_recent(self.published, cutoff) && !text::is_empty(&self.title) {
            let plain = strip_html(&self.description);
            let e = PodcastEpisode {
                podcast_name: name.to_owned(),
                title: self.title.clone(),
                url: self.url.clone(),
                published: self.published,
                description: text::take_chars(&plain, 500),
                duration: self.duration.clone(),
            };
            proof {
                lists::views_push(self.episodes@, e);
            }
            self.episodes.push(e);
            if self.episodes.len() >= max {
                self.full = true;
            }
        }
    }

    /// Takes one more event.
    pub fn step(&mut self, e: &XmlEvent, name: &str, max: usize, cutoff: Option<Timestamp>)
        requires
            !old(self)@.full,
        ensures
            final(self)@ == pod_step(old(self)@, e@, name@, max as nat, cutoff),
    {
        match e {
            XmlEvent::Start { name: tag, attrs } => self.start(tag, attrs),
            XmlEvent::CData(t) => {
                if self.open {
                    self.update_episode_field(t);
                }
            },
            XmlEvent::Text(t) => {
                if self.open {
                    let t = text::trim(t);
                    if !text::is_empty(&t) {
                        self.update_episode_field(&t);
                    }
                }
            },
            XmlEvent::End { name: tag } => {
                if same(tag, "item") && self.open {
                    self.close_item(name, max, cutoff);
                }
            },
            _ => {},
        }
    }
}

/// The episodes of a feed, by its events.
pub fn episodes_from_events(
    events: &Vec<XmlEvent>,
    podcast_name: &str,
    max_eps: usize,
    cutoff: Option<Timestamp>,
) -> (r: Vec<PodcastEpisode>)
    ensures
        lists::views(r@) == pod_after(
            xml::event_views(events@),
            podcast_name@,
            max_eps as nat,
            cutoff,
        ).episodes,
{
    let ghost vs = xml::event_views(events@);
    let mut reader = PodReader::new();
    let mut i: usize = 0;
    while i < events.len()
        invariant
            i <= events@.len(),
            vs == xml::event_views(events@),
            reader@ == pod_after(vs.take(i as int), podcast_name@, max_eps as nat, cutoff),
        decreases events.len() - i,
    {
        proof {
            assert(vs.take(i + 1).drop_last() =~= vs.take(i as int));
        }
        if !reader.full {
            reader.step(&events[i], podcast_name, max_eps, cutoff);
        }
        i += 1;
    }
    proof {
        lists::take_all(vs);
    }
    reader.episodes
}

/// The episodes of a feed: those with a title that are not older than the cutoff, up to the
/// number asked for.
pub fn parse_rss(xml: &str, podcast_name: &str, max_eps: usize, cutoff: Option<Timestamp>) -> (r:
    Vec<PodcastEpisode>)
    ensures
        lists::views(r@) == pod_after(
            xml::events_in(xml@),
            podcast_name@,
            max_eps as nat,
            cutoff,
        ).episodes,
{
    let events = xml::read_events(xml);
    episodes_from_events(&events, podcast_name, max_eps, cutoff)
}

/// The episodes of all podcasts, newest first.
pub fn merge_episodes(results: Vec<Vec<PodcastEpisode>>) -> (r: Vec<PodcastEpisode>)
    ensures
        r@ == order::by_date(order::flat(results@)),
        r@.to_multiset() == order::flat(results@).to_multiset(),
        forall|i: int, j: int|
            0 <= i < j < r@.len() ==> !order::older(
                (#[trigger] r@[i]).published,
                (#[trigger] r@[j]).published,
            ),
{
    proof {
        let all = order::flat(results@);
        let b = order::by_date(all);
        order::by_date_is_ordered(all);
        assert forall|i: int, j: int| 0 <= i < j < b.len() implies !order::older(
            (#[trigger] b[i]).published,
            (#[trigger] b[j]).published,
        ) by {
            assert(!order::older(b[i].date(), b[j].date()));
        }
    }
    order::sort_entries(order::flatten(results))
}

/// Every episode that is kept has a title, carries the podcast's name, is not older than the
/// cutoff and has a description of at most 500 characters; there are at most as many as were
/// asked for, or one where none was.
pub proof fn kept_episodes_pass(
    events: Seq<Xml>,
    name: Seq<char>,
    max: nat,
    cutoff: Option<Timestamp>,
)
    ensures
        pod_after(events, name, max, cutoff).episodes.len() <= (if max == 0 {
            1
        } else {
            max
        }),
        !pod_after(events, name, max, cutoff).full ==> pod_after(
            events,
            name,
            max,
            cutoff,
        ).episodes.len() < (if max == 0 {
            1
        } else {
            max
        }),
        forall|i: int|
            #![trigger pod_after(events, name, max, cutoff).episodes[i]]
            0 <= i < pod_after(events, name, max, cutoff).episodes.len() ==> {
                let e = pod_after(events, name, max, cutoff).episodes[i];
                e.title.len() > 0 && e.podcast_name == name && time::recent(e.published, cutoff)
                    && e.description.len() <= 500
            },
    decreases events.len(),
{
    if events.len() > 0 {
        kept_episodes_pass(events.drop_last(), name, max, cutoff);
    }
}

// ── Laws ─────────────────────────────────────────────────────────────────────

/// Episodes are ordered by their publication; those of all podcasts are there, newest first.
pub proof fn all_episodes_are_there(results: Seq<Vec<PodcastEpisode>>, e: PodcastEpisode)
    ensures
        order::by_date(order::flat(results)).contains(e) == exists|i: int|
            0 <= i < results.len() && (#[trigger] results[i])@.contains(e),
        e.date() == e.published,
        forall|i: int, j: int|
            0 <= i < j < order::by_date(order::flat(results)).len() ==> !order::older(
                (#[trigger] order::by_date(order::flat(results))[i]).published,
                (#[trigger] order::by_date(order::flat(results))[j]).published,
            ),
{
    order::by_date_holds_the_same(order::flat(results), e);
    order::flat_holds_each(results, e);
    order::by_date_is_ordered(order::flat(results));
    let b = order::by_date(order::flat(results));
    assert forall|i: int, j: int| 0 <= i < j < b.len() implies !order::older(
        (#[trigger] b[i]).published,
        (#[trigger] b[j]).published,
    ) by {
        assert(!order::older(b[i].date(), b[j].date()));
    }
}

/// A podcast's name goes with its own feed.
pub proof fn names_go_with_feeds(p: ItunesResult)
    ensures
        name_and_feed(p).0@ == p.collection_name@,
        name_and_feed(p).1@ == p.feed_url@,
{
}

/// The elements of an episode have different names.
proof fn lemma_episode_elements_differ()
    ensures
        "title"@ != "link"@ && "title"@ != "pubDate"@ && "title"@ != "description"@ && "title"@
            != "summary"@ && "title"@ != "duration"@ && "title"@ != "item"@ && "title"@
            != "enclosure"@,
        "link"@ != "pubDate"@ && "link"@ != "description"@ && "link"@ != "summary"@ && "link"@
            != "duration"@ && "link"@ != "item"@ && "link"@ != "enclosure"@,
        "pubDate"@ != "description"@ && "pubDate"@ != "summary"@ && "pubDate"@ != "duration"@
            && "pubDate"@ != "item"@ && "pubDate"@ != "enclosure"@,
        "description"@ != "duration"@ && "description"@ != "item"@ && "description"@
            != "enclosure"@,
        "summary"@ != "duration"@,
        "duration"@ != "item"@ && "duration"@ != "enclosure"@,
        "enclosure"@ != "item"@,
{
    reveal_strlit("title");
    reveal_strlit("link");
    reveal_strlit("pubDate");
    reveal_strlit("description");
    reveal_strlit("summary");
    reveal_strlit("duration");
    reveal_strlit("item");
    reveal_strlit("enclosure");
    assert("title"@.len() == 5 && "link"@.len() == 4 && "pubDate"@.len() == 7
        && "description"@.len() == 11 && "summary"@.len() == 7 && "duration"@.len() == 8
        && "item"@.len() == 4 && "enclosure"@.len() == 9);
    assert("link"@[0] == 'l' && "item"@[0] == 'i' && "pubDate"@[0] == 'p' && "summary"@[0] == 's');
}

/// Text and character data fill the field of an open item that they stand in where it is empty,
/// and no other field; what is there already stays.
pub proof fn fields_are_filled_once(
    p: Pod,
    t: Seq<char>,
    name: Seq<char>,
    max: nat,
    cutoff: Option<Timestamp>,
)
    requires
        p.open,
        t.len() > 0,
        text::trimmed(t) == t,
    ensures
        pod_step(p, Xml::Text(t), name, max, cutoff) == pod_step(
            p,
            Xml::CData(t),
            name,
            max,
            cutoff,
        ),
        ({
            let q = pod_step(p, Xml::CData(t), name, max, cutoff);
            &&& q.open && q.episodes == p.episodes && q.tag == p.tag
            &&& q.title == (if p.tag == "title"@ && p.title.len() == 0 {
                t
            } else {
                p.title
            })
            &&& q.url == (if p.tag == "link"@ && p.url.len() == 0 {
                t
            } else {
                p.url
            })
            &&& q.description == (if (p.tag == "description"@ || p.tag == "summary"@)
                && p.description.len() == 0 {
                t
            } else {
                p.description
            })
            &&& q.duration == (if p.tag == "duration"@ && p.duration.len() == 0 {
                t
            } else {
                p.duration
            })
            &&& q.published == (if p.tag == "pubDate"@ && p.published is None {
                time::rfc2822_time(t)
            } else {
                p.published
            })
        }),
{
    lemma_episode_elements_differ();
}

/// An item element with a title, an address, a date and a length.
pub open spec fn episode_element(
    title: Seq<char>,
    url: Seq<char>,
    date: Seq<char>,
    duration: Seq<char>,
) -> Seq<Xml> {
    let none = Seq::<Attr>::empty();
    seq![
        Xml::Start { name: "item"@, attrs: none },
        Xml::Start { name: "title"@, attrs: none },
        Xml::CData(title),
        Xml::Start { name: "link"@, attrs: none },
        Xml::CData(url),
        Xml::Start { name: "pubDate"@, attrs: none },
        Xml::CData(date),
        Xml::Start { name: "duration"@, attrs: none },
        Xml::CData(duration),
        Xml::End { name: "item"@ },
    ]
}

/// An item with a title is an episode wherever it stands in a feed that has not given enough yet,
/// if it is not older than the cutoff: it comes behind the episodes before it, with its title, its
/// address, its date, its length and the podcast's name; otherwise no episode comes of it.
pub proof fn episodes_are_read_whole(
    before: Seq<Xml>,
    title: Seq<char>,
    url: Seq<char>,
    date: Seq<char>,
    duration: Seq<char>,
    name: Seq<char>,
    max: nat,
    cutoff: Option<Timestamp>,
)
    requires
        !pod_after(before, name, max, cutoff).full,
        title.len() > 0,
    ensures
        ({
            let had = pod_after(before, name, max, cutoff).episodes;
            let got = pod_after(
                before + episode_element(title, url, date, duration),
                name,
                max,
                cutoff,
            ).episodes;
            let old_one = cutoff matches Some(c) && time::rfc2822_time(date) matches Some(t)
                && t.is_before(c);
            if old_one {
                got == had
            } else {
                &&& got.len() == had.len() + 1
                &&& got.take(had.len() as int) == had
                &&& got.last().title == title
                &&& got.last().url == url
                &&& got.last().published == time::rfc2822_time(date)
                &&& got.last().duration == duration
                &&& got.last().podcast_name == name
            }
        }),
{
    lemma_episode_elements_differ();
    let e = episode_element(title, url, date, duration);
    let p0 = pod_after(before, name, max, cutoff);
    let p1 = pod_step(p0, e[0], name, max, cutoff);
    let p2 = pod_step(p1, e[1], name, max, cutoff);
    let p3 = pod_step(p2, e[2], name, max, cutoff);
    let p4 = pod_step(p3, e[3], name, max, cutoff);
    let p5 = pod_step(p4, e[4], name, max, cutoff);
    let p6 = pod_step(p5, e[5], name, max, cutoff);
    let p7 = pod_step(p6, e[6], name, max, cutoff);
    let p8 = pod_step(p7, e[7], name, max, cutoff);
    let p9 = pod_step(p8, e[8], name, max, cutoff);
    let p10 = pod_step(p9, e[9], name, max, cutoff);
    assert(p2.tag == "title"@ && p2.open && p2.title.len() == 0 && !p2.full);
    assert(p3.title == title && p3.url.len() == 0 && !p3.full && p3.open);
    assert(p5.url == url && p5.title == title && p5.published is None && !p5.full && p5.open);
    assert(p7.published == time::rfc2822_time(date) && p7.url == url && p7.title == title);
    assert(p9.duration =~= duration && p9.published == p7.published && p9.url == url && p9.title
        == title && !p9.full && p9.open && p9.episodes == p0.episodes);
    lemma_pod_steps(before, e, 1, name, max, cutoff);
    lemma_pod_steps(before, e, 2, name, max, cutoff);
    lemma_pod_steps(before, e, 3, name, max, cutoff);
    lemma_pod_steps(before, e, 4, name, max, cutoff);
    lemma_pod_steps(before, e, 5, name, max, cutoff);
    lemma_pod_steps(before, e, 6, name, max, cutoff);
    lemma_pod_steps(before, e, 7, name, max, cutoff);
    lemma_pod_steps(before, e, 8, name, max, cutoff);
    lemma_pod_steps(before, e, 9, name, max, cutoff);
    lemma_pod_steps(before, e, 10, name, max, cutoff);
    assert(before + e.take(0) =~= before);
    assert(before + e.take(10) =~= before + e);
    if p10.episodes.len() > p0.episodes.len() {
        assert(p10.episodes.take(p0.episodes.len() as int) =~= p0.episodes);
    }
}

/// A feed after one more event of a list.
proof fn lemma_pod_steps(
    before: Seq<Xml>,
    e: Seq<Xml>,
    k: int,
    name: Seq<char>,
    max: nat,
    cutoff: Option<Timestamp>,
)
    requires
        0 < k <= e.len(),
    ensures
        ({
            let p = pod_after(before + e.take(k - 1), name, max, cutoff);
            pod_after(before + e.take(k), name, max, cutoff) == (if p.full {
                p
            } else {
                pod_step(p, e[k - 1], name, max, cutoff)
            })
        }),
{
    let s = before + e.take(k);
    assert(s.drop_last() =~= before + e.take(k - 1));
    assert(s.last() == e[k - 1]);
}

/// The address of an enclosure is an episode's where it has no other, and never replaces one.
pub proof fn enclosures_give_addresses(
    p: Pod,
    url: Attr,
    name: Seq<char>,
    max: nat,
    cutoff: Option<Timestamp>,
)
    requires
        p.open,
        xml::local_name(url.name) == "url"@,
    ensures
        p.url.len() == 0 ==> pod_step(
            p,
            Xml::Start { name: "enclosure"@, attrs: seq![url] },
            name,
            max,
            cutoff,
        ).url == url.value,
        p.url.len() > 0 ==> pod_step(
            p,
            Xml::Start { name: "enclosure"@, attrs: seq![url] },
            name,
            max,
            cutoff,
        ).url == p.url,
{
    lemma_episode_elements_differ();
    let attrs = seq![url];
    assert(attrs.last() == url);
    assert(attrs.drop_last() =~= Seq::<Attr>::empty());
    assert(enclosure_url(p.url, attrs.drop_last()) == p.url);
}

/// An item that is closed is told as it was read: its title, its address, its date, its length,
/// the podcast's name and the beginning of its description; one that is older than the cutoff or
/// has no title is not told, and the episodes before it stay.
pub proof fn closed_episodes_are_told_as_read(
    p: Pod,
    name: Seq<char>,
    max: nat,
    cutoff: Option<Timestamp>,
)
    requires
        p.open,
    ensures
        ({
            let q = pod_step(p, Xml::End { name: "item"@ }, name, max, cutoff);
            &&& !q.open
            &&& p.title.len() > 0 && time::recent(p.published, cutoff) ==> q.episodes.len()
                == p.episodes.len() + 1 && q.episodes.drop_last() == p.episodes
                && q.episodes.last().title == p.title && q.episodes.last().url == p.url
                && q.episodes.last().published == p.published && q.episodes.last().duration
                == p.duration && q.episodes.last().podcast_name == name
                && q.episodes.last().description == text::shortened(
                plain_description(p.description),
                500,
            )
            &&& p.title.len() == 0 || !time::recent(p.published, cutoff) ==> q.episodes == p.episodes
            &&& q.episodes.len() > p.episodes.len() ==> (q.full <==> q.episodes.len() >= max)
        }),
{
    let q = pod_step(p, Xml::End { name: "item"@ }, name, max, cutoff);
    if q.episodes.len() > p.episodes.len() {
        assert(q.episodes.drop_last() =~= p.episodes);
    }
}

/// An item begins with nothing read.
pub proof fn episodes_begin_empty(
    p: Pod,
    attrs: Seq<Attr>,
    t: Seq<char>,
    name: Seq<char>,
    max: nat,
    cutoff: Option<Timestamp>,
)
    ensures
        ({
            let q = pod_step(p, Xml::Start { name: "item"@, attrs }, name, max, cutoff);
            q.open && q.title.len() == 0 && q.url.len() == 0 && q.published is None
                && q.description.len() == 0 && q.duration.len() == 0 && q.episodes == p.episodes
        }),
        !p.open ==> pod_step(p, Xml::CData(t), name, max, cutoff) == p,
        !p.open ==> pod_step(p, Xml::Text(t), name, max, cutoff) == p,
{
}

} // verus!
