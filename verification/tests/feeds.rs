//! Feeds of news, papers and podcasts.
use news_lab::fetcher::arxiv::{
    anchor_clause, arxiv_encode, choose_papers, collapse_whitespace, expand_prompt, is_on_topic,
    keep_recent, next_window, paper_id, papers_from_events, papers_in_reply, papers_per_term,
    parse_arxiv_atom, term_matches, term_query, terms_from_reply, terms_or_keyword, ArxivPaper,
};
use news_lab::fetcher::podcast::{
    episodes_from_events, itunes_url, merge_episodes, parse_rss, podcasts_with_feed, ItunesResult,
};
use news_lab::fetcher::tech::{
    after_attempt, after_search, combine_news, emerging_query, expanded_keywords, github_items,
    github_search_url, hackernews_items, hackernews_urls, is_wanted, items_per_source,
    medium_slugs, medium_url, merge_feeds, merge_news, news_expand_prompt, news_terms_part,
    next_story_search, parse_feed_time, parse_rss_items, pushed_query, rss_items_from_events, share, strip_html,
    to_medium_slug, tokens_of, Attempt, GitHubItem, HNHit, NextTry, SearchOutcome, SearchStep,
    RSS_SOURCES,
};
use news_lab::fetcher::{arxiv, podcast, NewsItem};
use news_lab::time::Timestamp;
use news_lab::xml::{local_part, read_events, XmlAttr, XmlEvent};

fn strings(v: &[&str]) -> Vec<String> {
    v.iter().map(|s| s.to_string()).collect()
}

fn at(secs: i64) -> Option<Timestamp> {
    Some(Timestamp { secs, nanos: 0 })
}

fn news(url: &str, published: Option<Timestamp>) -> NewsItem {
    NewsItem {
        title: url.to_string(),
        url: url.to_string(),
        source: "s".to_string(),
        published,
        description: String::new(),
    }
}

fn urls(v: &[NewsItem]) -> Vec<String> {
    v.iter().map(|n| n.url.clone()).collect()
}

const RSS: &str = r#"<?xml version="1.0"?><rss><channel><title>Feed</title>
<item><title>Rust &amp; GPU</title><link>https://a.example/1</link>
<description><![CDATA[<p>Fast   <b>code</b></p>]]></description>
<pubDate>Tue, 01 Jul 2003 10:52:37 +0200</pubDate></item>
<item><title>Cooking</title><link>https://a.example/2</link><description>Soup</description></item>
<item><title>No link</title></item>
<entry><title>Atom GPU</title><link href="https://a.example/3"/><summary>x</summary>
<updated>2024-05-06T07:08:09Z</updated></entry>
</channel></rss>"#;

#[test]
fn markup_is_read_as_events() {
    let events = read_events(r#"<a:b x="1 &amp; 2" ns:y='3'>t &lt; u<c/></a:b>"#);
    assert_eq!(events.len(), 4);
    match &events[0] {
        XmlEvent::Start { name, attrs } => {
            assert_eq!(name, "b");
            assert_eq!(attrs.len(), 2);
            assert_eq!(attrs[0].raw, "1 &amp; 2");
            assert_eq!(attrs[0].value, "1 & 2");
            assert_eq!(attrs[1].name, "ns:y");
            assert_eq!(local_part(&attrs[1].name), "y");
        }
        _ => panic!("a start tag comes first"),
    }
    assert!(matches!(&events[1], XmlEvent::Text(t) if t == "t < u"));
    assert!(matches!(&events[2], XmlEvent::Empty { name, .. } if name == "c"));
    assert!(matches!(&events[3], XmlEvent::End { name } if name == "b"));
    assert_eq!(read_events("<a></b>").len(), 1);
}

#[test]
fn feeds_give_the_items_that_speak_of_a_keyword() {
    let items = parse_rss_items(RSS, "Feed", &strings(&["gpu"]), 10);
    assert_eq!(urls(&items), vec!["https://a.example/1", "https://a.example/3"]);
    assert_eq!(items[0].title, "Rust & GPU");
    assert_eq!(items[0].description, "Fast code");
    assert_eq!(items[0].source, "Feed");
    assert_eq!(items[0].published, at(1057049557));
    assert_eq!(items[1].published, at(1714979289));
}

#[test]
fn feeds_without_keywords_give_all_items_up_to_a_number() {
    let items = parse_rss_items(RSS, "Feed", &vec![], 2);
    assert_eq!(urls(&items), vec!["https://a.example/1", "https://a.example/2"]);
    assert_eq!(parse_rss_items(RSS, "Feed", &vec![], 0).len(), 1);
}

#[test]
fn feeds_by_their_events() {
    let text = |s: &str| XmlEvent::Text(s.to_string());
    let start = |s: &str| XmlEvent::Start { name: s.to_string(), attrs: vec![] };
    let end = |s: &str| XmlEvent::End { name: s.to_string() };
    let href = XmlAttr {
        name: "href".to_string(),
        raw: "u".to_string(),
        value: "v".to_string(),
    };
    let events = vec![
        start("Item"),
        start("title"),
        text("T"),
        end("title"),
        XmlEvent::Empty { name: "LINK".to_string(), attrs: vec![href] },
        end("item"),
    ];
    let items = rss_items_from_events(&events, "s", &vec![], 5);
    assert_eq!(items.len(), 1);
    assert_eq!(items[0].title, "T");
    assert_eq!(items[0].url, "u");
}

#[test]
fn articles_are_wanted_by_phrase_or_first_words() {
    assert!(is_wanted("The Ray Serve guide", "", &strings(&["ray serve"])));
    assert!(is_wanted("Kubernetes", "with a GPU", &strings(&["Kubernetes GPU device plugin"])));
    assert!(!is_wanted("Kubernetes", "", &strings(&["Kubernetes GPU device plugin"])));
    assert!(is_wanted("anything", "", &vec![]));
    assert_eq!(tokens_of("a kubernetes -x gpu plugin"), vec!["kubernetes", "gpu"]);
}

#[test]
fn tags_become_spaces() {
    assert_eq!(strip_html(" <p>a</p><p>b</p> "), "a b");
    assert_eq!(podcast::strip_html("<p>a &amp; b</p>"), "a & b");
}

#[test]
fn times_of_feeds() {
    assert_eq!(parse_feed_time(" Tue, 01 Jul 2003 10:52:37 +0200 "), at(1057049557));
    assert_eq!(parse_feed_time("2024-05-06T07:08:09Z"), at(1714979289));
    assert_eq!(parse_feed_time("yesterday"), None);
}

#[test]
fn stories_become_news() {
    assert_eq!(
        hackernews_urls("a b", 5)[0],
        "https://hn.algolia.com/api/v1/search_by_date?query=a+b&tags=story&hitsPerPage=5"
    );
    assert_eq!(hackernews_urls("x", 5).len(), 3);
    assert_eq!(next_story_search(0, 0), Some(0));
    assert_eq!(next_story_search(2, 0), Some(2));
    assert_eq!(next_story_search(1, 4), None);
    assert_eq!(next_story_search(3, 0), None);
    assert_eq!(hackernews_urls("x", 5)[2], "https://hn.algolia.com/api/v1/search?query=x&hitsPerPage=5");
    let hit = |title: &str, url: &str| HNHit {
        title: title.to_string(),
        url: url.to_string(),
        object_id: "42".to_string(),
        story_text: "機".repeat(400),
        created_at: "2024-05-06T07:08:09Z".to_string(),
    };
    let items = hackernews_items(&vec![hit("", "u"), hit("T", ""), hit("U", "https://u")]);
    assert_eq!(urls(&items), vec!["https://news.ycombinator.com/item?id=42", "https://u"]);
    assert_eq!(items[0].published, at(1714979289));
    assert_eq!(items[0].description.chars().count(), 300);
}

#[test]
fn projects_become_news() {
    let item = GitHubItem {
        full_name: "o/r".to_string(),
        html_url: "https://github.com/o/r".to_string(),
        description: None,
        pushed_at: Some("2024-05-06T07:08:09Z".to_string()),
        created_at: Some("bad".to_string()),
        stargazers_count: Some(1234),
        language: Some("Rust".to_string()),
    };
    let items = github_items(&vec![item], false);
    assert_eq!(items[0].description, "⭐   1234 | Rust | No description");
    assert_eq!(items[0].published, at(1714979289));
    assert_eq!(pushed_query("a", "2024-01-01"), "a pushed:>2024-01-01");
    assert_eq!(emerging_query("a", "2024-01-01", 10), "a created:>2024-01-01 stars:>10");
    assert_eq!(
        github_search_url("a pushed:>x", 7),
        "https://api.github.com/search/repositories?q=a+pushed%3A%3Ex&sort=stars&order=desc&per_page=7"
    );
}

#[test]
fn shares_of_a_number() {
    assert_eq!(share(10, 3), 5);
    assert_eq!(share(10, 1), 10);
    assert_eq!(share(3, 0), 3);
    assert_eq!(share(usize::MAX, 1), usize::MAX);
    assert_eq!(items_per_source(100), 12);
    assert_eq!(items_per_source(2), 2);
    assert_eq!(RSS_SOURCES.len(), 10);
}

#[test]
fn merged_news_has_each_address_once_and_is_newest_first() {
    let lists = || {
        vec![
            vec![news("a", at(1)), news("b", None)],
            vec![news("a", at(9)), news("c", at(5)), news("d", at(5))],
        ]
    };
    assert_eq!(urls(&merge_feeds(lists())), vec!["c", "d", "a", "b"]);
    assert_eq!(urls(&merge_news(lists(), 2)), vec!["c", "d"]);
    let both = combine_news(vec![news("a", at(1))], vec![news("a", at(9)), news("e", None)], 5);
    assert_eq!(both[0].published, at(9));
    assert_eq!(both.len(), 3);
}

#[test]
fn keywords_stand_before_their_terms() {
    let (en, zh) = expanded_keywords("k", Some((strings(&["a", "b"]), strings(&["c"]))));
    assert_eq!(en, vec!["k", "a", "b"]);
    assert_eq!(zh, vec!["k", "c"]);
    let (en, zh) = expanded_keywords("k", None);
    assert_eq!((en, zh), (strings(&["k"]), strings(&["k"])));
    assert_eq!(news_terms_part("```json\nHere: {\"en\": []}\n```"), "{\"en\": []}");
    assert!(news_expand_prompt("kuberay!").contains("關鍵字：kuberay!"));
}

#[test]
fn searches_go_on_until_something_is_found() {
    assert_eq!(after_search(SearchOutcome::NotSent), SearchStep::Next);
    let r = |status, found| after_search(SearchOutcome::Replied { status, found });
    assert_eq!(r(403, Some(3)), SearchStep::Stop);
    assert_eq!(r(200, Some(0)), SearchStep::Next);
    assert_eq!(r(200, None), SearchStep::Next);
    assert_eq!(r(200, Some(1)), SearchStep::Take);
}

#[test]
fn requests_are_made_three_times_at_most() {
    let r = |tried, status, readable| after_attempt(tried, Attempt::Replied { status, readable });
    assert_eq!(after_attempt(0, Attempt::NotSent), NextTry::Again { wait_secs: 1 });
    assert_eq!(r(1, 503, true), NextTry::Again { wait_secs: 2 });
    assert_eq!(r(2, 503, true), NextTry::GiveUp);
    assert_eq!(r(0, 404, true), NextTry::GiveUp);
    assert_eq!(r(0, 200, true), NextTry::Take);
    assert_eq!(r(0, 200, false), NextTry::Again { wait_secs: 1 });
}

#[test]
fn keywords_as_tags() {
    assert_eq!(to_medium_slug(" AI on K8s! "), "ai-on-k8s");
    assert_eq!(to_medium_slug("--"), "");
    assert_eq!(
        medium_slugs(&strings(&["A B", "!", "c", "d", "e"])),
        vec!["a-b", "c", "d"]
    );
    assert_eq!(medium_url("a-b"), "https://medium.com/feed/tag/a-b");
}

const ATOM: &str = r#"<feed><entry><id>http://arxiv.org/abs/2401.01234v2</id>
<title>Deep
  Learning</title><summary>  An   abstract about scheduling. </summary>
<published>2024-01-02T03:04:05Z</published>
<author><name>A</name></author><author><name>B</name></author><author><name>C</name></author>
<author><name>D</name></author>
<category term="cs.LG"></category><link rel="alternate" href="https://x.example/p"></link>
</entry><entry><id>https://arxiv.org/abs/2402.00001</id><title>Two</title></entry></feed>"#;

#[test]
fn papers_are_read_from_a_reply() {
    let papers = parse_arxiv_atom(ATOM);
    assert_eq!(papers.len(), 2);
    assert_eq!(papers[0].arxiv_id, "2401.01234");
    assert_eq!(papers[0].title, "Deep Learning");
    assert_eq!(papers[0].abstract_text, "An abstract about scheduling.");
    assert_eq!(papers[0].published, at(1704164645));
    assert_eq!(papers[0].authors, vec!["A", "B", "C", "et al."]);
    assert_eq!(papers[0].categories, vec!["cs.LG"]);
    assert_eq!(papers[0].url, "https://x.example/p");
    assert_eq!(papers[1].url, "https://arxiv.org/abs/2402.00001");
    assert_eq!(papers[1].published, None);
    assert!(papers_from_events(&vec![]).is_empty());
    let kept = papers_in_reply(ATOM, at(1704164646), 5);
    assert_eq!(kept.len(), 1);
    assert_eq!(kept[0].title, "Two");
}

fn paper(id: &str, title: &str, published: Option<Timestamp>) -> ArxivPaper {
    ArxivPaper {
        arxiv_id: id.to_string(),
        title: title.to_string(),
        url: String::new(),
        published,
        authors: vec![],
        abstract_text: String::new(),
        categories: vec![],
    }
}

#[test]
fn papers_are_chosen_by_terms_and_ordered_by_date() {
    let lists = vec![
        vec![paper("1", "Task Scheduling", at(5)), paper("2", "Cooking", at(9))],
        vec![
            paper("1", "Task Scheduling", at(99)),
            paper("3", "Workflow scheduling", None),
            paper("4", "scheduling task", at(-5)),
        ],
    ];
    let chosen = choose_papers(lists, &strings(&["Task Scheduling", "workflow scheduling"]), 9);
    let ids: Vec<String> = chosen.iter().map(|p| p.arxiv_id.clone()).collect();
    assert_eq!(ids, vec!["1", "3", "4"]);
    let kept = keep_recent(vec![paper("1", "a", at(1)), paper("2", "b", None), paper("3", "c", at(7))], at(5), 2);
    assert_eq!(kept.len(), 2);
    assert_eq!(kept[1].arxiv_id, "3");
    assert!(is_on_topic(&paper("1", "Big DAG", None), &strings(&["dag big"])));
    assert!(!is_on_topic(&paper("1", "Big DAG", None), &strings(&["ai"])));
}

#[test]
fn queries_for_papers() {
    assert_eq!(arxiv_encode("a b~é"), "a+b%7E%C3%A9");
    assert_eq!(arxiv_encode("\t機"), "%09%E6%A9%9F");
    assert_eq!(arxiv_encode("機 AI"), "%E6%A9%9F+AI");
    assert!(term_matches("dag execution", "the dag and its execution"));
    assert!(!term_matches("ai", "ai"));
    assert_eq!(anchor_clause("medical ai"), "+AND+(ti:medical+OR+abs:medical)");
    assert_eq!(anchor_clause("ai"), "");
    assert_eq!(
        anchor_clause("medical image"),
        "+AND+(ti:medical+OR+abs:medical+OR+ti:image+OR+abs:image)"
    );
    assert_eq!(term_query("dag", "+AND+(x)"), "(ti:dag+OR+abs:dag)+AND+(x)");
    assert_eq!(papers_per_term(3), 10);
    assert_eq!(papers_per_term(8), 16);
    assert_eq!(
        arxiv::search_url("q", 5),
        "https://export.arxiv.org/api/query?search_query=q&start=0&max_results=15&sortBy=submittedDate&sortOrder=descending"
    );
    assert_eq!(next_window(0, 0), Some(90));
    assert_eq!(next_window(2, 0), Some(0));
    assert_eq!(next_window(3, 0), None);
    assert_eq!(next_window(1, 4), None);
    assert_eq!(paper_id("https://arxiv.org/abs/1v3"), "1");
    assert_eq!(collapse_whitespace(" a \n b "), "a b");
}

#[test]
fn terms_of_a_reply() {
    assert_eq!(
        terms_from_reply("k", Some("```json\n[\"a b\", \"c\"]\n```")),
        vec!["a b", "c"]
    );
    assert_eq!(terms_from_reply("k", Some("Sure: [\"a\"]")), vec!["a"]);
    assert_eq!(terms_from_reply("k", Some("[]")), vec!["k"]);
    assert_eq!(terms_from_reply("k", Some("[1]")), vec!["k"]);
    assert_eq!(terms_from_reply("k", None), vec!["k"]);
    assert_eq!(terms_or_keyword("k", Some(strings(&["x"]))), vec!["x"]);
    assert!(expand_prompt("airflow!").contains("關鍵字：airflow!"));
}

const PODCAST: &str = r#"<rss><channel><title>Show</title>
<item><title>One</title><title>Again</title><link>https://p.example/1</link>
<pubDate>Tue, 01 Jul 2003 10:52:37 +0200</pubDate>
<description><![CDATA[<b>Talk</b> &amp; more]]></description><itunes:duration>12:34</itunes:duration></item>
<item><title>Two</title><enclosure url="https://p.example/2.mp3"></enclosure></item>
<item><description>no title</description></item>
</channel></rss>"#;

#[test]
fn episodes_are_read_from_a_feed() {
    let eps = parse_rss(PODCAST, "Show", 9, None);
    assert_eq!(eps.len(), 2);
    assert_eq!(eps[0].title, "One");
    assert_eq!(eps[0].url, "https://p.example/1");
    assert_eq!(eps[0].description, "Talk & more");
    assert_eq!(eps[0].duration, "12:34");
    assert_eq!(eps[0].podcast_name, "Show");
    assert_eq!(eps[0].published, at(1057049557));
    assert_eq!(eps[1].url, "https://p.example/2.mp3");
    let late = parse_rss(PODCAST, "Show", 9, at(1057049558));
    assert_eq!(late.len(), 1);
    assert_eq!(late[0].title, "Two");
    assert_eq!(parse_rss(PODCAST, "Show", 1, None).len(), 1);
    assert!(episodes_from_events(&vec![], "Show", 1, None).is_empty());
    let merged = merge_episodes(vec![parse_rss(PODCAST, "A", 9, None), parse_rss(PODCAST, "B", 1, None)]);
    let names: Vec<String> = merged.iter().map(|e| format!("{}{}", e.podcast_name, e.title)).collect();
    assert_eq!(names, vec!["AOne", "BOne", "ATwo"]);
}

#[test]
fn podcasts_are_searched_by_keyword() {
    assert_eq!(
        itunes_url("ai on k8s", 3),
        "https://itunes.apple.com/search?term=ai+on+k8s&media=podcast&limit=3"
    );
    let p = |name: &str, feed: &str| ItunesResult {
        collection_name: name.to_string(),
        feed_url: feed.to_string(),
    };
    assert_eq!(
        podcasts_with_feed(vec![p("a", ""), p("b", "f")]),
        vec![("b".to_string(), "f".to_string())]
    );
}
