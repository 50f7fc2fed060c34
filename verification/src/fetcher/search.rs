//! Searching the web through SearXNG.
use vstd::prelude::*;
use crate::lists;
use crate::percent;
use crate::text;
use crate::text::same;
use crate::time;
use crate::time::Timestamp;

verus! {

/// The message of a search that is switched off.
pub const SEARXNG_DISABLED: &'static str = "SEARXNG_DISABLED";

/// Why a search gave no results.
#[derive(Debug)]
pub enum SearchError {
    /// No address is set.
    Disabled,
    /// The search failed, with a message.
    Failed(String),
}

impl SearchError {
    /// The message of an error.
    pub open spec fn message_text(&self) -> Seq<char> {
        match self {
            SearchError::Disabled => SEARXNG_DISABLED@,
            SearchError::Failed(m) => m@,
        }
    }

    /// The message of an error.
    pub fn message(&self) -> (r: String)
        ensures
            r@ == self.message_text(),
    {
        match self {
            SearchError::Disabled => SEARXNG_DISABLED.to_owned(),
            SearchError::Failed(m) => m.clone(),
        }
    }
}

/// Whether an error says that searching is switched off, by its kind or by its message.
pub fn is_searxng_disabled_error(err: &SearchError) -> (r: bool)
    ensures
        r == (err is Disabled || err.message_text() == SEARXNG_DISABLED@),
{
    match err {
        SearchError::Disabled => true,
        SearchError::Failed(m) => same(m, SEARXNG_DISABLED),
    }
}

/// A result of a search.
#[derive(Debug, Clone, PartialEq, Eq)]
pub struct SearchResult {
    pub title: String,
    pub url: String,
    pub content: String,
    pub published: Option<Timestamp>,
}

/// A result of a search, by its texts.
pub struct Hit {
    pub title: Seq<char>,
    pub url: Seq<char>,
    pub content: Seq<char>,
    pub published: Option<Timestamp>,
}

impl View for SearchResult {
    type V = Hit;

    open spec fn view(&self) -> Hit {
        Hit {
            title: self.title@,
            url: self.url@,
            content: self.content@,
            published: self.published,
        }
    }
}

/// A result as the reply tells it.
pub struct SearxngResult {
    pub title: String,
    pub url: String,
    pub content: String,
    pub published_date: Option<String>,
}

/// An address without white space around it and without slashes at its end.
pub open spec fn base_address(s: Seq<char>) -> Seq<char> {
    text::without_suffixes(text::trimmed(s), "/"@)
}

/// An address without white space around it and without slashes at its end.
pub fn trim_base_url(s: &str) -> (r: String)
    ensures
        r@ == base_address(s@),
{
    proof {
        reveal_strlit("/");
    }
    text::trim_end_matches(&text::trim(s), "/")
}

/// The address that a setting gives; `None` where nothing is left of it.
pub open spec fn configured_base(value: Option<Seq<char>>) -> Option<Seq<char>> {
    match value {
        Some(v) if base_address(v).len() > 0 => Some(base_address(v)),
        _ => None,
    }
}

/// The address that a setting gives.
pub fn searxng_base_url_from_env_value(value: Option<&str>) -> (r: Option<String>)
    ensures
        text::opt(r) == configured_base(text::opt_str(value)),
{
    match value {
        Some(v) => {
            let url = trim_base_url(v);
            if text::is_empty(&url) {
                None
            } else {
                Some(url)
            }
        },
        None => None,
    }
}

/// The address of a search.
pub open spec fn search_address(base_url: Seq<char>, query: Seq<char>) -> Seq<char> {
    base_address(base_url) + "/search?q="@ + percent::query_text(query)
        + "&format=json&language=auto&safesearch=0"@
}

/// The address of a search.
pub fn searxng_search_url(base_url: &str, query: &str) -> (r: String)
    ensures
        r@ == search_address(base_url@, query@),
{
    text::concat4(
        &trim_base_url(base_url),
        "/search?q=",
        &percent::urlencoding(query),
        "&format=json&language=auto&safesearch=0",
    )
}

/// The address to which a search is sent; without a base address searching is switched off.
pub fn searxng_request(query: &str, base_url: &str) -> (r: Result<String, SearchError>)
    ensures
        r is Err == (base_address(base_url@).len() == 0),
        r matches Err(e) ==> e is Disabled,
        r matches Ok(url) ==> url@ == search_address(base_address(base_url@), query@),
{
    let base = trim_base_url(base_url);
    if text::is_empty(&base) {
        return Err(SearchError::Disabled);
    }
    Ok(searxng_search_url(&base, query))
}

/// The error of a search that could not be sent.
pub fn send_error(query: &str, cause: &str) -> (r: SearchError)
    ensures
        r is Failed,
        r.message_text() == "SearXNG 搜尋失敗（"@ + query@ + "）: "@ + cause@,
{
    SearchError::Failed(text::concat4("SearXNG 搜尋失敗（", query, "）: ", cause))
}

/// The error of a search whose status is not success.
pub fn status_error(query: &str, status: &str) -> (r: SearchError)
    ensures
        r is Failed,
        r.message_text() == "SearXNG 搜尋失敗（"@ + query@ + "）: HTTP "@ + status@,
{
    SearchError::Failed(text::concat4("SearXNG 搜尋失敗（", query, "）: HTTP ", status))
}

/// The error of a search whose reply could not be read.
pub fn body_error(query: &str, cause: &str) -> (r: SearchError)
    ensures
        r is Failed,
        r.message_text() == "SearXNG 回應讀取失敗（"@ + query@ + "）: "@ + cause@,
{
    SearchError::Failed(text::concat4("SearXNG 回應讀取失敗（", query, "）: ", cause))
}

/// The time of a result: as in RFC 3339, or a day alone.
pub open spec fn result_time(s: Seq<char>) -> Option<Timestamp> {
    let t = text::trimmed(s);
    if t.len() == 0 {
        None
    } else {
        match time::rfc3339_time(t) {
            Some(x) => Some(x),
            None => match time::day_start(t, "%Y-%m-%d"@) {
                Some(secs) => Some(Timestamp { secs, nanos: 0 }),
                None => None,
            },
        }
    }
}

/// The time of a result.
pub fn parse_searxng_date(s: &str) -> (r: Option<Timestamp>)
    ensures
        r == result_time(s@),
{
    let t = text::trim(s);
    if text::is_empty(&t) {
        return None;
    }
    match time::parse_rfc3339(&t) {
        Some(x) => Some(x),
        None => match time::parse_day(&t, "%Y-%m-%d") {
            Some(secs) => Some(Timestamp { secs, nanos: 0 }),
            None => None,
        },
    }
}

/// Whether an address is one of the web.
pub open spec fn is_web(url: Seq<char>) -> bool {
    text::begins(url, "http://"@) || text::begins(url, "https://"@)
}

/// The results that are kept, in order: those with an address of the web and a title, each text
/// without white space around it.
pub open spec fn kept_results(items: Seq<SearxngResult>) -> Seq<Hit>
    decreases items.len(),
{
    if items.len() == 0 {
        Seq::empty()
    } else {
        let r = kept_results(items.drop_last());
        let x = items.last();
        if is_web(text::trimmed(x.url@)) && text::trimmed(x.title@).len() > 0 {
            r.push(
                Hit {
                    title: text::trimmed(x.title@),
                    url: text::trimmed(x.url@),
                    content: text::trimmed(x.content@),
                    published: match x.published_date {
                        Some(d) => result_time(d@),
                        None => None,
                    },
                },
            )
        } else {
            r
        }
    }
}

/// Keeps the results with an address of the web and a title.
pub fn parse_searxng_results(items: &Vec<SearxngResult>) -> (r: Vec<SearchResult>)
    ensures
        lists::views(r@) == kept_results(items@),
{
    let ghost all = items@;
    let mut r: Vec<SearchResult> = Vec::new();
    let mut i: usize = 0;
    assert(lists::views(r@) =~= Seq::empty());
    while i < items.len()
        invariant
            i <= items@.len(),
            all == items@,
            lists::views(r@) == kept_results(all.take(i as int)),
        decreases items.len() - i,
    {
        broadcast use lists::views_push;

        proof {
            assert(all.take(i + 1).drop_last() =~= all.take(i as int));
            assert(all.take(i + 1).last() == items@[i as int]);
        }
        let url = text::trim(&items[i].url);
        let title = text::trim(&items[i].title);
        if (text::starts_with(&url, "http://") || text::starts_with(&url, "https://"))
            && !text::is_empty(&title) {
            let published = match &items[i].published_date {
                Some(d) => parse_searxng_date(d),
                None => None,
            };
            let content = text::trim(&items[i].content);
            r.push(SearchResult { title, url, content, published });
        }
        i += 1;
    }
    proof {
        lists::take_all(all);
    }
    r
}

/// Every result that is kept has an address of the web and a title.
pub proof fn kept_results_are_usable(items: Seq<SearxngResult>)
    ensures
        forall|i: int|
            0 <= i < kept_results(items).len() ==> is_web((#[trigger] kept_results(items)[i]).url)
                && kept_results(items)[i].title.len() > 0,
        kept_results(items).len() <= items.len(),
    decreases items.len(),
{
    if items.len() > 0 {
        kept_results_are_usable(items.drop_last());
    }
}

// ── Laws ─────────────────────────────────────────────────────────────────────

/// Every result with an address of the web and a title is kept, in order, with its own title,
/// address, content and date, and no other is.
pub proof fn usable_results_are_kept(items: Seq<SearxngResult>)
    ensures
        ({
            let usable = items.filter(
                |x: SearxngResult|
                    (text::begins(text::trimmed(x.url@), "http://"@) || text::begins(
                        text::trimmed(x.url@),
                        "https://"@,
                    )) && text::trimmed(x.title@).len() > 0,
            );
            let r = kept_results(items);
            &&& r.len() == usable.len()
            &&& forall|k: int|
                0 <= k < r.len() ==> {
                    let x = usable[k];
                    &&& (#[trigger] r[k]).title == text::trimmed(x.title@)
                    &&& r[k].url == text::trimmed(x.url@)
                    &&& r[k].content == text::trimmed(x.content@)
                    &&& x.published_date matches Some(d) ==> r[k].published == result_time(d@)
                    &&& x.published_date is None ==> r[k].published is None
                }
        }),
    decreases items.len(),
{
    reveal(Seq::filter);
    if items.len() > 0 {
        usable_results_are_kept(items.drop_last());
    }
}

/// The time of a result is read as a full time where it is one, and otherwise as the start of a
/// day; a blank one is none.
pub proof fn times_or_days_are_read(s: Seq<char>)
    ensures
        text::trimmed(s).len() == 0 ==> result_time(s) is None,
        text::trimmed(s).len() > 0 && time::rfc3339_time(text::trimmed(s)) is Some ==> result_time(s)
            == time::rfc3339_time(text::trimmed(s)),
        text::trimmed(s).len() > 0 && time::rfc3339_time(text::trimmed(s)) is None
            && time::day_start(text::trimmed(s), "%Y-%m-%d"@) is Some ==> (result_time(s) matches Some(t)
            && t.secs == time::day_start(text::trimmed(s), "%Y-%m-%d"@)->0 && t.nanos == 0),
{
}

/// A setting switches searching off where nothing but white space and slashes is in it, and gives
/// an address without a slash at its end otherwise.
pub proof fn settings_give_an_address(v: Seq<char>)
    ensures
        configured_base(None) is None,
        configured_base(Some(v)) matches Some(u) ==> u.len() > 0 && !text::ends(u, "/"@)
            && text::begins(text::trimmed(v), u),
        configured_base(Some(v)) is None ==> base_address(v).len() == 0,
        !text::ends(text::trimmed(v), "/"@) && text::trimmed(v).len() > 0 ==> configured_base(Some(v))
            == Some(text::trimmed(v)),
{
    reveal_strlit("/");
    let t = text::trimmed(v);
    text::suffixes_off_is_part(t, "/"@);
    let u = base_address(v);
    assert(t.subrange(0, u.len() as int) =~= u);
}

/// A search asks its own address for its own query, in JSON.
pub proof fn searches_ask_for_their_query(base: Seq<char>, query: Seq<char>)
    ensures
        text::begins(search_address(base, query), base_address(base)),
        text::holds(search_address(base, query), "/search?q="@ + percent::query_text(query)),
        text::holds(search_address(base, query), "&format=json"@),
{
    broadcast use {text::holds_in_front, text::holds_at_end};

    let u = search_address(base, query);
    let b = base_address(base);
    assert(u.subrange(0, b.len() as int) =~= b);
    let m = "/search?q="@ + percent::query_text(query);
    let tail = "&format=json&language=auto&safesearch=0"@;
    assert(u =~= b + m + tail);
    assert(text::holds(b + m + tail, m));
    reveal_strlit("&format=json");
    reveal_strlit("&format=json&language=auto&safesearch=0");
    assert(tail.subrange(0, 12) =~= "&format=json"@);
    assert(text::occurs_at(tail, "&format=json"@, 0));
    assert(text::holds(u, tail));
    text::holds_within(u, tail, "&format=json"@);
}

} // verus!
