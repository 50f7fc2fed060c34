//! Cases of companies that use a product.
use vstd::prelude::*;
use crate::fetcher::docs::DocPage;
use crate::lists;
use crate::number;
use crate::order;
use crate::order::Entry;
use crate::pattern;
use crate::percent;
use crate::text;
use crate::text::same;
use crate::time;
use crate::time::Timestamp;
use crate::unicode;
use vstd::utf8;

verus! {

/// The first part of the key under which cases are cached.
pub const CASE_CACHE_PREFIX: &'static str = "enterprise_cases";

/// The address of a search, up to the query.
pub const SEARCH_ENDPOINT: &'static str = "https://html.duckduckgo.com/html/?q=";

/// Which sources count.
#[derive(Debug, Clone, Copy, PartialEq, Eq, Structural)]
pub enum SourcePolicy {
    OfficialOnly,
}

impl SourcePolicy {
    /// The name of a policy.
    pub fn as_str(self) -> (r: &'static str)
        ensures
            r@ == "official_only"@,
    {
        match self {
            SourcePolicy::OfficialOnly => "official_only",
        }
    }
}

/// A case.
#[derive(Debug, Clone)]
pub struct CaseEvidence {
    pub company: String,
    pub title: String,
    pub url: String,
    pub publisher: String,
    pub published_at: String,
    pub usage_summary: String,
    pub evidence_type: String,
}

/// Cases are told apart by the letters and digits of the company's name.
impl Entry for CaseEvidence {
    open spec fn key(&self) -> Seq<char> {
        unicode::lowered_alphanumerics(self.company@)
    }

    open spec fn date(&self) -> Option<Timestamp> {
        None
    }

    fn entry_key(&self) -> (r: String) {
        unicode::normalize_text(&self.company)
    }

    fn entry_date(&self) -> (r: Option<Timestamp>) {
        None
    }
}

/// The cases of a product.
#[derive(Debug, Clone)]
pub struct BlipCaseBundle {
    pub product_name: String,
    pub cases: Vec<CaseEvidence>,
    pub fetched_at: String,
    pub source_policy: String,
}

/// A result of a search.
#[derive(Debug, Clone)]
pub struct SearchResult {
    pub title: String,
    pub url: String,
}

/// A result of a search, by its texts.
pub struct Hit {
    pub title: Seq<char>,
    pub url: Seq<char>,
}

impl View for SearchResult {
    type V = Hit;

    open spec fn view(&self) -> Hit {
        Hit { title: self.title@, url: self.url@ }
    }
}

/// What the language model is asked.
pub const CASE_EXTRACTION_PROMPT: &'static str = r#"你是企業案例抽取助手。請只根據以下「官方來源」頁面內容，提取明確表示某公司/組織正在使用「{name}」的案例。

重要規則：
1. 只能根據提供的頁面內容判斷，不可自行猜測
2. 必須有明確公司/組織名稱，且內容要能看出它在使用此產品
3. 若只是產品介紹、合作夥伴列表、媒體報導、或提到但未說明使用，不要列入
4. `usage_summary` 用繁體中文，限 1 句，說明該公司如何使用這個產品
5. `publisher` 填發布案例的官方網站名稱
6. `evidence_type` 填 customer story / case study / blog / docs 其中之一
7. 最多回傳 {max_cases} 筆，不重複公司

只回傳 JSON：
{
  "cases": [
    {
      "company": "Company",
      "title": "案例頁標題",
      "url": "https://example.com/case",
      "publisher": "Example",
      "published_at": "2025-03-12",
      "usage_summary": "一句話說明企業怎麼使用。",
      "evidence_type": "case study"
    }
  ]
}

產品：{name}
官方來源頁面：
{pages}"#;

/// What the language model is asked about a product and the pages that were found.
pub fn case_prompt(name: &str, max_cases: usize, pages: &str) -> (r: String)
    ensures
        r@ == text::replaced(
            text::replaced(
                text::replaced(CASE_EXTRACTION_PROMPT@, "{name}"@, name@),
                "{max_cases}"@,
                number::decimal(max_cases as nat),
            ),
            "{pages}"@,
            pages@,
        ),
{
    proof {
        reveal_strlit("{name}");
        reveal_strlit("{max_cases}");
        reveal_strlit("{pages}");
    }
    let a = text::replace(CASE_EXTRACTION_PROMPT, "{name}", name);
    let b = text::replace(&a, "{max_cases}", &number::usize_text(max_cases));
    text::replace(&b, "{pages}", pages)
}

/// The parts of the key under which the cases of a product are cached.
pub fn case_cache_key(name: &str, github_repo: &str, policy: SourcePolicy, max_cases: usize) -> (r:
    Vec<String>)
    ensures
        text::views(r@) == seq![
            CASE_CACHE_PREFIX@,
            name@,
            github_repo@,
            "official_only"@,
            number::decimal(max_cases as nat),
        ],
{
    let r = vec![
        CASE_CACHE_PREFIX.to_owned(),
        name.to_owned(),
        github_repo.to_owned(),
        policy.as_str().to_owned(),
        number::usize_text(max_cases),
    ];
    assert(text::views(r@) =~= seq![
        CASE_CACHE_PREFIX@,
        name@,
        github_repo@,
        "official_only"@,
        number::decimal(max_cases as nat),
    ]);
    r
}

// ── Choosing cases ─────────────────────────────────────────────────────────────

/// Whether a case names a company and an address.
pub open spec fn is_complete(c: CaseEvidence) -> bool {
    text::trimmed(c.company@).len() > 0 && text::trimmed(c.url@).len() > 0
}

/// The cases that are kept: those that name a company and an address, one for each company, at
/// most `max`.
pub open spec fn chosen_cases(cases: Seq<CaseEvidence>, max: nat) -> Seq<CaseEvidence> {
    order::cut(
        order::distinct(cases.filter(|c: CaseEvidence| is_complete(c))).filter(
            |c: CaseEvidence| c.key().len() > 0,
        ),
        max,
    )
}

/// Chooses the cases that are kept.
pub fn choose_cases(cases: Vec<CaseEvidence>, max: usize) -> (r: Vec<CaseEvidence>)
    ensures
        r@ == chosen_cases(cases@, max as nat),
{
    let mut flags: Vec<bool> = Vec::new();
    let mut i: usize = 0;
    while i < cases.len()
        invariant
            i <= cases@.len(),
            flags@.len() == i,
            forall|j: int| 0 <= j < i ==> #[trigger] flags@[j] == is_complete(cases@[j]),
        decreases cases.len() - i,
    {
        flags.push(
            !text::is_empty(&text::trim(&cases[i].company)) && !text::is_empty(
                &text::trim(&cases[i].url),
            ),
        );
        i += 1;
    }
    proof {
        order::kept_is_filter(cases@, flags@, |c: CaseEvidence| is_complete(c));
    }
    let distinct = order::distinct_entries(order::keep(cases, &flags));
    let mut keyed: Vec<bool> = Vec::new();
    let mut i: usize = 0;
    while i < distinct.len()
        invariant
            i <= distinct@.len(),
            keyed@.len() == i,
            forall|j: int| 0 <= j < i ==> #[trigger] keyed@[j] == (distinct@[j].key().len() > 0),
        decreases distinct.len() - i,
    {
        keyed.push(!text::is_empty(&distinct[i].entry_key()));
        i += 1;
    }
    proof {
        order::kept_is_filter(distinct@, keyed@, |c: CaseEvidence| c.key().len() > 0);
    }
    order::truncated(order::keep(distinct, &keyed), max)
}

/// Among the cases that are kept no company stands twice, each names a company and an address,
/// and there are at most as many as were asked for.
pub proof fn chosen_companies_differ(cases: Seq<CaseEvidence>, max: nat)
    ensures
        order::keys(chosen_cases(cases, max)).no_duplicates(),
        chosen_cases(cases, max).len() <= max,
        forall|i: int|
            0 <= i < chosen_cases(cases, max).len() ==> is_complete(
                #[trigger] chosen_cases(cases, max)[i],
            ),
{
    let p = |c: CaseEvidence| is_complete(c);
    let q = |c: CaseEvidence| c.key().len() > 0;
    let a = cases.filter(p);
    let d = order::distinct(a);
    let f = d.filter(q);
    let c = chosen_cases(cases, max);
    order::distinct_has_each_key_once(a);
    order::filter_keeps_keys_apart(d, q);
    assert forall|i: int, j: int| 0 <= i < c.len() && 0 <= j < c.len() && i != j implies order::keys(
        c,
    )[i] != order::keys(c)[j] by {
        assert(order::keys(f)[i] == order::keys(c)[i]);
        assert(order::keys(f)[j] == order::keys(c)[j]);
    }
    cases.filter_lemma(p);
    d.filter_lemma(q);
    order::kept_are_items(a, order::firsts(order::keys(a)));
    assert forall|i: int| 0 <= i < c.len() implies is_complete(#[trigger] c[i]) by {
        assert(c[i] == f[i]);
        assert(f.contains(f[i]));
        d.lemma_filter_contains_rev(q, f[i]);
        let k = choose|k: int| 0 <= k < d.len() && d[k] == f[i];
        assert(a.contains(d[k]));
        let m = choose|m: int| 0 <= m < a.len() && a[m] == d[k];
        assert(p(a[m]));
    }
}

/// The cases of a product; `today` is the day on which they were fetched.
pub fn case_bundle(name: &str, cases: Vec<CaseEvidence>, today: &str, policy: SourcePolicy) -> (r:
    BlipCaseBundle)
    ensures
        r.product_name@ == name@,
        r.cases == cases,
        r.fetched_at@ == today@,
        r.source_policy@ == "official_only"@,
{
    BlipCaseBundle {
        product_name: name.to_owned(),
        cases,
        fetched_at: today.to_owned(),
        source_policy: policy.as_str().to_owned(),
    }
}

/// No cases of a product.
pub fn empty_bundle(name: &str, today: &str, policy: SourcePolicy) -> (r: BlipCaseBundle)
    ensures
        r.product_name@ == name@,
        r.cases@.len() == 0,
        r.fetched_at@ == today@,
        r.source_policy@ == "official_only"@,
{
    case_bundle(name, Vec::new(), today, policy)
}

/// Whether an empty bundle is cached: there was no site to search, or pages could be fetched.
pub fn caches_empty(hosts: usize, fetched_pages: usize) -> (r: bool)
    ensures
        r == (hosts == 0 || fetched_pages > 0),
{
    hosts == 0 || fetched_pages > 0
}

// ── Hosts ──────────────────────────────────────────────────────────────────────

/// The characters that end a host in an address.
pub const HOST_ENDS: [char; 3] = ['/', '?', '#'];

/// The host of an address of the web, in lowercase.
pub open spec fn host_of(url: Seq<char>) -> Option<Seq<char>> {
    let rest = match text::after_prefix(url, "https://"@) {
        Some(x) => Some(x),
        None => text::after_prefix(url, "http://"@),
    };
    match rest {
        Some(x) => {
            let host = unicode::lowercase(text::trimmed(text::first_piece(x, HOST_ENDS@)));
            if host.len() == 0 {
                None
            } else {
                Some(host)
            }
        },
        None => None,
    }
}

/// The host of an address of the web.
pub fn url_host(url: &str) -> (r: Option<String>)
    ensures
        text::opt(r) == host_of(url@),
{
    let rest = match text::strip_prefix(url, "https://") {
        Some(x) => x,
        None => match text::strip_prefix(url, "http://") {
            Some(x) => x,
            None => return None,
        },
    };
    let host = text::trim(&text::split_first(&rest, &HOST_ENDS)).to_lowercase();
    if text::is_empty(&host) {
        None
    } else {
        Some(host)
    }
}

/// Whether a host is a domain or lies under it.
pub open spec fn within(host: Seq<char>, domain: Seq<char>) -> bool {
    host == domain || text::ends(host, "."@ + domain)
}

/// Whether a host is a domain or lies under it.
fn is_within(host: &str, domain: &str) -> (r: bool)
    ensures
        r == within(host@, domain@),
{
    same(host, domain) || text::ends_with(host, &text::concat2(".", domain))
}

/// Whether an address is on a host or under it.
pub open spec fn on_host(url: Seq<char>, host: Seq<char>) -> bool {
    host_of(url) matches Some(u) && within(u, host)
}

/// Whether an address is on a host or under it.
pub fn host_matches(url: &str, host: &str) -> (r: bool)
    ensures
        r == on_host(url@, host@),
{
    match url_host(url) {
        Some(u) => is_within(&u, host),
        None => false,
    }
}

/// Hosts that are never the official site of a product.
pub const EXCLUDED_HOSTS: [&'static str; 9] = [
    "duckduckgo.com",
    "google.com",
    "bing.com",
    "github.com",
    "news.ycombinator.com",
    "reddit.com",
    "medium.com",
    "linkedin.com",
    "wikipedia.org",
];

/// Whether a host is never the official site of a product.
pub open spec fn excluded(host: Seq<char>) -> bool {
    exists|i: int|
        0 <= i < EXCLUDED_HOSTS@.len() && within(
            unicode::lowercase(host),
            (#[trigger] EXCLUDED_HOSTS@[i])@,
        )
}

/// Whether a host is never the official site of a product.
pub fn is_excluded_host(host: &str) -> (r: bool)
    ensures
        r == excluded(host@),
{
    let h = host.to_lowercase();
    let mut i: usize = 0;
    while i < EXCLUDED_HOSTS.len()
        invariant
            i <= EXCLUDED_HOSTS@.len(),
            h@ == unicode::lowercase(host@),
            forall|j: int| 0 <= j < i ==> !within(h@, (#[trigger] EXCLUDED_HOSTS@[j])@),
        decreases EXCLUDED_HOSTS.len() - i,
    {
        if is_within(&h, EXCLUDED_HOSTS[i]) {
            assert(within(h@, EXCLUDED_HOSTS@[i as int]@));
            return true;
        }
        i += 1;
    }
    false
}

/// Second labels that belong to the public suffix below a country.
pub const SECOND_LEVELS: [&'static str; 8] = [
    "ac",
    "co",
    "com",
    "edu",
    "gov",
    "mil",
    "net",
    "org",
];

/// How many labels of a host make its public suffix: two below a country with a second level
/// that belongs to the suffix, or else one.
pub open spec fn suffix_labels(labels: Seq<Seq<char>>) -> nat {
    if labels.len() >= 3 && text::byte_count(labels.last()) == 2 && text::str_views(
        SECOND_LEVELS@,
    ).contains(labels[labels.len() - 2]) {
        2
    } else {
        1
    }
}

/// How many labels of a host make its public suffix.
pub fn public_suffix_len(labels: &Vec<String>) -> (r: usize)
    ensures
        r == suffix_labels(text::views(labels@)),
{
    let n = labels.len();
    assert(text::views(labels@).len() == n);
    if n >= 3 && text::byte_len(&labels[n - 1]) == 2 && text::is_one_of(
        &labels[n - 2],
        &SECOND_LEVELS,
    ) {
        2
    } else {
        1
    }
}

/// Labels that say nothing of whose host it is.
pub const GENERIC_LABELS: [&'static str; 7] = [
    "www",
    "docs",
    "doc",
    "blog",
    "help",
    "support",
    "home",
];

/// Whether a label says nothing of whose host it is.
pub fn is_generic_host_label(label: &str) -> (r: bool)
    ensures
        r == text::str_views(GENERIC_LABELS@).contains(label@),
{
    text::is_one_of(label, &GENERIC_LABELS)
}

/// The labels of a host, without a port and a leading "www.".
pub open spec fn host_labels(host: Seq<char>) -> Seq<Seq<char>> {
    text::split(text::without_prefixes(text::first_piece(host, seq![':']), "www."@), seq!['.'])
}

/// The label before the public suffix, in letters and digits; empty where there is none.
pub open spec fn registered_label(labels: Seq<Seq<char>>) -> Seq<char> {
    let k = suffix_labels(labels);
    if labels.len() >= 2 && labels.len() > k {
        unicode::lowered_alphanumerics(labels[labels.len() - k - 1])
    } else {
        Seq::empty()
    }
}

/// The label that names whose host it is: the one before the public suffix, or else the first
/// that is not generic.
pub open spec fn brand_label(host: Seq<char>) -> Seq<char> {
    let labels = host_labels(host);
    if registered_label(labels).len() > 0 {
        registered_label(labels)
    } else {
        match text::first_such(
            labels,
            |l: Seq<char>| !text::str_views(GENERIC_LABELS@).contains(l),
        ) {
            Some(l) => unicode::lowered_alphanumerics(l),
            None => Seq::empty(),
        }
    }
}

/// The label that names whose host it is.
pub fn host_brand_label(host: &str) -> (r: String)
    ensures
        r@ == brand_label(host@),
{
    proof {
        reveal_strlit("www.");
    }
    let colon = [':'];
    let dot = ['.'];
    assert(colon@ =~= seq![':']);
    assert(dot@ =~= seq!['.']);
    let bare = text::trim_start_matches(&text::split_first(host, &colon), "www.");
    let labels = text::split_chars(&bare, &dot);
    let ghost all = text::views(labels@);
    assert(all.len() == labels@.len());
    if labels.len() >= 2 {
        let k = public_suffix_len(&labels);
        if labels.len() > k {
            let label = unicode::normalize_text(&labels[labels.len() - k - 1]);
            if !text::is_empty(&label) {
                return label;
            }
        }
    }
    let ghost p = |l: Seq<char>| !text::str_views(GENERIC_LABELS@).contains(l);
    let mut i: usize = 0;
    while i < labels.len()
        invariant
            i <= labels@.len(),
            all == text::views(labels@),
            all == host_labels(host@),
            registered_label(all).len() == 0,
            p == (|l: Seq<char>| !text::str_views(GENERIC_LABELS@).contains(l)),
            forall|j: int| 0 <= j < i ==> !p(#[trigger] all[j]),
        decreases labels.len() - i,
    {
        if !is_generic_host_label(&labels[i]) {
            proof {
                text::first_such_skips(all, p, i as int);
                assert(all.skip(i as int)[0] == all[i as int]);
            }
            return unicode::normalize_text(&labels[i]);
        }
        i += 1;
    }
    proof {
        text::first_such_skips(all, p, i as int);
    }
    String::new()
}

/// Whether a title names a product, in letters and digits alone.
pub open spec fn names_product(title: Seq<char>, name: Seq<char>) -> bool {
    unicode::lowered_alphanumerics(name).len() > 0 && text::holds(
        unicode::lowered_alphanumerics(title),
        unicode::lowered_alphanumerics(name),
    )
}

/// Whether a title names a product.
pub fn title_mentions_product(title: &str, name: &str) -> (r: bool)
    ensures
        r == names_product(title@, name@),
{
    let t = unicode::normalize_text(title);
    let n = unicode::normalize_text(name);
    !text::is_empty(&n) && text::contains(&t, &n)
}

/// Whether a title is that of the product's site: it names the product or the host's owner.
pub open spec fn is_official(title: Seq<char>, name: Seq<char>, host: Seq<char>) -> bool {
    ||| names_product(title, name)
    ||| brand_label(host).len() > 0 && unicode::lowered_alphanumerics(title).len() > 0
        && text::holds(unicode::lowered_alphanumerics(title), brand_label(host))
}

/// Whether a title is that of the product's site.
pub fn title_matches_official_host(title: &str, product_name: &str, host: &str) -> (r: bool)
    ensures
        r == is_official(title@, product_name@, host@),
{
    if title_mentions_product(title, product_name) {
        return true;
    }
    let label = host_brand_label(host);
    if text::is_empty(&label) {
        return false;
    }
    let t = unicode::normalize_text(title);
    !text::is_empty(&t) && text::contains(&t, &label)
}

/// The query for the official site of a product.
pub fn official_query(name: &str) -> (r: String)
    ensures
        r@ == name@ + " official website"@,
{
    text::concat2(name, " official website")
}

/// The hosts of search results that are official, added behind those that are known, each once.
pub open spec fn hosts_with(known: Seq<Seq<char>>, results: Seq<Hit>, name: Seq<char>) -> Seq<
    Seq<char>,
>
    decreases results.len(),
{
    if results.len() == 0 {
        known
    } else {
        let r = hosts_with(known, results.drop_last(), name);
        match host_of(results.last().url) {
            Some(h) if !excluded(h) && is_official(results.last().title, name, h) && !r.contains(
                h,
            ) => r.push(h),
            _ => r,
        }
    }
}

/// The hosts that are known before a search.
pub open spec fn known_hosts(homepage_host: Option<Seq<char>>) -> Seq<Seq<char>> {
    match homepage_host {
        Some(h) => seq![h],
        None => Seq::empty(),
    }
}

/// The official hosts of a product: that of its repository's home page, and those among the
/// first six results of a search. Where the search failed, the home page's host alone counts,
/// and without one there is no answer.
pub fn official_hosts(
    name: &str,
    homepage_host: Option<String>,
    results: Option<&Vec<SearchResult>>,
) -> (r: Option<Vec<String>>)
    ensures
        ({
            let known = known_hosts(text::opt(homepage_host));
            match results {
                Some(v) => r matches Some(hosts) && text::views(hosts@) == hosts_with(
                    known,
                    order::cut(lists::views(v@), 6),
                    name@,
                ),
                None => if known.len() > 0 {
                    r matches Some(hosts) && text::views(hosts@) == known
                } else {
                    r is None
                },
            }
        }),
        r matches Some(hosts) ==> text::views(hosts@).no_duplicates() && (homepage_host matches Some(h)
            ==> hosts@.len() > 0 && hosts@[0]@ == h@),
{
    proof {
        let known = known_hosts(text::opt(homepage_host));
        if let Some(v) = results {
            let hits = order::cut(lists::views(v@), 6);
            official_hosts_are_found(known, hits, name@);
            let found = hosts_with(known, hits, name@);
            assert(known.len() > 0 ==> found.take(known.len() as int)[0] == found[0]);
        }
    }
    let ghost known = known_hosts(text::opt(homepage_host));
    let mut hosts: Vec<String> = Vec::new();
    if let Some(h) = homepage_host {
        hosts.push(h);
    }
    assert(text::views(hosts@) =~= known);
    match results {
        None => {
            if hosts.len() > 0 {
                Some(hosts)
            } else {
                None
            }
        },
        Some(v) => {
            let n: usize = if v.len() <= 6 {
                v.len()
            } else {
                6
            };
            let ghost all = order::cut(lists::views(v@), 6);
            let mut i: usize = 0;
            assert(all.take(0) =~= Seq::empty());
            while i < n
                invariant
                    i <= n <= v@.len(),
                    all == order::cut(lists::views(v@), 6),
                    all.len() == n,
                    text::views(hosts@) == hosts_with(known, all.take(i as int), name@),
                decreases n - i,
            {
                broadcast use text::views_push;

                proof {
                    assert(all.take(i + 1).drop_last() =~= all.take(i as int));
                    assert(all.take(i + 1).last() == v@[i as int]@);
                }
                if let Some(h) = url_host(&v[i].url) {
                    if !is_excluded_host(&h) && title_matches_official_host(&v[i].title, name, &h)
                        && !text::has_string(&hosts, &h) {
                        hosts.push(h);
                    }
                }
                i += 1;
            }
            proof {
                lists::take_all(all);
            }
            Some(hosts)
        },
    }
}

// ── Searching ──────────────────────────────────────────────────────────────────

/// The address of a search.
pub fn search_url(query: &str) -> (r: String)
    ensures
        r@ == SEARCH_ENDPOINT@ + percent::query_text(query@),
{
    text::concat2(SEARCH_ENDPOINT, &percent::urlencoding(query))
}

/// The message of a search that failed.
pub fn search_error(query: &str, reason: &str) -> (r: String)
    ensures
        r@ == "DuckDuckGo 搜尋失敗（"@ + query@ + "）: "@ + reason@,
{
    text::concat4("DuckDuckGo 搜尋失敗（", query, "）: ", reason)
}

/// The queries for the cases of a product on a host.
pub fn case_search_queries(host: &str, product_name: &str) -> (r: Vec<String>)
    ensures
        text::views(r@) == seq![
            "site:"@ + host@ + " \""@ + text::trimmed(product_name@)
                + "\" (customer story OR customer stories OR case study OR case studies)"@,
            "site:"@ + host@ + " \""@ + text::trimmed(product_name@)
                + "\" (customers OR success story OR success stories)"@,
            "site:"@ + host@ + " \""@ + text::trimmed(product_name@)
                + "\" (users OR use case OR use cases OR testimonial)"@,
        ],
{
    let name = text::trim(product_name);
    let r = vec![
        text::concat5(
            "site:",
            host,
            " \"",
            &name,
            "\" (customer story OR customer stories OR case study OR case studies)",
        ),
        text::concat5(
            "site:",
            host,
            " \"",
            &name,
            "\" (customers OR success story OR success stories)",
        ),
        text::concat5(
            "site:",
            host,
            " \"",
            &name,
            "\" (users OR use case OR use cases OR testimonial)",
        ),
    ];
    assert(text::views(r@) =~= seq![r@[0]@, r@[1]@, r@[2]@]);
    r
}

/// A text with the entities that a search page uses resolved, one kind after another.
pub open spec fn entities_resolved(s: Seq<char>) -> Seq<char> {
    let a = text::replaced(s, "&amp;"@, "&"@);
    let b = text::replaced(a, "&lt;"@, "<"@);
    let c = text::replaced(b, "&gt;"@, ">"@);
    let d = text::replaced(c, "&quot;"@, "\""@);
    text::replaced(d, "&#39;"@, "'"@)
}

/// Resolves the entities that a search page uses.
pub fn decode_html_entities(s: &str) -> (r: String)
    ensures
        r@ == entities_resolved(s@),
{
    proof {
        reveal_strlit("&amp;");
        reveal_strlit("&lt;");
        reveal_strlit("&gt;");
        reveal_strlit("&quot;");
        reveal_strlit("&#39;");
    }
    let a = text::replace(s, "&amp;", "&");
    let b = text::replace(&a, "&lt;", "<");
    let c = text::replace(&b, "&gt;", ">");
    let d = text::replace(&c, "&quot;", "\"");
    text::replace(&d, "&#39;", "'")
}

/// A text without white space around it, with a space for each tag.
pub open spec fn without_tags(s: Seq<char>) -> Seq<char> {
    text::trimmed(pattern::all_replaced(pattern::TAG@, s, " "@))
}

/// Removes the tags of a text.
pub fn strip_tags(s: &str) -> (r: String)
    ensures
        r@ == without_tags(s@),
{
    text::trim(&pattern::replace_all(pattern::TAG, s, " "))
}

/// What a redirect leads to, as it is written; `None` where the link is no redirect.
pub open spec fn redirect_tail(href: Seq<char>) -> Option<Seq<char>> {
    match text::find(href, "uddg="@) {
        Some(i) => Some(href.skip(i + 5)),
        None => None,
    }
}

/// Whether a link can be followed: what a redirect leads to can be decoded.
pub open spec fn followable(href: Seq<char>) -> bool {
    redirect_tail(href) matches Some(t) ==> percent::decodable(utf8::encode_utf8(t))
}

/// Where a link leads.
pub open spec fn link_target(href: Seq<char>) -> Seq<char> {
    match redirect_tail(href) {
        Some(t) => percent::lossy_text(percent::percent_decoded(utf8::encode_utf8(t))),
        None => href,
    }
}

/// What a redirect leads to, as it is written.
fn find_redirect(href: &str) -> (r: Option<String>)
    ensures
        text::opt(r) == redirect_tail(href@),
{
    let v = text::chars_of(href);
    let needle = text::chars_of("uddg=");
    proof {
        reveal_strlit("uddg=");
        assert(needle@.len() == 5);
    }
    match text::find_chars(&v, &needle, 0) {
        Some(i) => {
            let n = v.len();
            let r = text::string_of(&v, i + 5, n);
            assert(r@ =~= href@.skip(i + 5));
            Some(r)
        },
        None => None,
    }
}

/// Whether a link can be followed.
pub fn can_follow(href: &str) -> (r: bool)
    ensures
        r == followable(href@),
{
    match find_redirect(href) {
        Some(t) => percent::is_decodable(&t),
        None => true,
    }
}

/// Where a link leads; a redirect that names well-formed UTF-8 leads to the text it names.
pub fn decode_ddg_redirect(href: &str) -> (r: String)
    requires
        followable(href@),
    ensures
        r@ == link_target(href@),
        redirect_tail(href@) matches Some(t) ==> (utf8::valid_utf8(
            percent::percent_decoded(utf8::encode_utf8(t)),
        ) ==> r@ == utf8::decode_utf8(percent::percent_decoded(utf8::encode_utf8(t)))),
{
    match find_redirect(href) {
        Some(t) => percent::percent_decode(&t),
        None => href.to_owned(),
    }
}

/// Whether an address is one of the web.
pub open spec fn is_web(url: Seq<char>) -> bool {
    text::begins(url, "http://"@) || text::begins(url, "https://"@)
}

/// The results of a search page, by the groups of its links, in order: those that lead to the
/// web, at most ten. Once there are ten no further link is read; a link that cannot be followed
/// leaves no answer.
pub open spec fn results_of(links: Seq<Seq<Seq<char>>>) -> Option<Seq<Hit>>
    decreases links.len(),
{
    if links.len() == 0 {
        Some(Seq::empty())
    } else {
        match results_of(links.drop_last()) {
            None => None,
            Some(r) => {
                let href = entities_resolved(pattern::group(links.last(), 0));
                let title = without_tags(entities_resolved(pattern::group(links.last(), 1)));
                if r.len() >= 10 {
                    Some(r)
                } else if !followable(href) {
                    None
                } else if is_web(link_target(href)) {
                    Some(r.push(Hit { title, url: link_target(href) }))
                } else {
                    Some(r)
                }
            },
        }
    }
}

/// The views of results.
pub open spec fn opt_hits(r: Option<Vec<SearchResult>>) -> Option<Seq<Hit>> {
    match r {
        Some(v) => Some(lists::views(v@)),
        None => None,
    }
}

/// The results of a search page, by the groups of its links.
pub fn results_from_links(links: &Vec<Vec<String>>) -> (r: Option<Vec<SearchResult>>)
    ensures
        opt_hits(r) == results_of(pattern::list_views(links@)),
{
    let ghost all = pattern::list_views(links@);
    let mut r: Vec<SearchResult> = Vec::new();
    let mut i: usize = 0;
    assert(lists::views(r@) =~= Seq::empty());
    while i < links.len()
        invariant
            i <= links@.len(),
            all == pattern::list_views(links@),
            results_of(all.take(i as int)) == Some(lists::views(r@)),
        decreases links.len() - i,
    {
        broadcast use lists::views_push;

        proof {
            assert(all.take(i + 1).drop_last() =~= all.take(i as int));
            assert(all.take(i + 1).last() == text::views(links@[i as int]@));
            assert(lists::views(r@).len() == r@.len());
        }
        if r.len() < 10 {
            let href = decode_html_entities(&pattern::group_at(&links[i], 0));
            if !can_follow(&href) {
                proof {
                    lemma_no_answer_stays(all, i + 1);
                }
                return None;
            }
            let url = decode_ddg_redirect(&href);
            let title = strip_tags(&decode_html_entities(&pattern::group_at(&links[i], 1)));
            if text::starts_with(&url, "http://") || text::starts_with(&url, "https://") {
                r.push(SearchResult { title, url });
            }
        }
        i += 1;
    }
    proof {
        lists::take_all(all);
    }
    Some(r)
}

/// Where a part of the links leaves no answer, all of them leave none.
proof fn lemma_no_answer_stays(links: Seq<Seq<Seq<char>>>, i: int)
    requires
        0 <= i <= links.len(),
        results_of(links.take(i)) is None,
    ensures
        results_of(links) is None,
    decreases links.len() - i,
{
    if i < links.len() {
        assert(links.take(i + 1).drop_last() =~= links.take(i));
        lemma_no_answer_stays(links, i + 1);
    } else {
        lists::take_all(links);
    }
}

/// The results of a search page; `None` where a link on it cannot be followed.
pub fn parse_duckduckgo_results(html: &str) -> (r: Option<Vec<SearchResult>>)
    ensures
        opt_hits(r) == results_of(pattern::all_groups(pattern::RESULT_LINK@, html@)),
{
    let links = pattern::captures_all(pattern::RESULT_LINK, html);
    results_from_links(&links)
}

/// A search page gives at most ten results, each on the web.
pub proof fn results_are_on_the_web(links: Seq<Seq<Seq<char>>>)
    ensures
        results_of(links) matches Some(r) ==> r.len() <= 10 && forall|i: int|
            0 <= i < r.len() ==> is_web((#[trigger] r[i]).url),
    decreases links.len(),
{
    if links.len() > 0 {
        results_are_on_the_web(links.drop_last());
    }
}

// ── Pages ──────────────────────────────────────────────────────────────────────

/// Words in a link that tell of cases.
pub const CASE_LINK_WORDS: [&'static str; 14] = [
    "customer",
    "customers",
    "case-study",
    "case-studies",
    "case_study",
    "case_studies",
    "success-story",
    "success-stories",
    "stories",
    "story",
    "use-case",
    "use-cases",
    "users",
    "testimonials",
];

/// Words on a page that tell of cases.
pub const CASE_PAGE_WORDS: [&'static str; 13] = [
    "customer",
    "customers",
    "customer story",
    "customer stories",
    "case study",
    "case studies",
    "success story",
    "success stories",
    "testimonial",
    "use case",
    "use cases",
    "uses ",
    "used by",
];

/// Whether a link tells of cases.
pub open spec fn tells_of_cases(href: Seq<char>) -> bool {
    text::holds_any(unicode::lowercase(href), text::str_views(CASE_LINK_WORDS@))
}

/// Whether a link tells of cases.
pub fn looks_like_case_link(href: &str) -> (r: bool)
    ensures
        r == tells_of_cases(href@),
{
    text::contains_any(&href.to_lowercase(), &CASE_LINK_WORDS)
}

/// Whether a page tells of cases of a product.
pub open spec fn is_case_page(
    url: Seq<char>,
    title: Seq<char>,
    body: Seq<char>,
    product: Seq<char>,
) -> bool {
    let all = unicode::lowercase(url) + " "@ + unicode::lowercase(title) + " "@
        + unicode::lowercase(body);
    text::holds(all, unicode::lowercase(product)) && text::holds_any(
        all,
        text::str_views(CASE_PAGE_WORDS@),
    )
}

/// Whether a page tells of cases of a product.
pub fn looks_like_case_page(url: &str, title: &str, body: &str, product_name: &str) -> (r: bool)
    ensures
        r == is_case_page(url@, title@, body@, product_name@),
        r ==> text::holds(page_words(url@, title@, body@), unicode::lowercase(product_name@)),
{
    let all = text::concat5(
        &url.to_lowercase(),
        " ",
        &title.to_lowercase(),
        " ",
        &body.to_lowercase(),
    );
    text::contains(&all, &product_name.to_lowercase()) && text::contains_any(
        &all,
        &CASE_PAGE_WORDS,
    )
}

/// The address of a link on a page; an anchor has none.
pub open spec fn resolved(base: Seq<char>, href: Seq<char>) -> Option<Seq<char>> {
    if is_web(href) {
        Some(href)
    } else if text::begins(href, "//"@) {
        Some("https:"@ + href)
    } else if text::begins(href, "/"@) {
        Some(text::without_suffixes(base, "/"@) + href)
    } else if text::begins(href, "#"@) || href.len() == 0 {
        None
    } else {
        Some(text::without_suffixes(base, "/"@) + "/"@ + href)
    }
}

/// The address of a link on a page.
pub fn resolve_internal_url(base_url: &str, href: &str) -> (r: Option<String>)
    ensures
        text::opt(r) == resolved(base_url@, href@),
{
    proof {
        reveal_strlit("/");
    }
    if text::starts_with(href, "https://") || text::starts_with(href, "http://") {
        return Some(href.to_owned());
    }
    if text::starts_with(href, "//") {
        return Some(text::concat2("https:", href));
    }
    let base = text::trim_end_matches(base_url, "/");
    if text::starts_with(href, "/") {
        return Some(text::concat2(&base, href));
    }
    if text::starts_with(href, "#") || text::is_empty(href) {
        return None;
    }
    Some(text::concat3(&base, "/", href))
}

/// The addresses of the links on a page that tell of cases and stay on the host, each once.
pub open spec fn case_urls(base: Seq<char>, host: Seq<char>, links: Seq<Seq<char>>) -> Seq<
    Seq<char>,
>
    decreases links.len(),
{
    if links.len() == 0 {
        Seq::empty()
    } else {
        let r = case_urls(base, host, links.drop_last());
        match resolved(base, links.last()) {
            Some(u) if tells_of_cases(links.last()) && on_host(u, host) && !r.contains(u) => r.push(
                u,
            ),
            _ => r,
        }
    }
}

/// The addresses of the links on a page that tell of cases and stay on the host.
pub fn candidate_case_urls_from_nav_links(base_url: &str, host: &str, nav_links: &[String]) -> (r:
    Vec<String>)
    ensures
        text::views(r@) == case_urls(base_url@, host@, text::views(nav_links@)),
{
    let ghost all = text::views(nav_links@);
    let mut r: Vec<String> = Vec::new();
    let mut i: usize = 0;
    assert(text::views(r@) =~= Seq::empty());
    while i < nav_links.len()
        invariant
            i <= nav_links@.len(),
            all == text::views(nav_links@),
            text::views(r@) == case_urls(base_url@, host@, all.take(i as int)),
        decreases nav_links.len() - i,
    {
        broadcast use text::views_push;

        proof {
            assert(all.take(i + 1).drop_last() =~= all.take(i as int));
            assert(all.take(i + 1).last() == nav_links@[i as int]@);
        }
        if looks_like_case_link(&nav_links[i]) {
            if let Some(u) = resolve_internal_url(base_url, &nav_links[i]) {
                if host_matches(&u, host) && !text::has_string(&r, &u) {
                    r.push(u);
                }
            }
        }
        i += 1;
    }
    proof {
        lists::take_all(all);
    }
    r
}

/// The day that a page names, given the groups of its first date with hyphens and of its first
/// date with slashes: the one with hyphens as it stands, or else the one with slashes where it
/// is a day of the calendar.
pub open spec fn page_day(
    hyphens: Option<Seq<Seq<char>>>,
    slashes: Option<Seq<Seq<char>>>,
) -> Option<Seq<char>> {
    match hyphens {
        Some(g) => Some(pattern::group(g, 0)),
        None => match slashes {
            Some(g) => match time::day_start(pattern::group(g, 0), "%Y/%m/%d"@) {
                Some(secs) => time::date_text(Timestamp { secs, nanos: 0 }, time::DAY_FORM@),
                None => None,
            },
            None => None,
        },
    }
}

/// The day that a page names, given the groups of its dates.
pub fn day_from_groups(hyphens: Option<Vec<String>>, slashes: Option<Vec<String>>) -> (r: Option<
    String,
>)
    ensures
        text::opt(r) == page_day(pattern::opt_views(hyphens), pattern::opt_views(slashes)),
{
    match hyphens {
        Some(g) => Some(pattern::group_at(&g, 0)),
        None => match slashes {
            Some(g) => match time::parse_day(&pattern::group_at(&g, 0), "%Y/%m/%d") {
                Some(secs) => time::format_date(Timestamp { secs, nanos: 0 }, time::DAY_FORM),
                None => None,
            },
            None => None,
        },
    }
}

/// The day that a text names.
pub open spec fn day_in(s: Seq<char>) -> Option<Seq<char>> {
    page_day(
        pattern::first_groups(pattern::HYPHEN_DATE@, s),
        pattern::first_groups(pattern::SLASH_DATE@, s),
    )
}

/// The day that a text names.
pub fn extract_date(s: &str) -> (r: Option<String>)
    ensures
        text::opt(r) == day_in(s@),
{
    let hyphens = pattern::captures(pattern::HYPHEN_DATE, s);
    let slashes = pattern::captures(pattern::SLASH_DATE, s);
    day_from_groups(hyphens, slashes)
}

/// What the language model is shown of a page.
pub open spec fn section_of(page: DocPage, publisher: Seq<char>) -> Seq<char> {
    let day = match day_in(page.text@) {
        Some(d) => d,
        None => Seq::empty(),
    };
    "URL: "@ + page.url@ + "\nTITLE: "@ + page.title@ + "\nPUBLISHER: "@ + publisher
        + "\nPUBLISHED_AT: "@ + day + "\nTEXT:\n"@ + text::shortened(page.text@, 1500)
}

/// What the language model is shown of a page.
pub fn format_case_section(page: &DocPage, publisher: &str) -> (r: String)
    ensures
        r@ == section_of(*page, publisher@),
{
    let day = match extract_date(&page.text) {
        Some(d) => d,
        None => String::new(),
    };
    let mut r = text::concat6(
        "URL: ",
        &page.url,
        "\nTITLE: ",
        &page.title,
        "\nPUBLISHER: ",
        publisher,
    );
    r.append("\nPUBLISHED_AT: ");
    r.append(&day);
    r.append("\nTEXT:\n");
    r.append(&text::take_chars(&page.text, 1500));
    r
}

// ── Collecting pages ───────────────────────────────────────────────────────────

/// How far the collection of pages has come.
#[verifier::ext_equal]
pub struct Collection {
    /// What the language model will be shown.
    pub sections: Seq<Seq<char>>,
    /// The addresses that are known, each once.
    pub seen: Seq<Seq<char>>,
    /// How many addresses were known when the current host began.
    pub before_host: nat,
    /// How many pages were fetched.
    pub fetched: nat,
}

/// How many hosts are searched at most.
pub const MAX_HOSTS: usize = 3;

/// How many sections are enough.
pub const MAX_SECTIONS: usize = 6;

/// How many addresses of a host are enough.
pub const MAX_HOST_URLS: usize = 12;

/// How many results of a search are looked at.
pub const RESULTS_PER_QUERY: usize = 4;

/// Addresses with one more, where it is not known yet.
pub open spec fn with_url(seen: Seq<Seq<char>>, url: Seq<char>) -> Seq<Seq<char>> {
    if seen.contains(url) {
        seen
    } else {
        seen.push(url)
    }
}

/// Addresses with more, each where it is not known yet.
pub open spec fn with_urls(seen: Seq<Seq<char>>, urls: Seq<Seq<char>>) -> Seq<Seq<char>>
    decreases urls.len(),
{
    if urls.len() == 0 {
        seen
    } else {
        with_url(with_urls(seen, urls.drop_last()), urls.last())
    }
}

/// A collection after a page was fetched: it is shown where it tells of cases.
pub open spec fn with_page(c: Collection, page: DocPage, host: Seq<char>, product: Seq<char>) -> Collection {
    Collection {
        sections: if is_case_page(page.url@, page.title@, page.text@, product) {
            c.sections.push(section_of(page, host))
        } else {
            c.sections
        },
        fetched: c.fetched + 1,
        ..c
    }
}

/// A collection after the home page of a host was fetched: its links to cases are known too.
pub open spec fn with_homepage(
    c: Collection,
    page: DocPage,
    home: Seq<char>,
    host: Seq<char>,
    product: Seq<char>,
) -> Collection {
    Collection {
        seen: with_urls(c.seen, case_urls(home, host, text::views(page.nav_links@))),
        ..with_page(c, page, host, product)
    }
}

/// The addresses of the first results of a search that are on a host.
pub open spec fn result_urls(results: Seq<Hit>, host: Seq<char>) -> Seq<Seq<char>> {
    order::cut(results, RESULTS_PER_QUERY as nat).map_values(|h: Hit| h.url).filter(
        |u: Seq<char>| on_host(u, host),
    )
}

/// The addresses of a host that are fetched: those on the host but its home page.
pub open spec fn host_urls(seen: Seq<Seq<char>>, host: Seq<char>) -> Seq<Seq<char>> {
    seen.filter(|u: Seq<char>| on_host(u, host) && u != "https://"@ + host)
}

/// A collector of pages.
pub struct CaseCollector {
    pub sections: Vec<String>,
    pub seen: Vec<String>,
    pub before_host: usize,
    pub fetched: usize,
}

impl View for CaseCollector {
    type V = Collection;

    open spec fn view(&self) -> Collection {
        Collection {
            sections: text::views(self.sections@),
            seen: text::views(self.seen@),
            before_host: self.before_host as nat,
            fetched: self.fetched as nat,
        }
    }
}

/// The pages that were collected.
pub struct PageCollection {
    pub pages: String,
    pub fetched_pages: usize,
}

/// The message where no page could be fetched.
pub const NO_PAGES: &'static str = "無法抓取企業案例候選頁面";

impl CaseCollector {
    /// Nothing has been collected yet.
    pub fn new() -> (r: CaseCollector)
        ensures
            r@ == (Collection {
                sections: Seq::empty(),
                seen: Seq::empty(),
                before_host: 0,
                fetched: 0,
            }),
    {
        CaseCollector { sections: Vec::new(), seen: Vec::new(), before_host: 0, fetched: 0 }
    }

    /// Begins with a host.
    pub fn start_host(&mut self)
        ensures
            final(self)@ == (Collection { before_host: old(self)@.seen.len(), ..old(self)@ }),
    {
        assert(text::views(self.seen@).len() == self.seen@.len());
        self.before_host = self.seen.len();
    }

    /// Learns of addresses.
    fn learn(&mut self, urls: &Vec<String>)
        ensures
            final(self)@ == (Collection {
                seen: with_urls(old(self)@.seen, text::views(urls@)),
                ..old(self)@
            }),
    {
        let ghost all = text::views(urls@);
        let ghost had = self@;
        let mut i: usize = 0;
        while i < urls.len()
            invariant
                i <= urls@.len(),
                all == text::views(urls@),
                self@ == (Collection { seen: with_urls(had.seen, all.take(i as int)), ..had }),
            decreases urls.len() - i,
        {
            broadcast use text::views_push;

            proof {
                assert(all.take(i + 1).drop_last() =~= all.take(i as int));
                assert(all.take(i + 1).last() == urls@[i as int]@);
            }
            if !text::has_string(&self.seen, &urls[i]) {
                self.seen.push(urls[i].clone());
            }
            i += 1;
        }
        proof {
            lists::take_all(all);
        }
    }

    /// Takes a page that was fetched, and says whether there are enough sections now.
    pub fn take_page(&mut self, page: &DocPage, host: &str, product: &str) -> (enough: bool)
        requires
            old(self)@.fetched < usize::MAX,
        ensures
            final(self)@ == with_page(old(self)@, *page, host@, product@),
            enough == (is_case_page(page.url@, page.title@, page.text@, product@)
                && final(self)@.sections.len() >= MAX_SECTIONS),
            !text::holds(
                page_words(page.url@, page.title@, page.text@),
                unicode::lowercase(product@),
            ) ==> final(self)@.sections == old(self)@.sections,
    {
        self.fetched = self.fetched + 1;
        if looks_like_case_page(&page.url, &page.title, &page.text, product) {
            let s = format_case_section(page, host);
            proof {
                text::views_push(self.sections@, s);
            }
            self.sections.push(s);
            assert(text::views(self.sections@).len() == self.sections@.len());
            self.sections.len() >= MAX_SECTIONS
        } else {
            false
        }
    }

    /// Takes the home page of a host.
    pub fn take_homepage(&mut self, page: &DocPage, host: &str, product: &str)
        requires
            old(self)@.fetched < usize::MAX,
        ensures
            final(self)@ == with_homepage(
                old(self)@,
                *page,
                "https://"@ + host@,
                host@,
                product@,
            ),
    {
        let _ = self.take_page(page, host, product);
        let home = text::concat2("https://", host);
        let urls = candidate_case_urls_from_nav_links(&home, host, &page.nav_links);
        self.learn(&urls);
    }

    /// Takes the results of a search, and says whether enough addresses of the host are known.
    pub fn take_results(&mut self, results: &Vec<SearchResult>, host: &str) -> (enough: bool)
        requires
            old(self)@.before_host <= old(self)@.seen.len(),
        ensures
            final(self)@ == (Collection {
                seen: with_urls(old(self)@.seen, result_urls(lists::views(results@), host@)),
                ..old(self)@
            }),
            enough == (final(self)@.seen.len() - final(self)@.before_host >= MAX_HOST_URLS),
            enough == (final(self)@.seen.len() - final(self)@.before_host >= 12),
    {
        let n: usize = if results.len() <= RESULTS_PER_QUERY {
            results.len()
        } else {
            RESULTS_PER_QUERY
        };
        let ghost all = order::cut(lists::views(results@), RESULTS_PER_QUERY as nat).map_values(
            |h: Hit| h.url,
        );
        let ghost p = |u: Seq<char>| on_host(u, host@);
        let mut urls: Vec<String> = Vec::new();
        let mut i: usize = 0;
        while i < n
            invariant
                i <= n <= results@.len(),
                all.len() == n,
                p == (|u: Seq<char>| on_host(u, host@)),
                forall|j: int| 0 <= j < n ==> #[trigger] all[j] == results@[j].url@,
                text::views(urls@) == all.take(i as int).filter(p),
            decreases n - i,
        {
            broadcast use text::views_push;

            proof {
                lists::take_next(all, i as int);
                all.take(i as int).lemma_filter_push(all[i as int], p);
            }
            if host_matches(&results[i].url, host) {
                urls.push(results[i].url.clone());
            }
            i += 1;
        }
        proof {
            lists::take_all(all);
            lemma_with_urls_grows(self@.seen, text::views(urls@));
        }
        self.learn(&urls);
        assert(text::views(self.seen@).len() == self.seen@.len());
        self.seen.len() - self.before_host >= MAX_HOST_URLS
    }

    /// The addresses of a host that are to be fetched.
    pub fn urls_to_fetch(&self, host: &str) -> (r: Vec<String>)
        ensures
            text::views(r@) == host_urls(self@.seen, host@),
    {
        let home = text::concat2("https://", host);
        let ghost all = text::views(self.seen@);
        let ghost p = |u: Seq<char>| on_host(u, host@) && u != "https://"@ + host@;
        let mut r: Vec<String> = Vec::new();
        let mut i: usize = 0;
        while i < self.seen.len()
            invariant
                i <= self.seen@.len(),
                all == text::views(self.seen@),
                home@ == "https://"@ + host@,
                p == (|u: Seq<char>| on_host(u, host@) && u != "https://"@ + host@),
                text::views(r@) == all.take(i as int).filter(p),
            decreases self.seen.len() - i,
        {
            broadcast use text::views_push;

            proof {
                lists::take_next(all, i as int);
                all.take(i as int).lemma_filter_push(all[i as int], p);
            }
            if host_matches(&self.seen[i], host) && !same(&self.seen[i], &home) {
                r.push(self.seen[i].clone());
            }
            i += 1;
        }
        proof {
            lists::take_all(all);
        }
        r
    }

    /// Whether there are enough sections, so that no further host is searched.
    pub fn is_full(&self) -> (r: bool)
        ensures
            r == (self@.sections.len() >= MAX_SECTIONS),
            r == (self@.sections.len() >= 6),
    {
        assert(text::views(self.sections@).len() == self.sections@.len());
        self.sections.len() >= MAX_SECTIONS
    }

    /// The pages that were collected; it is an error where addresses were known and no page
    /// could be fetched.
    pub fn finish(self) -> (r: Result<PageCollection, String>)
        ensures
            r is Err == (self@.seen.len() > 0 && self@.fetched == 0),
            r matches Err(m) ==> m@ == NO_PAGES@,
            r matches Ok(p) ==> p.pages@ == text::joined(self@.sections, "\n\n---\n\n"@)
                && p.fetched_pages == self@.fetched,
    {
        assert(text::views(self.seen@).len() == self.seen@.len());
        if self.seen.len() > 0 && self.fetched == 0 {
            return Err(NO_PAGES.to_owned());
        }
        Ok(
            PageCollection {
                pages: text::join(&self.sections, "\n\n---\n\n"),
                fetched_pages: self.fetched,
            },
        )
    }
}

/// Learning of addresses forgets none.
proof fn lemma_with_urls_grows(seen: Seq<Seq<char>>, urls: Seq<Seq<char>>)
    ensures
        with_urls(seen, urls).len() >= seen.len(),
    decreases urls.len(),
{
    if urls.len() > 0 {
        lemma_with_urls_grows(seen, urls.drop_last());
    }
}

/// No address is known twice, however many are learnt of, and none is forgotten.
pub proof fn known_urls_differ(seen: Seq<Seq<char>>, urls: Seq<Seq<char>>)
    requires
        seen.no_duplicates(),
    ensures
        with_urls(seen, urls).no_duplicates(),
        with_urls(seen, urls).len() >= seen.len(),
        with_urls(seen, urls).take(seen.len() as int) == seen,
    decreases urls.len(),
{
    if urls.len() > 0 {
        known_urls_differ(seen, urls.drop_last());
        let a = with_urls(seen, urls.drop_last());
        assert(with_url(a, urls.last()).take(seen.len() as int) =~= a.take(seen.len() as int));
    } else {
        assert(seen.take(seen.len() as int) =~= seen);
    }
}

// ── Laws ─────────────────────────────────────────────────────────────────────

/// All that is looked at of a page: its address, its title and its text in lowercase.
pub open spec fn page_words(url: Seq<char>, title: Seq<char>, body: Seq<char>) -> Seq<char> {
    unicode::lowercase(url) + " "@ + unicode::lowercase(title) + " "@ + unicode::lowercase(body)
}

/// What stands in the address, the title or the text of a page stands in all of it.
proof fn lemma_page_words(url: Seq<char>, title: Seq<char>, body: Seq<char>, p: Seq<char>)
    requires
        text::holds(unicode::lowercase(url), p) || text::holds(unicode::lowercase(title), p)
            || text::holds(unicode::lowercase(body), p),
    ensures
        text::holds(page_words(url, title, body), p),
{
    let u = unicode::lowercase(url);
    let t = unicode::lowercase(title);
    if text::holds(u, p) {
        text::holds_in_either(u, " "@, p);
        text::holds_in_either(u + " "@, t, p);
    } else if text::holds(t, p) {
        text::holds_in_either(u + " "@, t, p);
    }
    if text::holds(u, p) || text::holds(t, p) {
        text::holds_in_either(u + " "@ + t, " "@, p);
    }
    text::holds_in_either(u + " "@ + t + " "@, unicode::lowercase(body), p);
}

/// A page is a case page of a product where the product is named in its address, title or text and
/// one of the words that tell of cases stands in its address, title or text.
pub proof fn pages_that_name_product_and_case_count(
    url: Seq<char>,
    title: Seq<char>,
    body: Seq<char>,
    product: Seq<char>,
    i: int,
)
    requires
        ({
            let p = unicode::lowercase(product);
            text::holds(unicode::lowercase(url), p) || text::holds(unicode::lowercase(title), p)
                || text::holds(unicode::lowercase(body), p)
        }),
        0 <= i < CASE_PAGE_WORDS@.len(),
        ({
            let w = CASE_PAGE_WORDS@[i]@;
            text::holds(unicode::lowercase(url), w) || text::holds(unicode::lowercase(title), w)
                || text::holds(unicode::lowercase(body), w)
        }),
    ensures
        is_case_page(url, title, body, product),
{
    lemma_page_words(url, title, body, unicode::lowercase(product));
    lemma_page_words(url, title, body, CASE_PAGE_WORDS@[i]@);
    assert(text::str_views(CASE_PAGE_WORDS@)[i] == CASE_PAGE_WORDS@[i]@);
}

/// A case page names the product: its name in lowercase stands in the address, the title and the
/// text of the page, and in one of the three where it has no space; and one of the words that tell
/// of cases does.
pub proof fn case_pages_name_the_product(
    url: Seq<char>,
    title: Seq<char>,
    body: Seq<char>,
    product: Seq<char>,
)
    requires
        is_case_page(url, title, body, product),
    ensures
        text::holds(page_words(url, title, body), unicode::lowercase(product)),
        !unicode::lowercase(product).contains(' ') ==> text::holds(
            unicode::lowercase(url),
            unicode::lowercase(product),
        ) || text::holds(unicode::lowercase(title), unicode::lowercase(product)) || text::holds(
            unicode::lowercase(body),
            unicode::lowercase(product),
        ),
        exists|i: int|
            0 <= i < CASE_PAGE_WORDS@.len() && text::holds(
                page_words(url, title, body),
                (#[trigger] CASE_PAGE_WORDS@[i])@,
            ),
{
    let p = unicode::lowercase(product);
    let u = unicode::lowercase(url);
    let t = unicode::lowercase(title);
    let b = unicode::lowercase(body);
    let all = page_words(url, title, body);
    if !p.contains(' ') {
        reveal_strlit(" ");
        assert(" "@ =~= seq![' ']);
        assert(all == u + seq![' '] + t + seq![' '] + b);
        text::holds_beside(u + seq![' '] + t, ' ', b, p);
        if text::holds(u + seq![' '] + t, p) {
            text::holds_beside(u, ' ', t, p);
        }
    }
    let ws = text::str_views(CASE_PAGE_WORDS@);
    let i = choose|i: int| 0 <= i < ws.len() && text::holds(all, #[trigger] ws[i]);
    assert(ws[i] == CASE_PAGE_WORDS@[i]@);
}

/// Every section that is collected comes of a page that names the product and shows its address,
/// its title and its host; a page that does not name the product leaves the sections as they were,
/// and no page changes those before it.
pub proof fn sections_name_the_product(
    c: Collection,
    page: DocPage,
    host: Seq<char>,
    product: Seq<char>,
)
    ensures
        ({
            let d = with_page(c, page, host, product);
            let named = text::holds(
                page_words(page.url@, page.title@, page.text@),
                unicode::lowercase(product),
            );
            &&& !named ==> d.sections == c.sections
            &&& d.sections.len() >= c.sections.len() && d.sections.take(c.sections.len() as int)
                == c.sections
            &&& d.sections != c.sections ==> d.sections.len() == c.sections.len() + 1
                && text::holds(d.sections.last(), page.url@) && text::holds(
                d.sections.last(),
                page.title@,
            ) && text::holds(d.sections.last(), host) && (page.text@.len() <= 1500 ==> text::ends(
                d.sections.last(),
                page.text@,
            ))
            &&& d.fetched == c.fetched + 1
            &&& d.seen == c.seen
        }),
{
    broadcast use {text::holds_in_front, text::holds_at_end};

    let d = with_page(c, page, host, product);
    if is_case_page(page.url@, page.title@, page.text@, product) {
        case_pages_name_the_product(page.url@, page.title@, page.text@, product);
        let s = section_of(page, host);
        assert(d.sections.last() == s);
        assert(d.sections.take(c.sections.len() as int) =~= c.sections);
        assert(text::holds(s, page.url@) && text::holds(s, page.title@) && text::holds(s, host));
        let t = text::shortened(page.text@, 1500);
        assert(s.subrange(s.len() - t.len(), s.len() as int) =~= t);
        assert(d.sections.len() != c.sections.len());
    } else {
        assert(d.sections.take(c.sections.len() as int) =~= c.sections);
    }
}

/// A company's first case that names the company and an address is kept where enough cases are
/// asked for.
pub proof fn first_cases_are_kept(cases: Seq<CaseEvidence>, max: nat, i: int)
    requires
        0 <= i < cases.len(),
        max >= cases.len(),
        is_complete(cases[i]),
        unicode::lowered_alphanumerics(cases[i].company@).len() > 0,
        forall|j: int|
            0 <= j < i && is_complete(#[trigger] cases[j]) ==> unicode::lowered_alphanumerics(
                cases[j].company@,
            ) != unicode::lowered_alphanumerics(cases[i].company@),
    ensures
        chosen_cases(cases, max).contains(cases[i]),
{
    broadcast use vstd::seq_lib::group_filter_ensures;

    let p = |c: CaseEvidence| is_complete(c);
    let q = |c: CaseEvidence| c.key().len() > 0;
    let a = cases.filter(p);
    let d = order::distinct(a);
    let f = d.filter(q);
    order::distinct_is_no_longer(a);
    let k = lists::index_after_filter(cases, p, i);
    assert forall|j: int| 0 <= j < k implies (#[trigger] a[j]).key() != a[k].key() by {
        let m = lists::index_before_filter(cases, p, i, j);
        assert(is_complete(cases[m]));
    }
    order::distinct_keeps_the_first(a, k);
    let n = choose|n: int| 0 <= n < d.len() && d[n] == cases[i];
    assert(q(d[n]));
    assert(f.contains(d[n]));
    assert(f.len() <= d.len() <= a.len() <= cases.len());
    assert(chosen_cases(cases, max) == f);
}

/// Companies are told apart by the letters and digits of their names in lowercase.
pub proof fn companies_are_told_apart_by_name(a: CaseEvidence, b: CaseEvidence)
    ensures
        a.company@ == b.company@ ==> a.key() == b.key(),
        a.key() == b.key() <==> unicode::lowered_alphanumerics(a.company@)
            == unicode::lowered_alphanumerics(b.company@),
{
}

/// The host of an address is what stands between the scheme and the first slash, question mark or
/// hash, in lowercase, and other addresses have none.
pub proof fn hosts_stand_behind_the_scheme(host: Seq<char>, path: Seq<char>, https: bool)
    requires
        forall|i: int| 0 <= i < host.len() ==> !HOST_ENDS@.contains(#[trigger] host[i]),
        text::trimmed(host) == host,
        unicode::lowercase(host).len() > 0,
        path.len() == 0 || path[0] == '/' || path[0] == '?' || path[0] == '#',
    ensures
        host_of("https://"@ + host + path) == Some(unicode::lowercase(host)),
        host_of("http://"@ + host + path) == Some(unicode::lowercase(host)),
{
    reveal_strlit("https://");
    reveal_strlit("http://");
    let rest = host + path;
    assert(HOST_ENDS@ =~= seq!['/', '?', '#']);
    text::first_piece_is_front(host, path, HOST_ENDS@);
    let a = "https://"@ + host + path;
    assert(a.subrange(0, 8) =~= "https://"@);
    assert(a.skip(8) =~= rest);
    let b = "http://"@ + host + path;
    assert(b.subrange(0, 7) =~= "http://"@);
    assert(b.skip(7) =~= rest);
    assert(b[4] == ':');
    assert(!text::begins(b, "https://"@)) by {
        if text::begins(b, "https://"@) {
            assert(b.subrange(0, 8)[4] == "https://"@[4]);
        }
    }
}

/// An address that has a host is one of the web.
pub proof fn hosts_are_on_the_web(url: Seq<char>)
    ensures
        host_of(url) is Some ==> is_web(url),
        host_of(url) matches Some(h) ==> h.len() > 0,
{
}

/// A host lies within itself and within each domain above it, and not within a domain that merely
/// ends like it.
pub proof fn hosts_lie_within_domains(front: Seq<char>, domain: Seq<char>)
    ensures
        within(domain, domain),
        within(front + "."@ + domain, domain),
        front.len() > 0 && front.last() != '.' ==> !within(front + domain, domain),
        within(front, domain) ==> text::ends(front, domain),
{
    reveal_strlit(".");
    let a = front + "."@ + domain;
    let d = "."@ + domain;
    assert(a.subrange(a.len() - d.len(), a.len() as int) =~= d);
    let b = front + domain;
    if front.len() > 0 && text::ends(b, d) {
        assert(b.subrange(b.len() - d.len(), b.len() as int)[0] == d[0]);
        assert(b[front.len() - 1] == '.');
    }
    if text::ends(front, d) {
        let n = front.len() - domain.len();
        assert(front.subrange(n, front.len() as int) =~= domain) by {
            assert forall|i: int| 0 <= i < domain.len() implies front[n + i] == domain[i] by {
                assert(front.subrange(front.len() - d.len(), front.len() as int)[i + 1] == d[i + 1]);
            }
        }
    }
    if front == domain {
        assert(front.subrange(0, front.len() as int) =~= domain);
    }
}

/// Every host on or under one of the excluded ones is excluded, and no other is.
pub proof fn excluded_hosts_lie_within(host: Seq<char>, i: int)
    requires
        0 <= i < EXCLUDED_HOSTS@.len(),
    ensures
        unicode::lowercase(host) == EXCLUDED_HOSTS@[i]@ ==> excluded(host),
        text::ends(unicode::lowercase(host), "."@ + EXCLUDED_HOSTS@[i]@) ==> excluded(host),
        excluded(host) ==> exists|j: int|
            0 <= j < EXCLUDED_HOSTS@.len() && text::ends(
                unicode::lowercase(host),
                (#[trigger] EXCLUDED_HOSTS@[j])@,
            ),
{
    let h = unicode::lowercase(host);
    if h == EXCLUDED_HOSTS@[i]@ || text::ends(h, "."@ + EXCLUDED_HOSTS@[i]@) {
        assert(within(h, EXCLUDED_HOSTS@[i]@));
    }
    if excluded(host) {
        let j = choose|j: int|
            0 <= j < EXCLUDED_HOSTS@.len() && within(h, (#[trigger] EXCLUDED_HOSTS@[j])@);
        hosts_lie_within_domains(h, EXCLUDED_HOSTS@[j]@);
    }
}

/// The official hosts of a product begin with those that are known, each stands there once, and
/// every other is the host of a result whose title names the product or the host's owner, and is
/// not excluded; each such host is there.
pub proof fn official_hosts_are_found(
    known: Seq<Seq<char>>,
    results: Seq<Hit>,
    name: Seq<char>,
)
    requires
        known.no_duplicates(),
    ensures
        ({
            let r = hosts_with(known, results, name);
            &&& r.no_duplicates()
            &&& known.len() <= r.len() && r.take(known.len() as int) == known
            &&& forall|k: int|
                known.len() <= k < r.len() ==> !excluded(#[trigger] r[k]) && exists|j: int|
                    0 <= j < results.len() && host_of((#[trigger] results[j]).url) == Some(r[k])
                        && is_official(results[j].title, name, r[k])
            &&& forall|j: int|
                0 <= j < results.len() ==> (host_of((#[trigger] results[j]).url) matches Some(h)
                    ==> (!excluded(h) && is_official(results[j].title, name, h) ==> r.contains(h)))
        }),
    decreases results.len(),
{
    let r = hosts_with(known, results, name);
    if results.len() == 0 {
        assert(r.take(known.len() as int) =~= known);
    } else {
        let a = results.drop_last();
        let s = hosts_with(known, a, name);
        let l = results.last();
        let n = results.len() - 1;
        official_hosts_are_found(known, a, name);
        assert(results[n] == l);
        assert(r.take(known.len() as int) =~= known) by {
            assert(r.take(known.len() as int) =~= s.take(known.len() as int));
        }
        assert forall|k: int| known.len() <= k < r.len() implies !excluded(#[trigger] r[k])
            && exists|j: int|
            0 <= j < results.len() && host_of((#[trigger] results[j]).url) == Some(r[k])
                && is_official(results[j].title, name, r[k]) by {
            if k < s.len() {
                assert(r[k] == s[k]);
                let j = choose|j: int|
                    0 <= j < a.len() && host_of((#[trigger] a[j]).url) == Some(s[k])
                        && is_official(a[j].title, name, s[k]);
                assert(results[j] == a[j]);
            } else {
                assert(host_of(results[n].url) == Some(r[k]));
            }
        }
        assert forall|j: int| 0 <= j < results.len() implies (host_of((#[trigger] results[j]).url)
            matches Some(h) ==> (!excluded(h) && is_official(results[j].title, name, h)
            ==> r.contains(h))) by {
            if let Some(h) = host_of(results[j].url) {
                if !excluded(h) && is_official(results[j].title, name, h) {
                    if j < n {
                        assert(a[j] == results[j]);
                        assert(s.contains(h));
                        let m = choose|m: int| 0 <= m < s.len() && s[m] == h;
                        assert(r[m] == h);
                    } else if !s.contains(h) {
                        assert(r[s.len() as int] == h);
                    }
                }
            }
        }
    }
}

/// A title names a product where the product's letters and digits stand in it, and it is that of an
/// official site where it names the product, whatever the host is.
pub proof fn titles_name_products(title: Seq<char>, name: Seq<char>, host: Seq<char>)
    ensures
        names_product(title, name) ==> is_official(title, name, host),
        names_product(title, name) ==> text::holds(
            unicode::lowered_alphanumerics(title),
            unicode::lowered_alphanumerics(name),
        ),
        unicode::lowered_alphanumerics(name).len() == 0 ==> !names_product(title, name),
        unicode::lowered_alphanumerics(name).len() > 0 && title == name ==> names_product(
            title,
            name,
        ),
        is_official(title, name, host) && !names_product(title, name) ==> text::holds(
            unicode::lowered_alphanumerics(title),
            brand_label(host),
        ) && brand_label(host).len() > 0,
{
    text::holds_itself(unicode::lowered_alphanumerics(name));
}

/// The label of a host's owner stands directly before the public suffix: before the last label, or
/// before the last two where the last is a country and the one before it belongs to the suffix.
pub proof fn owners_stand_before_the_suffix(labels: Seq<Seq<char>>)
    requires
        labels.len() >= 2,
    ensures
        text::byte_count(labels.last()) != 2 ==> registered_label(labels)
            == unicode::lowered_alphanumerics(labels[labels.len() - 2]),
        labels.len() >= 3 && text::byte_count(labels.last()) == 2 && labels[labels.len() - 2]
            == "co"@ ==> registered_label(labels) == unicode::lowered_alphanumerics(
            labels[labels.len() - 3],
        ),
        labels.len() >= 3 && text::byte_count(labels.last()) == 2 && labels[labels.len() - 2]
            == "com"@ ==> registered_label(labels) == unicode::lowered_alphanumerics(
            labels[labels.len() - 3],
        ),
        !text::str_views(SECOND_LEVELS@).contains(labels[labels.len() - 2]) ==> registered_label(
            labels,
        ) == unicode::lowered_alphanumerics(labels[labels.len() - 2]),
{
    let v = text::str_views(SECOND_LEVELS@);
    assert(v[1] == "co"@ && v[2] == "com"@);
}

/// A page of search results gives its links in order: where every link can be followed and leads
/// to the web, each of the first ten gives a result with the address that it leads to; a link that
/// cannot be followed leaves no answer unless there are ten results before it.
pub proof fn links_give_results(links: Seq<Seq<Seq<char>>>)
    requires
        forall|i: int|
            0 <= i < links.len() ==> {
                let href = entities_resolved(pattern::group(#[trigger] links[i], 0));
                followable(href) && is_web(link_target(href))
            },
    ensures
        results_of(links) matches Some(r) && r.len() == (if links.len() <= 10 {
            links.len()
        } else {
            10
        }) && forall|i: int|
            0 <= i < r.len() ==> (#[trigger] r[i]).url == link_target(
                entities_resolved(pattern::group(links[i], 0)),
            ) && r[i].title == without_tags(entities_resolved(pattern::group(links[i], 1))),
    decreases links.len(),
{
    if links.len() > 0 {
        let a = links.drop_last();
        assert forall|i: int| 0 <= i < a.len() implies {
            let href = entities_resolved(pattern::group(#[trigger] a[i], 0));
            followable(href) && is_web(link_target(href))
        } by {
            assert(a[i] == links[i]);
        }
        links_give_results(a);
        assert(links[links.len() - 1] == links.last());
    }
}

/// A link that is no redirect leads where it says; a redirect leads to what stands behind its
/// mark, decoded.
pub proof fn redirects_are_followed(front: Seq<char>, target: Seq<char>)
    requires
        !text::holds(front + "uddg"@, "uddg="@),
        !text::holds(target, "uddg="@),
    ensures
        redirect_tail(front + "uddg="@ + percent::query_text(target)) == Some(
            percent::query_text(target),
        ),
        link_target(target) == target,
        followable(target),
{
    let m = "uddg="@;
    let q = percent::query_text(target);
    assert(m.len() == 5 && m.drop_last() =~= "uddg"@) by {
        reveal_strlit("uddg=");
        reveal_strlit("uddg");
    }
    text::finding_is_holding(target, m);
    text::found_behind(front, m, q);
    assert((front + m + q).skip((front.len() + 5) as int) =~= q);
}

/// The address of a link on a page is the link itself where it names a scheme, and otherwise the
/// page's host and the link with one slash between them; an anchor has none.
pub proof fn links_are_resolved(base: Seq<char>, href: Seq<char>)
    ensures
        is_web(href) ==> resolved(base, href) == Some(href),
        href.len() == 0 || href[0] == '#' ==> resolved(base, href) is None,
        href.len() > 0 && href[0] == '/' && (href.len() == 1 || href[1] != '/') ==> resolved(base, href)
            == Some(text::without_suffixes(base, "/"@) + href),
        href.len() > 0 && href[0] != '/' && href[0] != '#' && !is_web(href) ==> resolved(base, href)
            == Some(text::without_suffixes(base, "/"@) + seq!['/'] + href),
        href.len() > 1 && href[0] == '/' && href[1] == '/' ==> (resolved(base, href) matches Some(u)
            && is_web(u) && text::ends(u, href)),
{
    reveal_strlit("/");
    reveal_strlit("//");
    reveal_strlit("#");
    reveal_strlit("https:");
    reveal_strlit("http://");
    reveal_strlit("https://");
    assert("/"@ =~= seq!['/']);
    if href.len() > 0 {
        assert(href.subrange(0, 1) =~= seq![href[0]]);
        assert("#"@ =~= seq!['#']);
        assert(text::begins(href, "/"@) == (href[0] == '/')) by {
            if text::begins(href, "/"@) {
                assert(href.subrange(0, 1)[0] == '/');
            }
        }
        assert(text::begins(href, "#"@) == (href[0] == '#')) by {
            if text::begins(href, "#"@) {
                assert(href.subrange(0, 1)[0] == '#');
            }
        }
    }
    if is_web(href) {
        if text::begins(href, "http://"@) {
            assert(href.subrange(0, 7)[0] == 'h');
        } else {
            assert(href.subrange(0, 8)[0] == 'h');
        }
        assert(href[0] == 'h');
    }
    if text::begins(href, "//"@) {
        assert(href.subrange(0, 2)[0] == '/');
        assert(href.subrange(0, 2)[1] == '/');
    }
    if href.len() > 1 && href[0] == '/' && href[1] == '/' {
        assert(href.subrange(0, 2) =~= "//"@);
        let u = "https:"@ + href;
        assert(u.subrange(0, 8) =~= "https://"@);
        assert(u.subrange(u.len() - href.len(), u.len() as int) =~= href);
    }
}

/// The addresses that a page's links give are on the host, come of links that tell of cases, and
/// stand there once; each such address is there.
pub proof fn case_links_are_found(base: Seq<char>, host: Seq<char>, links: Seq<Seq<char>>)
    ensures
        ({
            let r = case_urls(base, host, links);
            &&& r.no_duplicates()
            &&& forall|k: int|
                0 <= k < r.len() ==> on_host(#[trigger] r[k], host) && exists|j: int|
                    0 <= j < links.len() && tells_of_cases(#[trigger] links[j]) && resolved(
                        base,
                        links[j],
                    ) == Some(r[k])
            &&& forall|j: int|
                0 <= j < links.len() && tells_of_cases(#[trigger] links[j]) ==> (resolved(
                    base,
                    links[j],
                ) matches Some(u) ==> (on_host(u, host) ==> r.contains(u)))
        }),
    decreases links.len(),
{
    if links.len() > 0 {
        let a = links.drop_last();
        let s = case_urls(base, host, a);
        let r = case_urls(base, host, links);
        let n = links.len() - 1;
        case_links_are_found(base, host, a);
        assert(links[n] == links.last());
        assert forall|k: int| 0 <= k < r.len() implies on_host(#[trigger] r[k], host) && exists|j:
            int|
            0 <= j < links.len() && tells_of_cases(#[trigger] links[j]) && resolved(base, links[j])
                == Some(r[k]) by {
            if k < s.len() {
                assert(r[k] == s[k]);
                let j = choose|j: int|
                    0 <= j < a.len() && tells_of_cases(#[trigger] a[j]) && resolved(base, a[j])
                        == Some(s[k]);
                assert(links[j] == a[j]);
            } else {
                assert(tells_of_cases(links[n]));
            }
        }
        assert forall|j: int| 0 <= j < links.len() && tells_of_cases(#[trigger] links[j]) implies (
        resolved(base, links[j]) matches Some(u) ==> (on_host(u, host) ==> r.contains(u))) by {
            if let Some(u) = resolved(base, links[j]) {
                if on_host(u, host) {
                    if j < n {
                        assert(a[j] == links[j]);
                        assert(s.contains(u));
                        let m = choose|m: int| 0 <= m < s.len() && s[m] == u;
                        assert(r[m] == u);
                    } else if s.contains(u) {
                        let m = choose|m: int| 0 <= m < s.len() && s[m] == u;
                        assert(r[m] == u);
                    } else {
                        assert(r[s.len() as int] == u);
                    }
                }
            }
        }
    }
}

/// A link tells of cases where one of the words for it stands in it, in upper or lower case.
pub proof fn case_links_hold_a_word(href: Seq<char>, i: int)
    requires
        0 <= i < CASE_LINK_WORDS@.len(),
    ensures
        text::holds(unicode::lowercase(href), CASE_LINK_WORDS@[i]@) ==> tells_of_cases(href),
        tells_of_cases(href) ==> exists|j: int|
            0 <= j < CASE_LINK_WORDS@.len() && text::holds(
                unicode::lowercase(href),
                (#[trigger] CASE_LINK_WORDS@[j])@,
            ),
{
    let v = text::str_views(CASE_LINK_WORDS@);
    assert(v[i] == CASE_LINK_WORDS@[i]@);
    if tells_of_cases(href) {
        let j = choose|j: int|
            0 <= j < v.len() && text::holds(unicode::lowercase(href), #[trigger] v[j]);
        assert(v[j] == CASE_LINK_WORDS@[j]@);
    }
}

/// Of the results of a search the first four are looked at, and those on the host become known;
/// what is known of a host is fetched, but for its home page.
pub proof fn results_on_the_host_are_fetched(results: Seq<Hit>, host: Seq<char>, seen: Seq<Seq<char>>, i: int)
    requires
        0 <= i < results.len(),
    ensures
        i < 4 && on_host(results[i].url, host) ==> result_urls(results, host).contains(
            results[i].url,
        ),
        forall|k: int|
            0 <= k < result_urls(results, host).len() ==> on_host(
                #[trigger] result_urls(results, host)[k],
                host,
            ),
        forall|u: Seq<char>|
            #[trigger] host_urls(seen, host).contains(u) <==> seen.contains(u) && on_host(u, host)
                && u != "https://"@ + host,
{
    broadcast use vstd::seq_lib::group_filter_ensures;

    let p = |u: Seq<char>| on_host(u, host);
    let all = order::cut(results, RESULTS_PER_QUERY as nat).map_values(|h: Hit| h.url);
    let f = all.filter(p);
    assert(result_urls(results, host) == f);
    if i < 4 && on_host(results[i].url, host) {
        assert(all[i] == results[i].url);
        assert(p(all[i]));
        assert(f.contains(all[i]));
    }
    assert forall|k: int| 0 <= k < f.len() implies on_host(#[trigger] f[k], host) by {
        assert(p(f[k]));
    }
    let q = |u: Seq<char>| on_host(u, host) && u != "https://"@ + host;
    let g = seen.filter(q);
    assert(host_urls(seen, host) == g);
    assert forall|u: Seq<char>| #[trigger] g.contains(u) <==> seen.contains(u) && on_host(u, host) && u
        != "https://"@ + host by {
        if g.contains(u) {
            seen.lemma_filter_contains_rev(q, u);
            let k = choose|k: int| 0 <= k < g.len() && g[k] == u;
            assert(q(g[k]));
        }
        if seen.contains(u) && q(u) {
            let k = choose|k: int| 0 <= k < seen.len() && seen[k] == u;
            assert(g.contains(seen[k]));
        }
    }
}

/// Every address that is learnt of is known from then on.
pub proof fn addresses_become_known(seen: Seq<Seq<char>>, urls: Seq<Seq<char>>, u: Seq<char>)
    ensures
        with_urls(seen, urls).contains(u) == (seen.contains(u) || urls.contains(u)),
    decreases urls.len(),
{
    if urls.len() > 0 {
        let a = urls.drop_last();
        let s = with_urls(seen, a);
        let r = with_urls(seen, urls);
        addresses_become_known(seen, a, u);
        if s.contains(u) {
            let k = choose|k: int| 0 <= k < s.len() && s[k] == u;
            assert(r[k] == u);
        }
        if urls.contains(u) {
            let k = choose|k: int| 0 <= k < urls.len() && urls[k] == u;
            if k < a.len() {
                assert(a[k] == u);
            } else if !s.contains(u) {
                assert(r[s.len() as int] == u);
            }
        }
        if a.contains(u) {
            let k = choose|k: int| 0 <= k < a.len() && a[k] == u;
            assert(urls[k] == u);
        }
        if r.contains(u) && !s.contains(u) {
            let k = choose|k: int| 0 <= k < r.len() && r[k] == u;
            assert(k == s.len());
            assert(urls[urls.len() - 1] == u);
        }
    }
}

/// The day of a page is its first date with hyphens, and otherwise its first with slashes, written
/// with hyphens.
pub proof fn days_are_read(hyphens: Seq<Seq<char>>, slashes: Seq<Seq<char>>)
    requires
        hyphens.len() > 0,
        slashes.len() > 0,
    ensures
        page_day(Some(hyphens), Some(slashes)) == Some(hyphens[0]),
        page_day(Some(hyphens), None) == Some(hyphens[0]),
        page_day(None, None) is None,
        time::day_start(slashes[0], "%Y/%m/%d"@) is None ==> page_day(None, Some(slashes)) is None,
        time::day_start(slashes[0], "%Y/%m/%d"@) matches Some(t) ==> page_day(None, Some(slashes))
            == time::date_text(Timestamp { secs: t, nanos: 0 }, "%Y-%m-%d"@),
{
}

/// A text without an ampersand has no entities, and stays as it is.
pub proof fn texts_without_entities_stay(s: Seq<char>)
    requires
        !s.contains('&'),
    ensures
        entities_resolved(s) == s,
{
    reveal_strlit("&amp;");
    reveal_strlit("&lt;");
    reveal_strlit("&gt;");
    reveal_strlit("&quot;");
    reveal_strlit("&#39;");
    text::absent_marks_are_not_held(s, "&amp;"@, '&');
    text::absent_marks_are_not_held(s, "&lt;"@, '&');
    text::absent_marks_are_not_held(s, "&gt;"@, '&');
    text::absent_marks_are_not_held(s, "&quot;"@, '&');
    text::absent_marks_are_not_held(s, "&#39;"@, '&');
    text::replacing_nothing(s, "&amp;"@, "&"@);
    text::replacing_nothing(s, "&lt;"@, "<"@);
    text::replacing_nothing(s, "&gt;"@, ">"@);
    text::replacing_nothing(s, "&quot;"@, "\""@);
    text::replacing_nothing(s, "&#39;"@, "'"@);
}

/// The owner of a host of two labels is the first of them, whatever the second is; a port plays no
/// part, and neither does a leading "www.".
pub proof fn hosts_are_named_by_their_owner(brand: Seq<char>, suffix: Seq<char>, port: Seq<char>)
    requires
        !brand.contains('.') && !brand.contains(':'),
        !suffix.contains('.') && !suffix.contains(':'),
        brand != "www"@,
        unicode::lowered_alphanumerics(brand).len() > 0,
    ensures
        brand_label(brand + seq!['.'] + suffix) == unicode::lowered_alphanumerics(brand),
        brand_label(brand + seq!['.'] + suffix + seq![':'] + port)
            == unicode::lowered_alphanumerics(brand),
        brand_label("www."@ + brand + seq!['.'] + suffix) == unicode::lowered_alphanumerics(brand),
{
    let h = brand + seq!['.'] + suffix;
    let www = "www."@;
    assert(www.len() == 4 && www[0] == 'w' && www[1] == 'w' && www[2] == 'w' && www[3] == '.'
        && "www"@.len() == 3 && "www"@ =~= seq!['w', 'w', 'w']) by {
        reveal_strlit("www.");
        reveal_strlit("www");
    }
    lemma_no_colon(brand, suffix);
    assert(!text::begins(h, www)) by {
        if text::begins(h, www) {
            let t = h.subrange(0, 4);
            assert(t[0] == 'w' && t[1] == 'w' && t[2] == 'w' && t[3] == '.');
            assert(h[3] == '.');
            if brand.len() > 3 {
                assert(brand[3] == '.');
            } else if brand.len() < 3 {
                assert(h[brand.len() as int] == '.');
                assert(h[brand.len() as int] == t[brand.len() as int]);
            } else {
                assert(brand =~= seq!['w', 'w', 'w']);
            }
        }
    }
    text::no_split(h, ':');
    text::split_around(h, ':', port);
    text::split_in_two(brand, '.', suffix);
    let w = www + brand + seq!['.'] + suffix;
    assert(w =~= www + h);
    assert(!w.contains(':')) by {
        if w.contains(':') {
            let i = choose|i: int| 0 <= i < w.len() && w[i] == ':';
            if i >= 4 {
                assert(h[i - 4] == ':');
                assert(h.contains(':'));
            }
        }
    }
    text::no_split(w, ':');
    assert(w.subrange(0, 4) =~= www);
    assert(w.skip(4) =~= h);
    assert(text::without_prefixes(h, www) == h);
    assert(text::without_prefixes(w, www) == text::without_prefixes(h, www));
    let labels = seq![brand, suffix];
    assert(host_labels(h) == labels);
    assert(suffix_labels(labels) == 1);
    assert(registered_label(labels) == unicode::lowered_alphanumerics(brand));
}

/// Neither label has a colon, so that the host has none.
proof fn lemma_no_colon(brand: Seq<char>, suffix: Seq<char>)
    requires
        !brand.contains(':'),
        !suffix.contains(':'),
    ensures
        !(brand + seq!['.'] + suffix).contains(':'),
{
    let h = brand + seq!['.'] + suffix;
    if h.contains(':') {
        let i = choose|i: int| 0 <= i < h.len() && h[i] == ':';
        if i < brand.len() {
            assert(brand[i] == ':');
        } else if i > brand.len() {
            assert(suffix[i - brand.len() - 1] == ':');
        }
    }
}

/// Every case that is kept names a company and an address that are not blank.
pub proof fn kept_cases_name_company_and_address(cases: Seq<CaseEvidence>, max: nat)
    ensures
        forall|i: int|
            0 <= i < chosen_cases(cases, max).len() ==> text::trimmed(
                (#[trigger] chosen_cases(cases, max)[i]).company@,
            ).len() > 0 && text::trimmed(chosen_cases(cases, max)[i].url@).len() > 0
                && cases.contains(chosen_cases(cases, max)[i]),
        forall|c: CaseEvidence|
            is_complete(c) <==> #[trigger] text::trimmed(c.company@).len() > 0 && #[trigger] text::trimmed(
                c.url@,
            ).len() > 0,
{
    chosen_companies_differ(cases, max);
    let p = |c: CaseEvidence| is_complete(c);
    let q = |c: CaseEvidence| c.key().len() > 0;
    let a = cases.filter(p);
    let d = order::distinct(a);
    let f = d.filter(q);
    let r = chosen_cases(cases, max);
    order::kept_are_items(a, order::firsts(order::keys(a)));
    assert forall|i: int| 0 <= i < r.len() implies text::trimmed((#[trigger] r[i]).company@).len() > 0
        && text::trimmed(r[i].url@).len() > 0 && cases.contains(r[i]) by {
        assert(is_complete(r[i]));
        assert(f[i] == r[i]);
        assert(f.contains(r[i]));
        lists::filter_holds(d, q, r[i]);
        assert(a.contains(r[i]));
        lists::filter_holds(cases, p, r[i]);
    }
}

/// The sites that are never official are those of search engines, of forums and of other
/// publishers, with all that lies under them.
pub proof fn excluded_sites_are_these(host: Seq<char>)
    ensures
        excluded(host) <==> ({
            let h = unicode::lowercase(host);
            ||| within(h, "duckduckgo.com"@)
            ||| within(h, "google.com"@)
            ||| within(h, "bing.com"@)
            ||| within(h, "github.com"@)
            ||| within(h, "news.ycombinator.com"@)
            ||| within(h, "reddit.com"@)
            ||| within(h, "medium.com"@)
            ||| within(h, "linkedin.com"@)
            ||| within(h, "wikipedia.org"@)
        }),
{
    let v = EXCLUDED_HOSTS@;
    let h = unicode::lowercase(host);
    assert(v.len() == 9);
    assert(v[0]@ == "duckduckgo.com"@ && v[1]@ == "google.com"@ && v[2]@ == "bing.com"@ && v[3]@
        == "github.com"@ && v[4]@ == "news.ycombinator.com"@ && v[5]@ == "reddit.com"@ && v[6]@
        == "medium.com"@ && v[7]@ == "linkedin.com"@ && v[8]@ == "wikipedia.org"@);
    if excluded(host) {
        let i = choose|i: int| 0 <= i < v.len() && within(h, (#[trigger] v[i])@);
        assert(i == 0 || i == 1 || i == 2 || i == 3 || i == 4 || i == 5 || i == 6 || i == 7 || i
            == 8);
    }
}

/// The words in a link that tell of cases.
pub proof fn links_to_cases_hold_these_words(href: Seq<char>)
    ensures
        tells_of_cases(href) <==> ({
            let l = unicode::lowercase(href);
            ||| text::holds(l, "customer"@)
            ||| text::holds(l, "customers"@)
            ||| text::holds(l, "case-study"@)
            ||| text::holds(l, "case-studies"@)
            ||| text::holds(l, "case_study"@)
            ||| text::holds(l, "case_studies"@)
            ||| text::holds(l, "success-story"@)
            ||| text::holds(l, "success-stories"@)
            ||| text::holds(l, "stories"@)
            ||| text::holds(l, "story"@)
            ||| text::holds(l, "use-case"@)
            ||| text::holds(l, "use-cases"@)
            ||| text::holds(l, "users"@)
            ||| text::holds(l, "testimonials"@)
        }),
{
    let v = text::str_views(CASE_LINK_WORDS@);
    let l = unicode::lowercase(href);
    assert(v.len() == 14);
    assert(v[0] == "customer"@ && v[1] == "customers"@ && v[2] == "case-study"@ && v[3]
        == "case-studies"@ && v[4] == "case_study"@ && v[5] == "case_studies"@ && v[6]
        == "success-story"@ && v[7] == "success-stories"@ && v[8] == "stories"@ && v[9] == "story"@
        && v[10] == "use-case"@ && v[11] == "use-cases"@ && v[12] == "users"@ && v[13]
        == "testimonials"@);
    if tells_of_cases(href) {
        let i = choose|i: int| 0 <= i < v.len() && text::holds(l, #[trigger] v[i]);
        assert(i == 0 || i == 1 || i == 2 || i == 3 || i == 4 || i == 5 || i == 6 || i == 7 || i == 8
            || i == 9 || i == 10 || i == 11 || i == 12 || i == 13);
    }
}

/// The words on a page that tell of cases.
pub proof fn pages_of_cases_hold_these_words(
    url: Seq<char>,
    title: Seq<char>,
    body: Seq<char>,
    product: Seq<char>,
)
    ensures
        is_case_page(url, title, body, product) <==> ({
            let all = page_words(url, title, body);
            &&& text::holds(all, unicode::lowercase(product))
            &&& {
                ||| text::holds(all, "customer"@)
                ||| text::holds(all, "customers"@)
                ||| text::holds(all, "customer story"@)
                ||| text::holds(all, "customer stories"@)
                ||| text::holds(all, "case study"@)
                ||| text::holds(all, "case studies"@)
                ||| text::holds(all, "success story"@)
                ||| text::holds(all, "success stories"@)
                ||| text::holds(all, "testimonial"@)
                ||| text::holds(all, "use case"@)
                ||| text::holds(all, "use cases"@)
                ||| text::holds(all, "uses "@)
                ||| text::holds(all, "used by"@)
            }
        }),
{
    let v = text::str_views(CASE_PAGE_WORDS@);
    let all = page_words(url, title, body);
    assert(v.len() == 13);
    assert(v[0] == "customer"@ && v[1] == "customers"@ && v[2] == "customer story"@ && v[3]
        == "customer stories"@ && v[4] == "case study"@ && v[5] == "case studies"@ && v[6]
        == "success story"@ && v[7] == "success stories"@ && v[8] == "testimonial"@ && v[9]
        == "use case"@ && v[10] == "use cases"@ && v[11] == "uses "@ && v[12] == "used by"@);
    if is_case_page(url, title, body, product) {
        let i = choose|i: int| 0 <= i < v.len() && text::holds(all, #[trigger] v[i]);
        assert(i == 0 || i == 1 || i == 2 || i == 3 || i == 4 || i == 5 || i == 6 || i == 7 || i == 8
            || i == 9 || i == 10 || i == 11 || i == 12);
    }
}

/// What belongs to a public suffix below a country, and what says nothing of a host's owner.
pub proof fn suffixes_and_generic_labels_are_these(l: Seq<char>)
    ensures
        text::str_views(SECOND_LEVELS@).contains(l) <==> l == "ac"@ || l == "co"@ || l == "com"@ || l
            == "edu"@ || l == "gov"@ || l == "mil"@ || l == "net"@ || l == "org"@,
        text::str_views(GENERIC_LABELS@).contains(l) <==> l == "www"@ || l == "docs"@ || l == "doc"@
            || l == "blog"@ || l == "help"@ || l == "support"@ || l == "home"@,
{
    let v = text::str_views(SECOND_LEVELS@);
    assert(v[0] == "ac"@ && v[1] == "co"@ && v[2] == "com"@ && v[3] == "edu"@ && v[4] == "gov"@
        && v[5] == "mil"@ && v[6] == "net"@ && v[7] == "org"@);
    if v.contains(l) {
        let i = choose|i: int| 0 <= i < v.len() && v[i] == l;
        assert(i == 0 || i == 1 || i == 2 || i == 3 || i == 4 || i == 5 || i == 6 || i == 7);
    }
    let w = text::str_views(GENERIC_LABELS@);
    assert(w[0] == "www"@ && w[1] == "docs"@ && w[2] == "doc"@ && w[3] == "blog"@ && w[4] == "help"@
        && w[5] == "support"@ && w[6] == "home"@);
    if w.contains(l) {
        let i = choose|i: int| 0 <= i < w.len() && w[i] == l;
        assert(i == 0 || i == 1 || i == 2 || i == 3 || i == 4 || i == 5 || i == 6);
    }
}

/// A home page is taken as any page is, and its links to cases on the host become known.
pub proof fn home_pages_give_their_links(
    c: Collection,
    page: DocPage,
    host: Seq<char>,
    product: Seq<char>,
    j: int,
)
    ensures
        ({
            let home = "https://"@ + host;
            let d = with_homepage(c, page, home, host, product);
            let links = text::views(page.nav_links@);
            &&& d.sections == with_page(c, page, host, product).sections
            &&& d.fetched == c.fetched + 1
            &&& 0 <= j < links.len() && tells_of_cases(links[j]) ==> (resolved(home, links[j]) matches Some(u)
                ==> (on_host(u, host) ==> d.seen.contains(u)))
            &&& forall|u: Seq<char>| #[trigger] c.seen.contains(u) ==> d.seen.contains(u)
        }),
{
    let home = "https://"@ + host;
    let d = with_homepage(c, page, home, host, product);
    let links = text::views(page.nav_links@);
    let urls = case_urls(home, host, links);
    case_links_are_found(home, host, links);
    if 0 <= j < links.len() && tells_of_cases(links[j]) {
        if let Some(u) = resolved(home, links[j]) {
            addresses_become_known(c.seen, urls, u);
        }
    }
    assert forall|u: Seq<char>| #[trigger] c.seen.contains(u) implies d.seen.contains(u) by {
        addresses_become_known(c.seen, urls, u);
    }
}

/// Where fewer cases are asked for, the first of them are kept, as many as are asked for.
pub proof fn fewer_cases_are_the_first(cases: Seq<CaseEvidence>, max: nat, more: nat)
    requires
        max <= more,
    ensures
        chosen_cases(cases, max) == order::cut(chosen_cases(cases, more), max),
        chosen_cases(cases, more).len() >= max ==> chosen_cases(cases, max).len() == max,
{
    order::cutting_twice(
        order::distinct(cases.filter(|c: CaseEvidence| is_complete(c))).filter(
            |c: CaseEvidence| c.key().len() > 0,
        ),
        more,
        max,
    );
}

} // verus!
