//! Cases of companies that use a product.
use news_lab::fetcher::cases::{
    candidate_case_urls_from_nav_links, can_follow, case_bundle, case_cache_key, case_prompt,
    case_search_queries, caches_empty, choose_cases, day_from_groups, decode_ddg_redirect,
    decode_html_entities, empty_bundle, extract_date, format_case_section, host_brand_label,
    host_matches, is_excluded_host, is_generic_host_label, looks_like_case_link,
    looks_like_case_page, official_hosts, official_query, parse_duckduckgo_results,
    public_suffix_len, resolve_internal_url, results_from_links, search_error, search_url,
    strip_tags, title_matches_official_host, title_mentions_product, url_host, CaseCollector,
    CaseEvidence, SearchResult, SourcePolicy, NO_PAGES,
};
use news_lab::fetcher::docs::DocPage;


#[test]
fn parse_duckduckgo_redirect_url() {
    let href = "//duckduckgo.com/l/?uddg=https%3A%2F%2Fexample.com%2Fcase-study";
    assert_eq!(
        decode_ddg_redirect(href),
        "https://example.com/case-study".to_string()
    );
}

#[test]
fn host_match_allows_subdomain() {
    assert!(host_matches(
        "https://customers.example.com/story",
        "example.com"
    ));
}

#[test]
fn title_match_uses_normalized_text() {
    assert!(title_mentions_product(
        "Redis Enterprise Official Site",
        "Redis"
    ));
}

#[test]
fn official_host_match_accepts_vendor_title() {
    assert!(title_matches_official_host(
        "OpenAI",
        "ChatGPT Enterprise",
        "openai.com"
    ));
}

#[test]
fn host_brand_label_uses_registrable_domain_for_cc_tlds() {
    assert_eq!(host_brand_label("vendor.co.uk"), "vendor");
    assert_eq!(host_brand_label("docs.vendor.com.au"), "vendor");
}

#[test]
fn host_brand_label_skips_generic_subdomains() {
    assert_eq!(host_brand_label("support.docs.openai.com"), "openai");
}

#[test]
fn slash_dates_are_normalized() {
    assert_eq!(
        extract_date("Published on 2025/03/12 by vendor"),
        Some("2025-03-12".to_string())
    );
}

#[test]
fn case_search_queries_cover_common_case_terms() {
    let queries = case_search_queries("example.com", "Redis");

    assert_eq!(queries.len(), 3);
    assert!(queries.iter().any(|q| q.contains("customer stories")));
    assert!(queries.iter().any(|q| q.contains("case studies")));
    assert!(queries.iter().any(|q| q.contains("use cases")));
}

#[test]
fn resolve_internal_url_supports_relative_and_root_links() {
    assert_eq!(
        resolve_internal_url("https://example.com", "/customers/acme"),
        Some("https://example.com/customers/acme".to_string())
    );
    assert_eq!(
        resolve_internal_url("https://example.com", "case-studies/acme"),
        Some("https://example.com/case-studies/acme".to_string())
    );
}

#[test]
fn candidate_case_urls_from_nav_links_keeps_case_like_paths() {
    let urls = candidate_case_urls_from_nav_links(
        "https://example.com",
        "example.com",
        &[
            "/pricing".to_string(),
            "/customers".to_string(),
            "https://example.com/case-studies/acme".to_string(),
            "https://other.com/customers".to_string(),
        ],
    );

    assert_eq!(
        urls,
        vec![
            "https://example.com/customers".to_string(),
            "https://example.com/case-studies/acme".to_string(),
        ]
    );
}

#[test]
fn case_page_detection_accepts_common_plural_signals() {
    assert!(looks_like_case_page(
        "https://example.com/customers",
        "Customer Stories",
        "Redis customer stories from enterprise teams",
        "Redis"
    ));
}

fn case(company: &str, url: &str) -> CaseEvidence {
    CaseEvidence {
        company: company.to_string(),
        title: String::new(),
        url: url.to_string(),
        publisher: String::new(),
        published_at: String::new(),
        usage_summary: String::new(),
        evidence_type: String::new(),
    }
}

fn result(title: &str, url: &str) -> SearchResult {
    SearchResult { title: title.to_string(), url: url.to_string() }
}

fn page(url: &str, title: &str, text: &str, links: &[&str]) -> DocPage {
    DocPage {
        url: url.to_string(),
        title: title.to_string(),
        text: text.to_string(),
        nav_links: links.iter().map(|l| l.to_string()).collect(),
    }
}

#[test]
fn one_case_for_each_company_is_kept() {
    let cases = vec![
        case("Acme Inc.", "https://a.example"),
        case("", "https://b.example"),
        case("acme inc", "https://c.example"),
        case("Beta", "  "),
        case("!!!", "https://d.example"),
        case("Gamma", "https://e.example"),
        case("Delta", "https://f.example"),
    ];
    let kept = choose_cases(cases, 2);
    let names: Vec<String> = kept.into_iter().map(|c| c.company).collect();
    assert_eq!(names, vec!["Acme Inc.".to_string(), "Gamma".to_string()]);
}

#[test]
fn bundles_carry_the_policy_and_the_day() {
    let b = case_bundle("Redis", vec![case("Acme", "u")], "2026-01-02", SourcePolicy::OfficialOnly);
    assert_eq!(b.product_name, "Redis");
    assert_eq!(b.cases.len(), 1);
    assert_eq!(b.fetched_at, "2026-01-02");
    assert_eq!(b.source_policy, "official_only");
    let e = empty_bundle("Redis", "2026-01-02", SourcePolicy::OfficialOnly);
    assert!(e.cases.is_empty());
    assert!(caches_empty(0, 0));
    assert!(caches_empty(1, 2));
    assert!(!caches_empty(1, 0));
}

#[test]
fn case_cache_key_has_five_parts() {
    assert_eq!(
        case_cache_key("Redis", "redis/redis", SourcePolicy::OfficialOnly, 3),
        vec!["enterprise_cases", "Redis", "redis/redis", "official_only", "3"]
    );
}

#[test]
fn case_prompt_names_product_number_and_pages() {
    let p = case_prompt("Redis", 3, "PAGES HERE");
    assert!(p.contains("「Redis」"));
    assert!(p.contains("最多回傳 3 筆"));
    assert!(p.ends_with("PAGES HERE"));
    assert!(!p.contains("{name}") && !p.contains("{max_cases}") && !p.contains("{pages}"));
}

#[test]
fn host_of_an_address_is_lowercase_and_ends_at_a_path() {
    assert_eq!(url_host("https://Docs.Example.com/a?b"), Some("docs.example.com".to_string()));
    assert_eq!(url_host("http://example.com#x"), Some("example.com".to_string()));
    assert_eq!(url_host("ftp://example.com"), None);
    assert_eq!(url_host("https://"), None);
    assert!(!host_matches("https://notexample.com", "example.com"));
}

#[test]
fn search_engines_and_forums_are_excluded() {
    assert!(is_excluded_host("github.com"));
    assert!(is_excluded_host("en.Wikipedia.org"));
    assert!(!is_excluded_host("mygithub.com"));
}

#[test]
fn labels_of_hosts() {
    let l = |s: &str| s.split('.').map(|x| x.to_string()).collect::<Vec<String>>();
    assert_eq!(public_suffix_len(&l("vendor.co.uk")), 2);
    assert_eq!(public_suffix_len(&l("co.uk")), 1);
    assert_eq!(public_suffix_len(&l("vendor.com")), 1);
    assert!(is_generic_host_label("docs"));
    assert!(!is_generic_host_label("openai"));
    assert_eq!(host_brand_label("www.docs"), "");
    assert_eq!(host_brand_label("localhost:8080"), "localhost");
}

#[test]
fn official_hosts_are_each_there_once() {
    let results = vec![
        result("Redis - The Real-time Data Platform", "https://redis.io/"),
        result("Redis on GitHub", "https://github.com/redis/redis"),
        result("Redis docs", "https://redis.io/docs"),
        result("Cooking", "https://food.example/"),
    ];
    let hosts = official_hosts("Redis", Some("redis.com".to_string()), Some(&results));
    assert_eq!(hosts, Some(vec!["redis.com".to_string(), "redis.io".to_string()]));
    assert_eq!(official_hosts("Redis", None, None), None);
    assert_eq!(
        official_hosts("Redis", Some("redis.com".to_string()), None),
        Some(vec!["redis.com".to_string()])
    );
    assert_eq!(official_query("Redis"), "Redis official website");
}

#[test]
fn search_addresses_and_errors() {
    assert_eq!(search_url("a b"), "https://html.duckduckgo.com/html/?q=a+b");
    assert_eq!(search_error("q", "HTTP 500"), "DuckDuckGo 搜尋失敗（q）: HTTP 500");
}

#[test]
fn results_of_a_search_page() {
    let html = r#"<a rel="x" class="result__a" href="//duckduckgo.com/l/?uddg=https%3A%2F%2Fexample.com%2Fa">A &amp; <b>B</b></a>
        <a class="result__a big" href="/local">Local</a>
        <a class="other" href="https://no.example">No</a>"#;
    let results = parse_duckduckgo_results(html).unwrap();
    assert_eq!(results.len(), 1);
    assert_eq!(results[0].url, "https://example.com/a");
    assert_eq!(results[0].title, "A &  B");
}

#[test]
fn a_link_that_cannot_be_decoded_leaves_no_answer() {
    assert!(!can_follow("?uddg=%a機x"));
    assert!(can_follow("?uddg=%E6%A9%9F"));
    let bad = vec![vec!["x?uddg=%a機x".to_string(), "t".to_string()]];
    assert!(results_from_links(&bad).is_none());
    assert_eq!(decode_ddg_redirect("x?uddg=https%3A%2F%2F%E6%A9%9F+a"), "https://機 a");
    assert_eq!(decode_ddg_redirect("plain"), "plain");
}

#[test]
fn at_most_ten_results_are_read() {
    let links: Vec<Vec<String>> = (0..12)
        .map(|i| vec![format!("https://example.com/{i}"), format!("t{i}")])
        .collect();
    let results = results_from_links(&links).unwrap();
    assert_eq!(results.len(), 10);
    assert_eq!(results[9].url, "https://example.com/9");
}

#[test]
fn tags_and_entities_are_removed() {
    assert_eq!(strip_tags("<b>bold</b> text"), "bold  text");
    assert_eq!(decode_html_entities("&lt;a&gt; &quot;b&quot; &#39;c&#39; &amp;lt;"), "<a> \"b\" 'c' <");
}

#[test]
fn case_links_and_addresses() {
    assert!(looks_like_case_link("/Case-Studies/x"));
    assert!(!looks_like_case_link("/pricing"));
    assert_eq!(resolve_internal_url("https://e.com/", "//cdn.e.com/x"), Some("https://cdn.e.com/x".to_string()));
    assert_eq!(resolve_internal_url("https://e.com", "#top"), None);
    assert_eq!(resolve_internal_url("https://e.com", ""), None);
    assert_eq!(resolve_internal_url("https://e.com", "http://o.com"), Some("http://o.com".to_string()));
}

#[test]
fn dates_of_pages() {
    assert_eq!(extract_date("on 2024-05-06 and 2025/03/12"), Some("2024-05-06".to_string()));
    assert_eq!(extract_date("on 2025/13/45"), None);
    assert_eq!(extract_date("none"), None);
    assert_eq!(
        day_from_groups(None, Some(vec!["2025/03/12".to_string()])),
        Some("2025-03-12".to_string())
    );
    assert_eq!(
        day_from_groups(Some(vec!["2024-01-01".to_string()]), None),
        Some("2024-01-01".to_string())
    );
}

#[test]
fn sections_show_address_title_publisher_and_day() {
    let p = page("https://e.com/c", "T", "Published 2024-05-06. Body", &[]);
    assert_eq!(
        format_case_section(&p, "e.com"),
        "URL: https://e.com/c\nTITLE: T\nPUBLISHER: e.com\nPUBLISHED_AT: 2024-05-06\nTEXT:\nPublished 2024-05-06. Body"
    );
}

#[test]
fn pages_are_collected_from_a_host() {
    let mut c = CaseCollector::new();
    c.start_host();
    let home = page("https://e.com", "Home", "Redis", &["/customers", "/pricing"]);
    c.take_homepage(&home, "e.com", "Redis");
    let enough = c.take_results(
        &vec![
            result("a", "https://e.com/stories"),
            result("b", "https://e.com/customers"),
            result("c", "https://other.com/x"),
        ],
        "e.com",
    );
    assert!(!enough);
    assert_eq!(
        c.urls_to_fetch("e.com"),
        vec!["https://e.com/customers".to_string(), "https://e.com/stories".to_string()]
    );
    let full = c.take_page(&page("https://e.com/customers", "Customers", "Redis customer story", &[]), "e.com", "Redis");
    assert!(!full);
    assert!(!c.is_full());
    let pages = c.finish().unwrap();
    assert_eq!(pages.fetched_pages, 2);
    assert!(pages.pages.starts_with("URL: https://e.com/customers"));
}

#[test]
fn six_sections_are_enough() {
    let mut c = CaseCollector::new();
    let p = page("https://e.com/x", "Customers", "Redis case study", &[]);
    for i in 0..6 {
        assert_eq!(c.take_page(&p, "e.com", "Redis"), i == 5);
    }
    assert!(c.is_full());
}

#[test]
fn known_addresses_without_any_page_are_an_error() {
    let mut c = CaseCollector::new();
    c.take_results(&vec![result("a", "https://e.com/stories")], "e.com");
    match c.finish() {
        Err(m) => assert_eq!(m, NO_PAGES),
        Ok(_) => panic!("no page was fetched"),
    }
    assert!(CaseCollector::new().finish().is_ok());
}
