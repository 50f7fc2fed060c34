//! Searching the web.
use news_lab::fetcher::search::{
    body_error, is_searxng_disabled_error, parse_searxng_date, parse_searxng_results, send_error,
    searxng_base_url_from_env_value, searxng_request, searxng_search_url, status_error,
    SearchError, SearchResult, SearxngResult, SEARXNG_DISABLED,
};

/// The results of a reply.
fn read(body: &str) -> Vec<SearxngResult> {
    let value: serde_json::Value = serde_json::from_str(body).unwrap();
    let text = |v: &serde_json::Value| v.as_str().unwrap_or("").to_string();
    value["results"]
        .as_array()
        .unwrap()
        .iter()
        .map(|r| SearxngResult {
            title: text(&r["title"]),
            url: text(&r["url"]),
            content: text(&r["content"]),
            published_date: r["publishedDate"].as_str().map(|s| s.to_string()),
        })
        .collect()
}

#[test]
fn searxng_base_url_from_env_value_disables_empty_or_unset() {
    assert_eq!(searxng_base_url_from_env_value(None), None);
    assert_eq!(searxng_base_url_from_env_value(Some("   ")), None);
    assert_eq!(
        searxng_base_url_from_env_value(Some("http://127.0.0.1:8888/")),
        Some("http://127.0.0.1:8888".to_string())
    );
}

#[test]
fn searxng_search_url_trims_base_and_encodes_query() {
    assert_eq!(
        searxng_search_url("http://127.0.0.1:8888/", "LLM inference"),
        "http://127.0.0.1:8888/search?q=LLM+inference&format=json&language=auto&safesearch=0"
    );
}

#[test]
fn search_with_empty_base_url_returns_disabled_error() {
    let err = searxng_request("test", "").unwrap_err();

    assert!(is_searxng_disabled_error(&err));
}

#[test]
fn parse_searxng_results_reads_core_fields() {
    let body = r#"{
      "results": [
        {
          "title": "Example News",
          "url": "https://example.com/news",
          "content": "A useful summary",
          "publishedDate": "2026-05-01"
        }
      ]
    }"#;

    let results = parse_searxng_results(&read(body));

    assert_eq!(results.len(), 1);
    assert_eq!(results[0].title, "Example News");
    assert_eq!(results[0].url, "https://example.com/news");
    assert_eq!(results[0].content, "A useful summary");
    assert!(results[0].published.is_some());
}

#[test]
fn parse_searxng_results_accepts_null_published_date() {
    let body = r#"{
      "results": [
        {
          "title": "Undated Result",
          "url": "https://example.com/undated",
          "content": "No known date",
          "publishedDate": null
        }
      ]
    }"#;

    let results = parse_searxng_results(&read(body));

    assert_eq!(results.len(), 1);
    assert_eq!(results[0].title, "Undated Result");
    assert!(results[0].published.is_none());
}

#[test]
fn parse_searxng_results_accepts_empty_results() {
    let results = parse_searxng_results(&read(r#"{"results":[]}"#));
    assert!(results.is_empty());
}

#[test]
fn results_without_title_or_web_address_are_left_out() {
    let r = |title: &str, url: &str| SearxngResult {
        title: title.to_string(),
        url: url.to_string(),
        content: " c ".to_string(),
        published_date: Some("soon".to_string()),
    };
    let kept = parse_searxng_results(&vec![
        r(" T ", " https://a.example "),
        r("", "https://b.example"),
        r("T", "ftp://c.example"),
    ]);
    assert_eq!(kept.len(), 1);
    assert_eq!(kept[0].title, "T");
    assert_eq!(kept[0].url, "https://a.example");
    assert_eq!(kept[0].content, "c");
    assert!(kept[0].published.is_none());
    let expected = SearchResult {
        title: "T".to_string(),
        url: "https://a.example".to_string(),
        content: "c".to_string(),
        published: None,
    };
    assert_eq!(kept, vec![expected]);
}

#[test]
fn dates_of_results() {
    assert_eq!(parse_searxng_date("2026-05-01").unwrap().secs, 1777593600);
    assert_eq!(parse_searxng_date("2026-05-01T01:00:00+01:00").unwrap().secs, 1777593600);
    assert!(parse_searxng_date("  ").is_none());
}

#[test]
fn errors_of_searches() {
    assert_eq!(SearchError::Disabled.message(), SEARXNG_DISABLED);
    assert!(is_searxng_disabled_error(&SearchError::Failed("SEARXNG_DISABLED".to_string())));
    let e = status_error("q", "500 Internal Server Error");
    assert!(!is_searxng_disabled_error(&e));
    assert_eq!(e.message(), "SearXNG 搜尋失敗（q）: HTTP 500 Internal Server Error");
    assert_eq!(send_error("q", "x").message(), "SearXNG 搜尋失敗（q）: x");
    assert_eq!(body_error("q", "x").message(), "SearXNG 回應讀取失敗（q）: x");
    assert_eq!(
        searxng_request("a", " http://h/ ").unwrap(),
        "http://h/search?q=a&format=json&language=auto&safesearch=0"
    );
}
