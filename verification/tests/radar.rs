//! A radar of technologies.
use news_lab::radar::{
    activity_url, adjust_blip, another_round, best_repo, canonical_key, canonical_tokens,
    canonicalize_key,
    check_oss_activity, deduplicate, default_quadrant_names, downgrade_ring,
    effective_canonical_name, effective_kind, extract_blips, filter_blips_for_mode, is_duplicate,
    key, needs_check, normalize_all, normalize_blip, normalize_kind, prefer_display_name,
    radar_prompt, review_and_augment, review_prompt, ring_rank, signals_from, ActivityLookup, Blip,
    QuadrantNames, RadarMode, RadarResponse, RadarSignal, RepoInfo, ReviewOutcome, ReviewReply,
};
use news_lab::fetcher::NewsItem;
use news_lab::time::Timestamp;

fn blip(name: &str, ring: &str) -> Blip {
    Blip {
        name: name.to_string(),
        canonical_name: String::new(),
        kind: String::new(),
        quadrant: "q1".to_string(),
        ring: ring.to_string(),
        is_open_source: true,
        description: String::new(),
        license: String::new(),
        upstream: vec![],
        downstream: vec![],
        pros: vec![],
        cons: vec![],
        rationale: String::new(),
        github_repo: String::new(),
        github_days: None,
        number: 0,
    }
}

#[test]
fn deduplicate_keeps_distinct_prefix_names() {
    let blips = vec![blip("Java", "adopt"), blip("JavaScript", "trial")];

    let deduped = deduplicate(blips);
    let names: Vec<_> = deduped.into_iter().map(|b| b.name).collect();

    assert_eq!(names, vec!["Java", "JavaScript"]);
}

#[test]
fn deduplicate_keeps_distinct_subset_token_names() {
    let blips = vec![blip("AI Model", "trial"), blip("Model", "adopt")];

    let deduped = deduplicate(blips);
    let names: Vec<_> = deduped.into_iter().map(|b| b.name).collect();

    assert_eq!(names, vec!["AI Model", "Model"]);
}

#[test]
fn deduplicate_merges_equivalent_normalized_names() {
    let blips = vec![blip("React.js", "trial"), blip("React JS", "adopt")];

    let deduped = deduplicate(blips);

    assert_eq!(deduped.len(), 1);
    assert_eq!(deduped[0].name, "React JS");
    assert_eq!(deduped[0].ring, "adopt");
}

#[test]
fn deduplicate_merges_known_aliases() {
    let blips = vec![blip("Kubernetes", "trial"), blip("k8s", "adopt")];

    let deduped = deduplicate(blips);

    assert_eq!(deduped.len(), 1);
    assert_eq!(canonical_key(&deduped[0].name), "kubernetes");
    assert_eq!(deduped[0].name, "Kubernetes");
    assert_eq!(deduped[0].ring, "adopt");
}

#[test]
fn deduplicate_keeps_descriptive_alias_when_short_alias_has_better_ring() {
    let blips = vec![blip("PostgreSQL", "trial"), blip("Postgres", "adopt")];

    let deduped = deduplicate(blips);

    assert_eq!(deduped.len(), 1);
    assert_eq!(deduped[0].name, "PostgreSQL");
    assert_eq!(deduped[0].ring, "adopt");
}

#[test]
fn deduplicate_keeps_related_but_distinct_products() {
    let blips = vec![blip("Redis", "adopt"), blip("RedisInsight", "trial")];

    let deduped = deduplicate(blips);
    let names: Vec<_> = deduped.into_iter().map(|b| b.name).collect();

    assert_eq!(names, vec!["Redis", "RedisInsight"]);
}

#[test]
fn normalize_blip_fills_missing_canonical_name() {
    let normalized = normalize_blip(blip("React.js", "trial"));

    assert_eq!(normalized.canonical_name, "reactjs");
    assert_eq!(normalized.kind, "");
}

#[test]
fn algorithm_kind_normalizes_to_method() {
    assert_eq!(normalize_kind("algorithm"), "method");
    assert_eq!(normalize_kind("Algorithms"), "method");
}

#[test]
fn project_mode_filters_method_items() {
    let mut tool = blip("vLLM", "adopt");
    tool.kind = "tool".to_string();
    let mut method = blip("RAG", "trial");
    method.kind = "method".to_string();

    let filtered = filter_blips_for_mode(vec![tool, method], RadarMode::Project);
    let names: Vec<_> = filtered.into_iter().map(|b| b.name).collect();

    assert_eq!(names, vec!["vLLM"]);
}

#[test]
fn method_mode_filters_product_items_and_clears_project_fields() {
    let mut tool = blip("vLLM", "adopt");
    tool.kind = "tool".to_string();
    let mut method = blip("Speculative Decoding", "trial");
    method.kind = "algorithm".to_string();
    method.is_open_source = true;
    method.license = "Apache 2.0".to_string();
    method.github_repo = "example/repo".to_string();

    let filtered = filter_blips_for_mode(vec![tool, normalize_blip(method)], RadarMode::Method);

    assert_eq!(filtered.len(), 1);
    assert_eq!(filtered[0].name, "Speculative Decoding");
    assert_eq!(filtered[0].kind, "method");
    assert!(!filtered[0].is_open_source);
    assert!(filtered[0].license.is_empty());
    assert!(filtered[0].github_repo.is_empty());
}

#[test]
fn deduplicate_merges_exact_canonical_name_across_inconsistent_kinds() {
    let mut database = blip("Redis", "adopt");
    database.canonical_name = "redis".to_string();
    database.kind = "database".to_string();

    let mut tool = blip("Redis", "trial");
    tool.canonical_name = "redis".to_string();
    tool.kind = "tool".to_string();

    let deduped = deduplicate(vec![normalize_blip(database), normalize_blip(tool)]);

    assert_eq!(deduped.len(), 1);
    assert_eq!(deduped[0].name, "Redis");
    assert_eq!(deduped[0].ring, "adopt");
}

#[test]
fn downgrade_ring_stops_at_hold() {
    assert_eq!(downgrade_ring("assess", 2), "hold");
    assert_eq!(downgrade_ring("hold", 1), "hold");
}

fn at(secs: i64) -> Timestamp {
    Timestamp { secs, nanos: 0 }
}

fn repo(name: &str, full: &str, pushed: &str) -> RepoInfo {
    RepoInfo { name: name.to_string(), full_name: full.to_string(), pushed_at: pushed.to_string() }
}

#[test]
fn keys_are_letters_and_digits_in_lowercase() {
    assert_eq!(key("React.JS 18"), "reactjs18");
    assert_eq!(canonicalize_key("golang"), "go");
    assert_eq!(canonicalize_key("dotnetcore"), "net");
    assert_eq!(canonicalize_key("mssql"), "sqlserver");
    assert_eq!(canonicalize_key("rust"), "rust");
    assert_eq!(canonical_key("K8s"), "kubernetes");
    assert_eq!(canonical_tokens("The K8s and Go-Lang"), vec!["kubernetes", "go", "lang"]);
}

#[test]
fn ranks_of_rings() {
    assert_eq!(ring_rank("adopt"), 0);
    assert_eq!(ring_rank("trial"), 1);
    assert_eq!(ring_rank("assess"), 2);
    assert_eq!(ring_rank("hold"), 3);
    assert_eq!(ring_rank("?"), 2);
    assert!(prefer_display_name(&blip("Kubernetes", "hold"), &blip("k8s", "adopt")));
    assert!(prefer_display_name(&blip("abc", "adopt"), &blip("xyz", "trial")));
    assert!(!prefer_display_name(&blip("abc", "trial"), &blip("xyz", "trial")));
}

#[test]
fn kinds_that_are_not_known_are_empty() {
    assert_eq!(normalize_kind("  Tool "), "tool");
    assert_eq!(normalize_kind("gadget"), "");
    let mut b = blip("X", "adopt");
    b.kind = "LIBRARY".to_string();
    assert_eq!(effective_kind(&b), "library");
    b.canonical_name = " PostgreSQL ".to_string();
    assert_eq!(effective_canonical_name(&b), "postgres");
}

#[test]
fn irregular_rings_and_quadrants_are_mended() {
    let mut b = blip("  X ", " ADOPT ");
    b.quadrant = "Q9".to_string();
    let n = normalize_blip(b);
    assert_eq!(n.name, "X");
    assert_eq!(n.ring, "adopt");
    assert_eq!(n.quadrant, "q1");
    let n = normalize_blip(blip("X", "soon"));
    assert_eq!(n.ring, "assess");
    assert_eq!(normalize_all(vec![blip("X", "soon")])[0].ring, "assess");
}

#[test]
fn items_of_different_kinds_with_the_same_words_stay_apart() {
    let mut a = blip("Data Flow", "trial");
    a.canonical_name = "dataflow".to_string();
    a.kind = "tool".to_string();
    let mut b = blip("Flow Data", "trial");
    b.canonical_name = "flowdata".to_string();
    b.kind = "model".to_string();
    assert!(!is_duplicate(&a, &b));
    b.kind = "tool".to_string();
    assert!(is_duplicate(&a, &b));
    assert_eq!(deduplicate(vec![a, b]).len(), 1);
}

#[test]
fn showing_items_twice_changes_nothing() {
    let once = filter_blips_for_mode(vec![blip("A", "adopt"), blip("B", "hold")], RadarMode::Method);
    let names: Vec<String> = once.iter().map(|b| format!("{}{}", b.name, b.kind)).collect();
    let twice = filter_blips_for_mode(once, RadarMode::Method);
    assert_eq!(names, twice.iter().map(|b| format!("{}{}", b.name, b.kind)).collect::<Vec<String>>());
}

#[test]
fn modes_have_names() {
    assert_eq!(RadarMode::Project.cache_key(), "project");
    assert_eq!(RadarMode::Method.cache_key(), "method");
    assert_eq!(RadarMode::Project.title(), "專案雷達");
    assert_eq!(RadarMode::Method.item_label(), "方法");
    assert!(RadarMode::Project.shows_source_icon());
    assert!(!RadarMode::Method.shows_source_icon());
    assert!(RadarMode::Project.accepts_kind("tool"));
    assert!(!RadarMode::Method.accepts_kind("tool"));
    assert_eq!(RadarMode::Project.fallback_kind(), "tool");
}

#[test]
fn rings_are_lowered_by_idle_time() {
    let mut b = blip("X", "trial");
    adjust_blip(&mut b, "o/x", 423);
    assert_eq!(b.ring, "hold");
    assert_eq!(b.rationale, "\n⚠️ GitHub 最後更新 423 天前，活躍度極低，從 TRIAL 下調兩級。");
    assert_eq!(b.github_repo, "o/x");
    assert_eq!(b.github_days, Some(423));
    let mut b = blip("X", "adopt");
    adjust_blip(&mut b, "o/x", 181);
    assert_eq!(b.ring, "trial");
    assert_eq!(b.rationale, "\n⚠️ GitHub 最後更新 181 天前，活躍度偏低，從 ADOPT 下調一級。");
    let mut b = blip("X", "adopt");
    adjust_blip(&mut b, "o/x", 180);
    assert_eq!(b.ring, "adopt");
    assert_eq!(b.rationale, "");
}

#[test]
fn the_best_repository_has_the_name_and_is_the_least_idle() {
    // 2025-01-01
    let now = at(1735689600);
    let repos = vec![
        repo("other", "a/other", "2024-12-31T00:00:00Z"),
        repo("redis", "old/redis", "2020-01-01T00:00:00Z"),
        repo("redis-io", "redis/redis-io", "2024-12-01T00:00:00Z"),
        repo("redis", "broken/redis", "soon"),
        repo("redis", "future/redis", "2030-01-01T00:00:00Z"),
    ];
    assert_eq!(best_repo(&repos, "Redis", now), 2);
}

#[test]
fn activity_is_applied_to_all_or_none() {
    let now = at(1735689600);
    let fresh = || vec![blip("Redis", "adopt"), blip("Valkey", "trial")];
    let mut blips = fresh();
    let found = ActivityLookup::Found(vec![repo("redis", "redis/redis", "2023-01-01T00:00:00Z")]);
    assert!(check_oss_activity(&mut blips, &vec![found, ActivityLookup::Nothing], now));
    assert_eq!(blips[0].ring, "assess");
    assert_eq!(blips[0].github_days, Some(731));
    assert_eq!(blips[1].ring, "trial");
    let mut blips = fresh();
    let found = ActivityLookup::Found(vec![repo("redis", "redis/redis", "2023-01-01T00:00:00Z")]);
    assert!(!check_oss_activity(&mut blips, &vec![found, ActivityLookup::RateLimited], now));
    assert_eq!(blips[0].ring, "adopt");
    assert_eq!(blips[0].github_days, None);
    let mut closed = blip("X", "adopt");
    closed.is_open_source = false;
    assert!(!needs_check(&closed));
    assert!(!needs_check(&blip("", "adopt")));
    assert_eq!(
        activity_url("A B"),
        "https://api.github.com/search/repositories?q=A+B+in:name&sort=stars&order=desc&per_page=5"
    );
}

#[test]
fn radars_without_names_have_the_usual_ones() {
    let (names, blips) = extract_blips(None, RadarMode::Method);
    assert!(blips.is_empty());
    assert_eq!(names.name_of("q1"), "演算法");
    assert_eq!(names.name_of("q4"), "評估方法");
    assert_eq!(default_quadrant_names(RadarMode::Project).name_of("q2"), "框架 & 函式庫");
    let r = RadarResponse {
        quadrant_names: vec![("q1".to_string(), "One".to_string())],
        blips: vec![blip("K8s", "Adopt"), blip("Kubernetes", "trial")],
    };
    let (names, blips) = extract_blips(Some(r), RadarMode::Project);
    assert_eq!(names.name_of("q1"), "One");
    assert_eq!(names.name_of("q2"), "q2");
    assert_eq!(blips.len(), 1);
    assert_eq!(blips[0].name, "Kubernetes");
    assert_eq!(blips[0].ring, "adopt");
    assert_eq!(blips[0].kind, "tool");
}

#[test]
fn prompts_name_what_is_asked() {
    let s = RadarSignal {
        title: "o/r".to_string(),
        source: "GitHub".to_string(),
        url: String::new(),
        summary: "fast".to_string(),
    };
    let p = radar_prompt(&vec![s], "LLM", RadarMode::Project, "2026-01-02");
    assert!(p.contains("今天日期：2026-01-02"));
    assert!(p.contains("技術訊號（1 筆）：\n- [GitHub] o/r | fast"));
    assert!(p.contains("「LLM」"));
    let names = QuadrantNames { entries: vec![("q1".to_string(), "One".to_string())] };
    let mut b = blip("X", "adopt");
    b.is_open_source = false;
    let p = review_prompt(&vec![b], &names, "LLM", RadarMode::Method, "2026-01-02");
    assert!(p.contains("目前方法雷達已有 1 個項目：\n  - X | unknown | One | adopt | 閉源"));
    assert!(p.contains("象限定義：\n  q1: One"));
}

#[test]
fn reviews_add_what_is_missing() {
    let (b, o) = review_and_augment(
        vec![blip("A", "adopt")],
        ReviewReply::NoReply("x".to_string()),
        RadarMode::Project,
    );
    assert_eq!(b.len(), 1);
    assert!(matches!(o, ReviewOutcome::Skipped { reason } if reason == "LLM 呼叫失敗: x"));
    let (_, o) = review_and_augment(
        vec![],
        ReviewReply::Unreadable("y".to_string()),
        RadarMode::Project,
    );
    assert!(matches!(o, ReviewOutcome::Skipped { reason } if reason == "JSON 解析失敗: y"));
    let (b, o) = review_and_augment(
        vec![blip("A", "adopt")],
        ReviewReply::Read { satisfied: true, blips: vec![blip("B", "trial")] },
        RadarMode::Project,
    );
    assert_eq!(b.len(), 1);
    assert!(matches!(o, ReviewOutcome::Satisfied));
    let (b, o) = review_and_augment(
        vec![blip("A", "adopt")],
        ReviewReply::Read { satisfied: false, blips: vec![blip("B", "Trial"), blip("a", "hold")] },
        RadarMode::Project,
    );
    assert!(matches!(o, ReviewOutcome::Augmented));
    let names: Vec<String> = b.iter().map(|x| format!("{}/{}", x.name, x.ring)).collect();
    assert_eq!(names, vec!["A/adopt", "B/trial"]);
}

#[test]
fn radars_are_reviewed_twice_at_most() {
    let skipped = ReviewOutcome::Skipped { reason: "x".to_string() };
    assert!(another_round(1, &ReviewOutcome::Augmented));
    assert!(!another_round(2, &ReviewOutcome::Augmented));
    assert!(!another_round(1, &ReviewOutcome::Satisfied));
    assert!(!another_round(1, &skipped));
}

#[test]
fn quadrants_are_each_named_once() {
    for mode in [RadarMode::Project, RadarMode::Method] {
        let names = default_quadrant_names(mode);
        let keys: Vec<&str> = names.entries.iter().map(|e| e.0.as_str()).collect();
        assert_eq!(keys, vec!["q1", "q2", "q3", "q4"]);
        for (key, name) in &names.entries {
            assert_eq!(&names.name_of(key), name);
        }
    }
}

#[test]
fn signals_are_each_there_once() {
    let n = |url: &str| NewsItem {
        title: format!("t {url}"),
        url: url.to_string(),
        source: "GitHub".to_string(),
        published: None,
        description: "d".to_string(),
    };
    let s = signals_from(vec![n("a"), n("b")], vec![n("a"), n("c")]);
    let urls: Vec<String> = s.iter().map(|x| x.url.clone()).collect();
    assert_eq!(urls, vec!["a", "b", "c"]);
    assert_eq!(s[0].summary, "d");
}
