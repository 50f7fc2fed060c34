//! Pages, models and cloud native projects.
use news_lab::fetcher::cncf::{
    candidates_of, choose_candidates, choose_repo, extract_github_repo, is_own_candidate,
    issues_url, keyword_url, level_wanted, lookup_url, parse_project_name, projects_by_keyword,
    repo_name, Candidate, Found, GhRepo, Lookup, TocIssue,
};
use news_lab::fetcher::docs::{
    clean_text, decode_entities, doc_page, extract_nav_links, extract_title, is_nav_link,
    pick_nav_links, url_origin,
};
use news_lab::fetcher::huggingface::{
    is_informative, models_url, number_unit, pick_tags, to_model, to_models, HFApiModel, HFSort,
};
use news_lab::time::Timestamp;

fn strings(v: &[&str]) -> Vec<String> {
    v.iter().map(|s| s.to_string()).collect()
}

#[test]
fn names_of_projects_in_titles() {
    let name = |t: &str| parse_project_name(t);
    assert_eq!(name("[Graduation] Cilium Graduation Application"), Some("Cilium".to_string()));
    assert_eq!(name("Kyverno CNCF Sandbox Application"), Some("Kyverno".to_string()));
    assert_eq!(name("[Sandbox] Foo Sandbox Application"), Some("Foo".to_string()));
    assert_eq!(
        name("Project Moving Levels Checklist: Bar joining CNCF at Incubation level"),
        Some("Bar".to_string())
    );
    assert_eq!(name("Some meeting"), None);
    assert_eq!(name("X Sandbox Application"), None);
    assert_eq!(name("Checklist application"), None);
}

#[test]
fn repositories_of_projects() {
    assert!(is_own_candidate("cilium/cilium"));
    assert!(!is_own_candidate("cncf/x"));
    assert!(!is_own_candidate("o/toc"));
    assert!(!is_own_candidate("alone"));
    let body = "see https://github.com/cncf/toc\nProject Repo(s): https://github.com/cilium/cilium and more";
    assert_eq!(extract_github_repo(body, "Cilium"), Some("cilium/cilium".to_string()));
    assert_eq!(extract_github_repo("nothing", "Cilium"), None);
    assert_eq!(
        extract_github_repo(
            "See https://github.com/foo/bar\nProject Repo(s): https://github.com/acme/widget",
            "Widget"
        ),
        Some("acme/widget".to_string())
    );
    assert_eq!(
        extract_github_repo(
            "See https://github.com/foo/bar\n  project repo: https://github.com/cncf/toc https://github.com/acme/widget",
            "Widget"
        ),
        Some("acme/widget".to_string())
    );
    assert_eq!(
        extract_github_repo("See https://github.com/foo/bar\nProject Repo(s): none", "Widget"),
        Some("foo/bar".to_string())
    );
    assert_eq!(
        choose_repo(&vec![], &strings(&["q/z", "x/foo-bar"]), "Foo Bar"),
        Some("x/foo-bar".to_string())
    );
    assert_eq!(choose_repo(&vec![], &strings(&["cncf/a", "a/b"]), "zzz"), Some("a/b".to_string()));
    assert_eq!(repo_name("o/r"), "r");
    assert_eq!(repo_name("solo"), "solo");
}

fn gh(full: &str) -> GhRepo {
    GhRepo {
        full_name: full.to_string(),
        html_url: format!("https://github.com/{full}"),
        description: None,
        stargazers_count: 7,
        language: Some("Go".to_string()),
        pushed_at: Some("2024-05-06T07:08:09Z".to_string()),
    }
}

fn candidate(name: &str, secs: Option<i64>, hint: Option<&str>) -> Candidate {
    Candidate {
        name: name.to_string(),
        maturity: "sandbox".to_string(),
        accepted_at: secs.map(|secs| Timestamp { secs, nanos: 0 }),
        repo_hint: hint.map(|h| h.to_string()),
    }
}

#[test]
fn candidates_come_from_applications() {
    let issue = |title: &str, body: &str| TocIssue {
        title: title.to_string(),
        body: Some(body.to_string()),
        closed_at: Some("2024-05-06T07:08:09Z".to_string()),
    };
    let c = candidates_of(
        &vec![
            issue("[Sandbox] Kepler Sandbox Application", "https://github.com/sustainable/kepler"),
            issue("Notes", ""),
        ],
        "sandbox",
    );
    assert_eq!(c.len(), 1);
    assert_eq!(c[0].name, "Kepler");
    assert_eq!(c[0].repo_hint, Some("sustainable/kepler".to_string()));
    assert_eq!(c[0].accepted_at.unwrap().secs, 1714979289);
    assert!(issues_url("level%2Fsandbox").contains("labels=level%2Fsandbox&sort=updated"));
    assert!(level_wanted("sandbox", None) && level_wanted("sandbox", Some("sandbox")));
    assert!(!level_wanted("sandbox", Some("graduated")));
}

#[test]
fn candidates_are_newest_first_and_differ() {
    let all = vec![
        candidate("Old", Some(1), None),
        candidate("New", Some(9), None),
        candidate("new!", Some(5), None),
        candidate("??", Some(8), None),
        candidate("Undated", None, None),
    ];
    let chosen: Vec<String> = choose_candidates(all, 1).into_iter().map(|c| c.name).collect();
    assert_eq!(chosen, vec!["New", "Old", "Undated"]);
}

#[test]
fn projects_are_found_by_lookups() {
    assert_eq!(lookup_url(&candidate("A", None, Some("o/r"))), "https://api.github.com/repos/o/r");
    assert_eq!(
        lookup_url(&candidate("A B", None, None)),
        "https://api.github.com/search/repositories?q=A+B+in:name&sort=stars&order=desc&per_page=3"
    );
    let reply = |status, repo| Lookup::Replied { status, repo };
    let mut f = Found::new();
    f.take(candidate("A", Some(3), Some("o/a")), reply(200, Some(gh("o/a"))), 2);
    f.take(candidate("B", None, Some("o/b")), reply(404, Some(gh("o/b"))), 2);
    f.take(candidate("C", None, None), Lookup::NotSent, 2);
    assert!(f.wants_more(2));
    f.take(candidate("D", None, None), reply(500, Some(gh("o/d"))), 2);
    assert!(!f.wants_more(2));
    f.take(candidate("E", None, None), reply(200, Some(gh("o/e"))), 2);
    let names: Vec<String> = f.projects.iter().map(|p| p.name.clone()).collect();
    assert_eq!(names, vec!["A", "D"]);
    assert_eq!(f.projects[0].stars, 7);
    assert_eq!(f.projects[0].last_updated.unwrap().secs, 1714979289);
    let mut f = Found::new();
    f.take(candidate("A", None, None), reply(403, None), 2);
    assert!(f.stopped && !f.wants_more(2));
}

#[test]
fn projects_by_a_keyword() {
    assert_eq!(
        keyword_url("service mesh", 50),
        "https://api.github.com/search/repositories?q=service+mesh topic:cncf&sort=stars&order=desc&per_page=30"
    );
    let p = projects_by_keyword(vec![gh("o/a"), gh("o/b")], 1);
    assert_eq!(p.len(), 1);
    assert_eq!(p[0].name, "a");
    assert_eq!(p[0].maturity, "");
    assert_eq!(p[0].description, "");
}

#[test]
fn titles_of_pages() {
    assert_eq!(extract_title("<TITLE lang=x> A &amp; <b>B</b> </TITLE>"), "A & B");
    assert_eq!(extract_title("none"), "");
    assert_eq!(decode_entities("&mdash;&ndash;&hellip;&nbsp;&apos;"), "—–… '");
}

#[test]
fn links_of_pages() {
    assert_eq!(url_origin("https://e.com/a/b"), "https://e.com");
    assert_eq!(url_origin("http://e.com"), "http://e.com");
    assert_eq!(url_origin("e.com/x"), "e.com");
    assert!(is_nav_link("/docs", "https://e.com"));
    assert!(is_nav_link("https://e.com/docs", "https://e.com"));
    assert!(!is_nav_link("https://o.com", "https://e.com"));
    assert!(!is_nav_link("/logo.PNG", "https://e.com"));
    assert!(!is_nav_link("#top", "https://e.com"));
    assert!(!is_nav_link("mailto:x", "https://e.com"));
    let html = r#"<a href="/a">A</a><a HREF='/b'>B</a><a href="/a">again</a><a href="https://o.com/">o</a>"#;
    assert_eq!(extract_nav_links(html, "https://e.com/x"), vec!["/a", "/b"]);
    let many: Vec<String> = (0..40).map(|i| format!("/{i}")).collect();
    assert_eq!(pick_nav_links(&many, "https://e.com").len(), 30);
}

#[test]
fn texts_of_pages() {
    let html = "<nav>menu</nav><p>One   two</p><div>Three &lt; four</div><script>x()</script>";
    assert_eq!(clean_text(html), "One two\n\nThree < four");
    let mut bytes = b"<title>T</title><a href=\"/n\">".to_vec();
    bytes.extend("é".repeat(200_000).into_bytes());
    let page = doc_page("https://e.com/d", &bytes);
    assert_eq!(page.title, "T");
    assert_eq!(page.url, "https://e.com/d");
    assert_eq!(page.nav_links, vec!["/n"]);
    assert_eq!(page.text.chars().count(), 6000);
}

#[test]
fn models_of_a_reply() {
    assert_eq!(HFSort::Trending.as_param(), "trendingScore");
    assert_eq!(HFSort::Downloads.as_param(), "downloads");
    assert_eq!(
        models_url(HFSort::Likes, 20),
        "https://huggingface.co/api/models?sort=likes&direction=-1&limit=20"
    );
    assert!(is_informative("text-generation"));
    assert!(!is_informative("license:mit"));
    assert!(!is_informative("pytorch"));
    assert!(!is_informative(&"x".repeat(40)));
    let tags = strings(&["license:mit", "a", "b", "tf", "c", "d", "e", "f", "g"]);
    assert_eq!(pick_tags(&tags), vec!["a", "b", "c", "d", "e", "f"]);
    let raw = HFApiModel {
        id: "o/m".to_string(),
        downloads: 5,
        likes: 6,
        pipeline_tag: None,
        tags,
        last_modified: Some("2024-05-06T07:08:09.000Z".to_string()),
    };
    let m = to_model(raw);
    assert_eq!(m.url, "https://huggingface.co/o/m");
    assert_eq!(m.pipeline_tag, "unknown");
    assert_eq!(m.last_modified.unwrap().secs, 1714979289);
    assert!(to_models(vec![]).is_empty());
    assert_eq!(number_unit(999), None);
    assert_eq!(number_unit(1000), Some((1000, 'K')));
    assert_eq!(number_unit(2_000_000), Some((1_000_000, 'M')));
    assert_eq!(number_unit(u64::MAX), Some((1_000_000_000, 'B')));
}
