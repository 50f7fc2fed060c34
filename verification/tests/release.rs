//! Releases of a repository.
use news_lab::fetcher::release::{
    buffer_is_sufficient, is_major_release, normalise_repo, page_url, parse_version,
    pick_releases, prefer_non_slash, take_page, to_release_item, GHRelease,
};


fn make_release(tag: &str) -> GHRelease {
    GHRelease {
        tag_name: tag.to_string(),
        name: String::new(),
        body: String::new(),
        html_url: String::new(),
        published_at: None,
        prerelease: false,
        draft: false,
    }
}


#[test]
fn mixed_tags_prefer_non_slash() {
    let releases = vec![
        make_release("helm-chart/1.20.0"),
        make_release("airflow-ctl/0.1.3"),
        make_release("2.10.4"),
    ];
    assert!(prefer_non_slash(&releases));
}

#[test]
fn all_slash_tags_do_not_filter() {
    let releases = vec![
        make_release("release/1.2.3"),
        make_release("release/1.2.2"),
    ];
    assert!(!prefer_non_slash(&releases));
}

#[test]
fn all_non_slash_tags_do_not_filter() {
    let releases = vec![make_release("v1.2.3"), make_release("v1.2.2")];
    assert!(!prefer_non_slash(&releases));
}


#[test]
fn buffer_sufficient_non_slash_only() {
    let releases: Vec<GHRelease> = (0..5)
        .map(|i| make_release(&format!("v1.0.{}", i + 1)))
        .chain(std::iter::once(make_release("v2.0.0")))
        .collect();
    // No slash tags → skip_slash = false
    assert!(buffer_is_sufficient(&releases, false));
}

#[test]
fn buffer_insufficient_missing_major() {
    let releases: Vec<GHRelease> = (0..5)
        .map(|i| make_release(&format!("v1.0.{}", i + 1)))
        .collect();
    assert!(!buffer_is_sufficient(&releases, false));
}

#[test]
fn buffer_sufficient_with_slash_filter() {
    // Mix: 5 slash sub-component + 5 non-slash minor + 1 non-slash major
    let mut releases: Vec<GHRelease> = (0..5)
        .map(|i| make_release(&format!("sub/1.0.{}", i)))
        .collect();
    releases.extend((1..=5).map(|i| make_release(&format!("v1.0.{}", i))));
    releases.push(make_release("v2.0.0"));
    // skip_slash = true → should count only non-slash items
    assert!(buffer_is_sufficient(&releases, true));
}

#[test]
fn buffer_insufficient_when_slash_filtered_out() {
    // Only slash-tagged releases; with skip_slash=true the buffer looks empty.
    let releases: Vec<GHRelease> = (0..10)
        .map(|i| make_release(&format!("sub/1.0.{}", i)))
        .collect();
    assert!(!buffer_is_sufficient(&releases, true));
}


#[test]
fn strategy_flips_when_non_slash_appears() {
    // Simulate: page 1 = all slash, page 2 adds a non-slash tag.
    let mut buffer: Vec<GHRelease> = (0..5)
        .map(|i| make_release(&format!("helm-chart/1.{}.0", i)))
        .collect();
    // After page 1: only slash → strategy not yet "prefer non-slash"
    assert!(!prefer_non_slash(&buffer));

    // Page 2 arrives with a non-slash release
    buffer.push(make_release("2.10.4"));
    // Now strategy should flip
    assert!(prefer_non_slash(&buffer));
}


#[test]
fn normalise_bare() {
    assert_eq!(normalise_repo("owner/repo"), "owner/repo");
}

#[test]
fn normalise_https_url() {
    assert_eq!(
        normalise_repo("https://github.com/owner/repo"),
        "owner/repo"
    );
}

#[test]
fn normalise_git_suffix() {
    assert_eq!(
        normalise_repo("https://github.com/owner/repo.git"),
        "owner/repo"
    );
}

#[test]
fn normalise_query_fragment() {
    assert_eq!(
        normalise_repo("https://github.com/owner/repo?tab=readme-ov-file"),
        "owner/repo"
    );
    assert_eq!(
        normalise_repo("https://github.com/owner/repo#readme"),
        "owner/repo"
    );
}

#[test]
fn normalise_trailing_slash() {
    assert_eq!(
        normalise_repo("https://github.com/owner/repo/"),
        "owner/repo"
    );
}

#[test]
fn normalise_sub_path_ignored() {
    assert_eq!(
        normalise_repo("https://github.com/owner/repo/tree/main"),
        "owner/repo"
    );
}


#[test]
fn major_release_detection() {
    assert!(is_major_release("v2.0.0"));
    assert!(is_major_release("v3.0"));
    assert!(!is_major_release("v1.2.0"));
    assert!(!is_major_release("v1.0.1"));
    assert!(!is_major_release("v1.2.3"));
}

#[test]
fn versions_have_three_numbers() {
    assert_eq!(parse_version("v1.2.3"), Some((1, 2, 3)));
    assert_eq!(parse_version("release-1.2"), Some((1, 2, 0)));
    assert_eq!(parse_version("7"), Some((7, 0, 0)));
    assert_eq!(parse_version("v1.2.3-rc1"), Some((1, 2, 3)));
    assert_eq!(parse_version("1.x.3"), Some((1, 3, 0)));
    assert_eq!(parse_version("latest"), None);
    assert_eq!(parse_version("99999999999999999999"), None);
}

#[test]
fn releases_without_a_name_show_their_tag() {
    let mut r = make_release("v2.0.0");
    r.name = "  ".to_string();
    r.published_at = Some("2024-05-06T07:08:09Z".to_string());
    r.body = "x".repeat(3000);
    let item = to_release_item(r);
    assert_eq!(item.name, "v2.0.0");
    assert!(item.is_major);
    assert_eq!(item.body.len(), 2000);
    assert_eq!(item.published.unwrap().secs, 1714979289);
}

#[test]
fn pages_are_read_until_enough_is_known() {
    let mut buffer = Vec::new();
    let mut page: Vec<GHRelease> = (1..=50).map(|i| make_release(&format!("v1.2.{i}"))).collect();
    page[0].draft = true;
    page[1].prerelease = true;
    assert!(!take_page(&mut buffer, page, 1));
    assert_eq!(buffer.len(), 48);
    let second: Vec<GHRelease> = (0..50).map(|i| make_release(&format!("v{}.0.0", i + 1))).collect();
    assert!(take_page(&mut buffer, second, 2));
    let mut slashed = Vec::new();
    let only: Vec<GHRelease> = (0..50).map(|i| make_release(&format!("sub/{}.0.0", i))).collect();
    assert!(!take_page(&mut slashed, only, 9));
    let only: Vec<GHRelease> = (0..50).map(|i| make_release(&format!("sub/{}.1.0", i))).collect();
    assert!(take_page(&mut slashed, only, 10));
    let mut short = Vec::new();
    assert!(take_page(&mut short, vec![make_release("v1.1.1")], 1));
}

#[test]
fn further_pages_do_not_change_what_is_picked() {
    let first = || -> Vec<GHRelease> {
        let mut v: Vec<GHRelease> = (1..=6).map(|i| make_release(&format!("v1.2.{i}"))).collect();
        v.push(make_release("v1.0.0"));
        v
    };
    let a = pick_releases(first());
    let mut longer = first();
    longer.push(make_release("sub/9.0.0"));
    longer.push(make_release("v3.0.0"));
    let b = pick_releases(longer);
    let tags = |v: &Vec<news_lab::fetcher::release::ReleaseItem>| {
        v.iter().map(|r| r.tag_name.clone()).collect::<Vec<String>>()
    };
    assert_eq!(tags(&a.minor_releases), vec!["v1.2.1", "v1.2.2", "v1.2.3", "v1.2.4", "v1.2.5"]);
    assert_eq!(tags(&a.minor_releases), tags(&b.minor_releases));
    assert_eq!(a.major_release.unwrap().tag_name, "v1.0.0");
    assert_eq!(b.major_release.unwrap().tag_name, "v1.0.0");
}

#[test]
fn page_addresses() {
    assert_eq!(
        page_url("owner/repo", 3),
        "https://api.github.com/repos/owner/repo/releases?per_page=50&page=3"
    );
}

#[test]
fn names_without_a_slash_are_kept() {
    assert_eq!(normalise_repo("  kubernetes/ "), "kubernetes");
    assert_eq!(normalise_repo("github.com/o/r.git.git"), "o/r");
}
