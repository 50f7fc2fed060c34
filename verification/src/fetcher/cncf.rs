//! Projects of the Cloud Native Computing Foundation.
use vstd::prelude::*;
use crate::fetcher::tech;
use crate::lists;
use crate::number;
use crate::order;
use crate::order::Entry;
use crate::pattern;
use crate::percent;
use crate::text;
use crate::text::same;
use crate::time;
use crate::time::Timestamp;
use crate::unicode;

verus! {

/// A project.
#[derive(Debug, Clone)]
pub struct CNCFProject {
    pub name: String,
    /// Owner and repository on GitHub.
    pub full_name: String,
    /// The address on GitHub.
    pub url: String,
    pub description: String,
    pub stars: u64,
    pub language: Option<String>,
    pub last_updated: Option<Timestamp>,
    /// "graduated", "incubating" or "sandbox"; empty where it is not known.
    pub maturity: String,
    pub accepted_at: Option<Timestamp>,
}

/// A project, by its texts.
pub struct Project {
    pub name: Seq<char>,
    pub full_name: Seq<char>,
    pub url: Seq<char>,
    pub description: Seq<char>,
    pub stars: u64,
    pub language: Option<Seq<char>>,
    pub last_updated: Option<Timestamp>,
    pub maturity: Seq<char>,
    pub accepted_at: Option<Timestamp>,
}

impl View for CNCFProject {
    type V = Project;

    open spec fn view(&self) -> Project {
        Project {
            name: self.name@,
            full_name: self.full_name@,
            url: self.url@,
            description: self.description@,
            stars: self.stars,
            language: text::opt(self.language),
            last_updated: self.last_updated,
            maturity: self.maturity@,
            accepted_at: self.accepted_at,
        }
    }
}

/// An issue in which a project applies.
pub struct TocIssue {
    pub title: String,
    pub body: Option<String>,
    pub closed_at: Option<String>,
}

/// A repository on GitHub.
pub struct GhRepo {
    pub full_name: String,
    pub html_url: String,
    pub description: Option<String>,
    pub stargazers_count: u64,
    pub language: Option<String>,
    pub pushed_at: Option<String>,
}

// ── Names ──────────────────────────────────────────────────────────────────────

/// The marks before a project's name in a title.
pub const LEVEL_PREFIXES: [&'static str; 3] = ["[Graduation] ", "[Incubation] ", "[Sandbox] "];

/// The words behind a project's name in a title, longer ones before those that they end with.
pub const LEVEL_SUFFIXES: [&'static str; 6] = [
    " Graduation Application",
    " Incubation Application",
    " CNCF Sandbox Application",
    " Sandbox Application",
    " graduation application",
    " incubation application",
];

/// The words at which a project's name ends in a title.
pub const JOINING_MARKS: [&'static str; 3] = [" joining CNCF", " joins CNCF", " to join CNCF"];

/// A text without the first of some suffixes that it ends with.
pub open spec fn one_suffix_off(s: Seq<char>, suffixes: Seq<Seq<char>>) -> Seq<char>
    decreases suffixes.len(),
{
    if suffixes.len() == 0 {
        s
    } else {
        match text::before_suffix(s, suffixes[0]) {
            Some(x) => x,
            None => one_suffix_off(s, suffixes.skip(1)),
        }
    }
}

/// What stands in a text before the first of some marks that it holds.
pub open spec fn before_mark(s: Seq<char>, marks: Seq<Seq<char>>) -> Seq<char>
    decreases marks.len(),
{
    if marks.len() == 0 {
        s
    } else {
        match text::find(s, marks[0]) {
            Some(i) => s.take(i),
            None => before_mark(s, marks.skip(1)),
        }
    }
}

/// Removes the first of some suffixes that a text ends with.
fn strip_one_suffix(s: &str, suffixes: &[&str]) -> (r: String)
    ensures
        r@ == one_suffix_off(s@, text::str_views(suffixes@)),
{
    let ghost all = text::str_views(suffixes@);
    let mut i: usize = 0;
    assert(all.skip(0) =~= all);
    while i < suffixes.len()
        invariant
            i <= suffixes@.len(),
            all == text::str_views(suffixes@),
            one_suffix_off(s@, all) == one_suffix_off(s@, all.skip(i as int)),
        decreases suffixes.len() - i,
    {
        assert(all.skip(i as int).skip(1) =~= all.skip(i + 1));
        if let Some(x) = text::strip_suffix(s, suffixes[i]) {
            return x;
        }
        i += 1;
    }
    s.to_owned()
}

/// Cuts a text at the first of some marks that it holds.
fn cut_at_mark(s: &str, marks: &[&str]) -> (r: String)
    ensures
        r@ == before_mark(s@, text::str_views(marks@)),
{
    let v = text::chars_of(s);
    let ghost all = text::str_views(marks@);
    let mut i: usize = 0;
    assert(all.skip(0) =~= all);
    while i < marks.len()
        invariant
            i <= marks@.len(),
            v@ == s@,
            all == text::str_views(marks@),
            before_mark(s@, all) == before_mark(s@, all.skip(i as int)),
        decreases marks.len() - i,
    {
        assert(all.skip(i as int).skip(1) =~= all.skip(i + 1));
        let m = text::chars_of(marks[i]);
        if let Some(k) = text::find_chars(&v, &m, 0) {
            let r = text::string_of(&v, 0, k);
            assert(r@ =~= s@.take(k as int));
            return r;
        }
        i += 1;
    }
    s.to_owned()
}

/// Whether a title is that of an application.
pub open spec fn is_application(title: Seq<char>) -> bool {
    let t = unicode::lowercase(title);
    text::holds(t, "application"@) || text::holds(t, "joining cncf"@)
}

/// What is left of a title without the words round the project's name.
pub open spec fn bare_title(title: Seq<char>) -> Seq<char> {
    let a = text::one_prefix_off(title, text::str_views(LEVEL_PREFIXES@));
    let b = one_suffix_off(a, text::str_views(LEVEL_SUFFIXES@));
    let c = match text::after_prefix(b, "Project Moving Levels Checklist: "@) {
        Some(x) => x,
        None => b,
    };
    text::trimmed(before_mark(c, text::str_views(JOINING_MARKS@)))
}

/// The name of the project that applies; `None` where the title is not that of an application,
/// or what is left has less than two bytes or is that of a checklist.
pub open spec fn project_name(title: Seq<char>) -> Option<Seq<char>> {
    let name = bare_title(title);
    if !is_application(title) || text::byte_count(name) < 2 || text::holds(
        unicode::lowercase(name),
        "checklist"@,
    ) {
        None
    } else {
        Some(name)
    }
}

/// The name of the project that applies.
pub fn parse_project_name(title: &str) -> (r: Option<String>)
    ensures
        text::opt(r) == project_name(title@),
{
    let tl = title.to_lowercase();
    if !(text::contains(&tl, "application") || text::contains(&tl, "joining cncf")) {
        return None;
    }
    let a = text::strip_one_prefix(title, &LEVEL_PREFIXES);
    let b = strip_one_suffix(&a, &LEVEL_SUFFIXES);
    let c = match text::strip_prefix(&b, "Project Moving Levels Checklist: ") {
        Some(x) => x,
        None => b,
    };
    let name = text::trim(&cut_at_mark(&c, &JOINING_MARKS));
    if text::byte_len(&name) < 2 || text::contains(&name.to_lowercase(), "checklist") {
        return None;
    }
    Some(name)
}

// ── Repositories ───────────────────────────────────────────────────────────────

/// The repositories that are never a project's own.
pub const SKIPPED_REPOS: [&'static str; 6] = [
    "toc",
    "landscape",
    ".github",
    "artwork",
    "foundation",
    "cncf",
];

/// Whether a repository may be a project's own: it has an owner, who is not the foundation, and
/// its name is not one of those that are passed over.
pub open spec fn may_be_own(full: Seq<char>) -> bool {
    match text::split_at_first(full, '/') {
        Some(p) => p.0 != "cncf"@ && !text::str_views(SKIPPED_REPOS@).contains(p.1),
        None => false,
    }
}

/// Whether a repository may be a project's own.
pub fn is_own_candidate(full: &str) -> (r: bool)
    ensures
        r == may_be_own(full@),
{
    match text::split_once(full, '/') {
        Some(p) => !same(&p.0, "cncf") && !text::is_one_of(&p.1, &SKIPPED_REPOS),
        None => false,
    }
}

/// Whether one of two texts stands in the other.
pub open spec fn overlap(a: Seq<char>, b: Seq<char>) -> bool {
    text::holds(a, b) || text::holds(b, a)
}

/// Whether the owner's or the repository's name and the project's name overlap; `key` is the
/// project's name in lowercase letters and digits.
pub open spec fn names_match(full: Seq<char>, key: Seq<char>) -> bool {
    match text::split_at_first(full, '/') {
        Some(p) => overlap(unicode::lowered_alphanumerics(p.1), key) || overlap(
            unicode::lowered_alphanumerics(p.0),
            key,
        ),
        None => false,
    }
}

/// Whether a repository's name and the project's name overlap.
fn repo_matches(full: &str, key: &str) -> (r: bool)
    ensures
        r == names_match(full@, key@),
{
    match text::split_once(full, '/') {
        Some(p) => {
            let repo = unicode::normalize_text(&p.1);
            let owner = unicode::normalize_text(&p.0);
            text::contains(&repo, key) || text::contains(key, &repo) || text::contains(&owner, key)
                || text::contains(key, &owner)
        },
        None => false,
    }
}

/// The repository of a project among links: the first on a line that may be the project's own;
/// or else the first of all that may be and whose name matches; or else the first of all that
/// may be.
pub open spec fn chosen_repo(
    line_links: Seq<Seq<char>>,
    links: Seq<Seq<char>>,
    key: Seq<char>,
) -> Option<Seq<char>> {
    match text::first_such(line_links, |f: Seq<char>| may_be_own(f)) {
        Some(x) => Some(x),
        None => match text::first_such(
            links,
            |f: Seq<char>| may_be_own(f) && names_match(f, key),
        ) {
            Some(x) => Some(x),
            None => text::first_such(links, |f: Seq<char>| may_be_own(f)),
        },
    }
}

/// The first link that may be a project's own.
fn first_own(links: &Vec<String>) -> (r: Option<String>)
    ensures
        text::opt(r) == text::first_such(text::views(links@), |f: Seq<char>| may_be_own(f)),
{
    let ghost all = text::views(links@);
    let ghost p = |f: Seq<char>| may_be_own(f);
    let mut i: usize = 0;
    while i < links.len()
        invariant
            i <= links@.len(),
            all == text::views(links@),
            p == (|f: Seq<char>| may_be_own(f)),
            forall|j: int| 0 <= j < i ==> !p(#[trigger] all[j]),
        decreases links.len() - i,
    {
        if is_own_candidate(&links[i]) {
            proof {
                text::first_such_skips(all, p, i as int);
                assert(all.skip(i as int)[0] == all[i as int]);
            }
            return Some(links[i].clone());
        }
        i += 1;
    }
    proof {
        text::first_such_skips(all, p, i as int);
    }
    None
}

/// The first link that may be a project's own and whose name matches.
fn first_matching(links: &Vec<String>, key: &str) -> (r: Option<String>)
    ensures
        text::opt(r) == text::first_such(
            text::views(links@),
            |f: Seq<char>| may_be_own(f) && names_match(f, key@),
        ),
{
    let ghost all = text::views(links@);
    let ghost p = |f: Seq<char>| may_be_own(f) && names_match(f, key@);
    let mut i: usize = 0;
    while i < links.len()
        invariant
            i <= links@.len(),
            all == text::views(links@),
            p == (|f: Seq<char>| may_be_own(f) && names_match(f, key@)),
            forall|j: int| 0 <= j < i ==> !p(#[trigger] all[j]),
        decreases links.len() - i,
    {
        if is_own_candidate(&links[i]) && repo_matches(&links[i], key) {
            proof {
                text::first_such_skips(all, p, i as int);
                assert(all.skip(i as int)[0] == all[i as int]);
            }
            return Some(links[i].clone());
        }
        i += 1;
    }
    proof {
        text::first_such_skips(all, p, i as int);
    }
    None
}

/// Chooses the repository of a project among links.
pub fn choose_repo(line_links: &Vec<String>, links: &Vec<String>, project_name: &str) -> (r:
    Option<String>)
    ensures
        text::opt(r) == chosen_repo(
            text::views(line_links@),
            text::views(links@),
            unicode::lowered_alphanumerics(project_name@),
        ),
{
    if let Some(x) = first_own(line_links) {
        return Some(x);
    }
    let key = unicode::normalize_text(project_name);
    if let Some(x) = first_matching(links, &key) {
        return Some(x);
    }
    first_own(links)
}

/// Whether a line may name a project's repository.
pub open spec fn names_repo(line: Seq<char>) -> bool {
    let l = unicode::lowercase(line);
    text::holds(l, "project repo"@) || text::holds(l, "github.com"@)
}

/// The first link of each line that may name a repository.
pub open spec fn links_of_lines(lines: Seq<Seq<char>>) -> Seq<Seq<char>>
    decreases lines.len(),
{
    if lines.len() == 0 {
        Seq::empty()
    } else {
        let r = links_of_lines(lines.drop_last());
        match pattern::first_groups(pattern::GITHUB_REPO@, lines.last()) {
            Some(g) if names_repo(lines.last()) => r.push(pattern::group(g, 0)),
            _ => r,
        }
    }
}

/// The links of a text.
pub open spec fn links_in(body: Seq<char>) -> Seq<Seq<char>> {
    pattern::all_groups(pattern::GITHUB_REPO@, body).map_values(
        |g: Seq<Seq<char>>| pattern::group(g, 0),
    )
}

/// The first link of each line that may name a repository.
fn find_line_links(lines: &Vec<String>) -> (r: Vec<String>)
    ensures
        text::views(r@) == links_of_lines(text::views(lines@)),
{
    let ghost all = text::views(lines@);
    let mut r: Vec<String> = Vec::new();
    let mut i: usize = 0;
    assert(text::views(r@) =~= Seq::empty());
    while i < lines.len()
        invariant
            i <= lines@.len(),
            all == text::views(lines@),
            text::views(r@) == links_of_lines(all.take(i as int)),
        decreases lines.len() - i,
    {
        broadcast use text::views_push;

        proof {
            assert(all.take(i + 1).drop_last() =~= all.take(i as int));
            assert(all.take(i + 1).last() == lines@[i as int]@);
        }
        let l = lines[i].to_lowercase();
        if text::contains(&l, "project repo") || text::contains(&l, "github.com") {
            if let Some(g) = pattern::captures(pattern::GITHUB_REPO, &lines[i]) {
                r.push(pattern::group_at(&g, 0));
            }
        }
        i += 1;
    }
    proof {
        lists::take_all(all);
    }
    r
}

/// Whether a line is the one that an application has for the project's repositories.
pub open spec fn is_repo_line(line: Seq<char>) -> bool {
    text::begins(text::trimmed_start(unicode::lowercase(line)), "project repo"@)
}

/// The links of the lines that an application has for the project's repositories.
pub open spec fn links_of_repo_lines(lines: Seq<Seq<char>>) -> Seq<Seq<char>>
    decreases lines.len(),
{
    if lines.len() == 0 {
        Seq::empty()
    } else {
        let r = links_of_repo_lines(lines.drop_last());
        if is_repo_line(lines.last()) {
            r + links_in(lines.last())
        } else {
            r
        }
    }
}

/// The links of the lines that an application has for the project's repositories.
fn find_repo_line_links(lines: &Vec<String>) -> (r: Vec<String>)
    ensures
        text::views(r@) == links_of_repo_lines(text::views(lines@)),
{
    let ghost all = text::views(lines@);
    let mut r: Vec<String> = Vec::new();
    let mut i: usize = 0;
    assert(text::views(r@) =~= Seq::empty());
    while i < lines.len()
        invariant
            i <= lines@.len(),
            all == text::views(lines@),
            text::views(r@) == links_of_repo_lines(all.take(i as int)),
        decreases lines.len() - i,
    {
        proof {
            assert(all.take(i + 1).drop_last() =~= all.take(i as int));
            assert(all.take(i + 1).last() == lines@[i as int]@);
        }
        if text::starts_with(&text::trim_start(&lines[i].to_lowercase()), "project repo") {
            let mut links = pattern::first_group_of_all(pattern::GITHUB_REPO, &lines[i]);
            let ghost before = r@;
            let ghost more = links@;
            r.append(&mut links);
            assert(text::views(r@) =~= text::views(before) + text::views(more));
        }
        i += 1;
    }
    proof {
        lists::take_all(all);
    }
    r
}

/// The repository of a project in the text of its application: the first on a line for the
/// project's repositories that may be the project's own; or else the one that is chosen among
/// all links.
pub open spec fn repo_in(body: Seq<char>, name: Seq<char>) -> Option<Seq<char>> {
    let lines = text::line_seq(body);
    match text::first_such(links_of_repo_lines(lines), |f: Seq<char>| may_be_own(f)) {
        Some(x) => Some(x),
        None => chosen_repo(
            links_of_lines(lines),
            links_in(body),
            unicode::lowered_alphanumerics(name),
        ),
    }
}

/// The repository of a project in the text of its application.
pub fn extract_github_repo(body: &str, project_name: &str) -> (r: Option<String>)
    ensures
        text::opt(r) == repo_in(body@, project_name@),
{
    let lines = text::lines(body);
    if let Some(x) = first_own(&find_repo_line_links(&lines)) {
        return Some(x);
    }
    let line_links = find_line_links(&lines);
    let links = pattern::first_group_of_all(pattern::GITHUB_REPO, body);
    choose_repo(&line_links, &links, project_name)
}

/// The links of lines for repositories are those that stand on such a line.
proof fn lemma_repo_line_links(lines: Seq<Seq<char>>, x: Seq<char>)
    ensures
        links_of_repo_lines(lines).contains(x) == exists|i: int|
            0 <= i < lines.len() && is_repo_line(#[trigger] lines[i]) && links_in(
                lines[i],
            ).contains(x),
    decreases lines.len(),
{
    if lines.len() > 0 {
        let a = lines.drop_last();
        let old_links = links_of_repo_lines(a);
        let new_links = links_in(lines.last());
        lemma_repo_line_links(a, x);
        if links_of_repo_lines(lines).contains(x) {
            if old_links.contains(x) {
                let i = choose|i: int|
                    0 <= i < a.len() && is_repo_line(#[trigger] a[i]) && links_in(
                        a[i],
                    ).contains(x);
                assert(lines[i] == a[i]);
            } else {
                let k = choose|k: int|
                    0 <= k < links_of_repo_lines(lines).len() && links_of_repo_lines(lines)[k]
                        == x;
                assert(is_repo_line(lines.last()));
                assert(k >= old_links.len()) by {
                    if k < old_links.len() {
                        assert(old_links[k] == x);
                    }
                }
                assert(new_links[k - old_links.len()] == x);
                assert(is_repo_line(lines[lines.len() - 1]));
            }
        }
        if exists|i: int|
            0 <= i < lines.len() && is_repo_line(#[trigger] lines[i]) && links_in(
                lines[i],
            ).contains(x) {
            let i = choose|i: int|
                0 <= i < lines.len() && is_repo_line(#[trigger] lines[i]) && links_in(
                    lines[i],
                ).contains(x);
            if i < a.len() {
                assert(is_repo_line(a[i]));
                let k = choose|k: int| 0 <= k < old_links.len() && old_links[k] == x;
                assert(links_of_repo_lines(lines)[k] == x);
            } else {
                let k = choose|k: int| 0 <= k < new_links.len() && new_links[k] == x;
                assert((old_links + new_links)[old_links.len() + k] == x);
            }
        }
    }
}

/// A line for the project's repositories goes before all other text: where such a line has a link
/// that may be the project's own, the repository comes from such a line, whatever stands before
/// it.
pub proof fn repo_lines_come_first(body: Seq<char>, name: Seq<char>, i: int, x: Seq<char>)
    requires
        0 <= i < text::line_seq(body).len(),
        is_repo_line(text::line_seq(body)[i]),
        links_in(text::line_seq(body)[i]).contains(x),
        may_be_own(x),
    ensures
        repo_in(body, name) matches Some(y) && may_be_own(y) && exists|j: int|
            0 <= j < text::line_seq(body).len() && is_repo_line(
                #[trigger] text::line_seq(body)[j],
            ) && links_in(text::line_seq(body)[j]).contains(y),
{
    let lines = text::line_seq(body);
    let links = links_of_repo_lines(lines);
    let p = |f: Seq<char>| may_be_own(f);
    lemma_repo_line_links(lines, x);
    let k = choose|k: int| 0 <= k < links.len() && links[k] == x;
    text::first_such_is_found(links, p, k);
    lemma_repo_line_links(lines, text::first_such(links, p)->0);
}

// ── Keyword search ─────────────────────────────────────────────────────────────

/// The address of a search for projects by a keyword.
pub fn keyword_url(kw: &str, max: usize) -> (r: String)
    ensures
        r@ == "https://api.github.com/search/repositories?q="@ + percent::query_text(kw@)
            + " topic:cncf"@ + "&sort=stars&order=desc&per_page="@ + number::decimal(
            if max <= 30 {
                max as nat
            } else {
                30
            },
        ),
{
    let n: usize = if max <= 30 {
        max
    } else {
        30
    };
    text::concat5(
        "https://api.github.com/search/repositories?q=",
        &percent::urlencoding(kw),
        " topic:cncf",
        "&sort=stars&order=desc&per_page=",
        &number::usize_text(n),
    )
}

/// The name of a repository without its owner.
pub open spec fn repo_part(full: Seq<char>) -> Seq<char> {
    let parts = text::split(full, seq!['/']);
    if parts.len() > 1 {
        parts[1]
    } else {
        full
    }
}

/// The name of a repository without its owner.
pub fn repo_name(full: &str) -> (r: String)
    ensures
        r@ == repo_part(full@),
{
    let seps = ['/'];
    let parts = text::split_chars(full, &seps);
    assert(seps@ =~= seq!['/']);
    assert(text::views(parts@).len() == parts@.len());
    if parts.len() > 1 {
        assert(text::views(parts@)[1] == parts@[1]@);
        parts[1].clone()
    } else {
        full.to_owned()
    }
}

/// The project that a repository holds.
pub open spec fn project_in(
    repo: GhRepo,
    name: Seq<char>,
    maturity: Seq<char>,
    accepted_at: Option<Timestamp>,
) -> Project {
    Project {
        name,
        full_name: repo.full_name@,
        url: repo.html_url@,
        description: tech::text_or(repo.description, Seq::empty()),
        stars: repo.stargazers_count,
        language: text::opt(repo.language),
        last_updated: match repo.pushed_at {
            Some(d) => time::utc_time(d@),
            None => None,
        },
        maturity,
        accepted_at,
    }
}

/// The project that a repository holds.
fn project_from(repo: GhRepo, name: String, maturity: String, accepted_at: Option<Timestamp>) -> (r:
    CNCFProject)
    ensures
        r@ == project_in(repo, name@, maturity@, accepted_at),
{
    let description = tech::or_text(&repo.description, "");
    let last_updated = match &repo.pushed_at {
        Some(d) => time::parse_utc(d),
        None => None,
    };
    proof {
        reveal_strlit("");
        assert(""@ =~= Seq::empty());
    }
    CNCFProject {
        name,
        full_name: repo.full_name,
        url: repo.html_url,
        description,
        stars: repo.stargazers_count,
        language: repo.language,
        last_updated,
        maturity,
        accepted_at,
    }
}

/// The projects that a search by a keyword found, at most `max`; their maturity is not known.
pub fn projects_by_keyword(repos: Vec<GhRepo>, max: usize) -> (r: Vec<CNCFProject>)
    ensures
        lists::views(r@) == order::cut(repos@, max as nat).map_values(
            |x: GhRepo| project_in(x, repo_part(x.full_name@), Seq::empty(), None),
        ),
        r@.len() == (if repos@.len() <= max {
            repos@.len()
        } else {
            max as nat
        }),
        forall|i: int|
            0 <= i < r@.len() ==> (#[trigger] r@[i]).full_name@ == repos@[i].full_name@ && r@[i].url@
                == repos@[i].html_url@ && r@[i].stars == repos@[i].stargazers_count
                && r@[i].maturity@.len() == 0,
{
    let ghost all = order::cut(repos@, max as nat);
    let ghost f = |x: GhRepo| project_in(x, repo_part(x.full_name@), Seq::empty(), None);
    let mut r: Vec<CNCFProject> = Vec::new();
    let repos = order::truncated(repos, max);
    assert(lists::views(r@) =~= all.take(0).map_values(f));
    for x in it: repos
        invariant
            it.seq() == all,
            f == (|x: GhRepo| project_in(x, repo_part(x.full_name@), Seq::empty(), None)),
            lists::views(r@) == all.take(it.index() as int).map_values(f),
    {
        broadcast use lists::views_push;

        proof {
            let i = it.index() as int;
            assert(all.take(i + 1).map_values(f) =~= all.take(i).map_values(f).push(f(x)));
        }
        let name = repo_name(&x.full_name);
        let p = project_from(x, name, String::new(), None);
        r.push(p);
    }
    proof {
        lists::take_all(all);
        assert(lists::views(r@).len() == r@.len());
        assert forall|i: int| 0 <= i < r@.len() implies (#[trigger] r@[i]).full_name@
            == all[i].full_name@ && r@[i].url@ == all[i].html_url@ && r@[i].stars
            == all[i].stargazers_count && r@[i].maturity@.len() == 0 by {
            assert(lists::views(r@)[i] == f(all[i]));
        }
    }
    r
}

// ── Applications ───────────────────────────────────────────────────────────────

/// The labels of applications, each with the maturity that it stands for.
pub const LEVELS: [(&'static str, &'static str); 3] = [
    ("level%2Fgraduation", "graduated"),
    ("level%2Fincubation", "incubating"),
    ("level%2Fsandbox", "sandbox"),
];

/// Whether the applications of a level are looked at: those of the maturity that is asked for, or
/// all.
pub fn level_wanted(maturity: &str, asked: Option<&str>) -> (r: bool)
    ensures
        r == (match asked {
            Some(m) => m@ == maturity@,
            None => true,
        }),
{
    match asked {
        Some(m) => same(m, maturity),
        None => true,
    }
}

/// The address of the applications with a label.
pub fn issues_url(label: &str) -> (r: String)
    ensures
        r@ == "https://api.github.com/repos/cncf/toc/issues?state=closed&labels="@ + label@
            + "&sort=updated&direction=desc&per_page=50"@,
{
    text::concat3(
        "https://api.github.com/repos/cncf/toc/issues?state=closed&labels=",
        label,
        "&sort=updated&direction=desc&per_page=50",
    )
}

/// A project that applied and was accepted.
pub struct Candidate {
    pub name: String,
    pub maturity: String,
    pub accepted_at: Option<Timestamp>,
    pub repo_hint: Option<String>,
}

/// A project that applied, by its texts.
pub struct Applicant {
    pub name: Seq<char>,
    pub maturity: Seq<char>,
    pub accepted_at: Option<Timestamp>,
    pub repo_hint: Option<Seq<char>>,
}

impl View for Candidate {
    type V = Applicant;

    open spec fn view(&self) -> Applicant {
        Applicant {
            name: self.name@,
            maturity: self.maturity@,
            accepted_at: self.accepted_at,
            repo_hint: text::opt(self.repo_hint),
        }
    }
}

/// Candidates are told apart by the letters and digits of their names, and ordered by their
/// acceptance.
impl Entry for Candidate {
    open spec fn key(&self) -> Seq<char> {
        unicode::lowered_alphanumerics(self.name@)
    }

    open spec fn date(&self) -> Option<Timestamp> {
        self.accepted_at
    }

    fn entry_key(&self) -> (r: String) {
        unicode::normalize_text(&self.name)
    }

    fn entry_date(&self) -> (r: Option<Timestamp>) {
        self.accepted_at
    }
}

/// The candidates among applications, in order: those whose title names a project.
pub open spec fn applicants(issues: Seq<TocIssue>, maturity: Seq<char>) -> Seq<Applicant>
    decreases issues.len(),
{
    if issues.len() == 0 {
        Seq::empty()
    } else {
        let r = applicants(issues.drop_last(), maturity);
        let x = issues.last();
        match project_name(x.title@) {
            Some(name) => r.push(
                Applicant {
                    name,
                    maturity,
                    accepted_at: match x.closed_at {
                        Some(d) => time::utc_time(d@),
                        None => None,
                    },
                    repo_hint: match x.body {
                        Some(b) => repo_in(b@, name),
                        None => None,
                    },
                },
            ),
            None => r,
        }
    }
}

/// The candidates among applications.
pub fn candidates_of(issues: &Vec<TocIssue>, maturity: &str) -> (r: Vec<Candidate>)
    ensures
        lists::views(r@) == applicants(issues@, maturity@),
{
    let ghost all = issues@;
    let mut r: Vec<Candidate> = Vec::new();
    let mut i: usize = 0;
    assert(lists::views(r@) =~= Seq::empty());
    while i < issues.len()
        invariant
            i <= issues@.len(),
            all == issues@,
            lists::views(r@) == applicants(all.take(i as int), maturity@),
        decreases issues.len() - i,
    {
        broadcast use lists::views_push;

        proof {
            assert(all.take(i + 1).drop_last() =~= all.take(i as int));
            assert(all.take(i + 1).last() == issues@[i as int]);
        }
        if let Some(name) = parse_project_name(&issues[i].title) {
            let accepted_at = match &issues[i].closed_at {
                Some(d) => time::parse_utc(d),
                None => None,
            };
            let repo_hint = match &issues[i].body {
                Some(b) => extract_github_repo(b, &name),
                None => None,
            };
            r.push(Candidate { name, maturity: maturity.to_owned(), accepted_at, repo_hint });
        }
        i += 1;
    }
    proof {
        lists::take_all(all);
    }
    r
}

/// The candidates that are looked up, newest first: each name once, none without letters and
/// digits, and at most three for each project that is asked for.
pub open spec fn shortlist(all: Seq<Candidate>, max: nat) -> Seq<Candidate> {
    order::cut(
        order::distinct(order::by_date(all)).filter(|c: Candidate| c.key().len() > 0),
        max * 3,
    )
}

/// Chooses the candidates that are looked up.
pub fn choose_candidates(all: Vec<Candidate>, max: usize) -> (r: Vec<Candidate>)
    requires
        max * 3 <= usize::MAX,
    ensures
        r@ == shortlist(all@, max as nat),
{
    let sorted = order::distinct_entries(order::sort_entries(all));
    let mut flags: Vec<bool> = Vec::new();
    let mut i: usize = 0;
    while i < sorted.len()
        invariant
            i <= sorted@.len(),
            flags@.len() == i,
            forall|j: int| 0 <= j < i ==> #[trigger] flags@[j] == (sorted@[j].key().len() > 0),
        decreases sorted.len() - i,
    {
        flags.push(!text::is_empty(&sorted[i].entry_key()));
        i += 1;
    }
    proof {
        order::kept_is_filter(sorted@, flags@, |c: Candidate| c.key().len() > 0);
    }
    order::truncated(order::keep(sorted, &flags), max * 3)
}

/// The address at which a candidate is looked up: its repository where one is known, or else a
/// search by its name.
pub fn lookup_url(c: &Candidate) -> (r: String)
    ensures
        r@ == (match c.repo_hint {
            Some(full) => "https://api.github.com/repos/"@ + full@,
            None => "https://api.github.com/search/repositories?q="@ + percent::query_text(c.name@)
                + "+in:name&sort=stars&order=desc&per_page=3"@,
        }),
{
    match &c.repo_hint {
        Some(full) => text::concat2("https://api.github.com/repos/", full),
        None => text::concat3(
            "https://api.github.com/search/repositories?q=",
            &percent::urlencoding(&c.name),
            "+in:name&sort=stars&order=desc&per_page=3",
        ),
    }
}

/// What the lookup of a candidate came to.
pub enum Lookup {
    /// No reply.
    NotSent,
    /// A reply with a status, and the repository in it where it could be read: that of the
    /// candidate, or the first that the search found.
    Replied { status: u16, repo: Option<GhRepo> },
}

/// Whether a lookup was refused, so that no other is made.
pub open spec fn is_refusal(l: Lookup) -> bool {
    l matches Lookup::Replied { status: 403, .. }
}

/// The repository that a lookup gives; a reply to the lookup of a known repository counts only
/// where its status says success.
pub open spec fn looked_up(l: Lookup, hinted: bool) -> Option<GhRepo> {
    match l {
        Lookup::Replied { status, repo } => if status == 403 || hinted && !(200 <= status < 300) {
            None
        } else {
            repo
        },
        Lookup::NotSent => None,
    }
}

/// What has been found after one more lookup: a lookup changes nothing once there are as many
/// projects as were asked for, or once a lookup was refused.
pub open spec fn found_step(
    state: (Seq<Project>, bool),
    c: Candidate,
    l: Lookup,
    max: nat,
) -> (Seq<Project>, bool) {
    let (projects, stopped) = state;
    if stopped || projects.len() >= max {
        state
    } else {
        match looked_up(l, c.repo_hint is Some) {
            Some(repo) => (
                projects.push(project_in(repo, c.name@, c.maturity@, c.accepted_at)),
                false,
            ),
            None => (projects, is_refusal(l)),
        }
    }
}

/// The projects after the lookups of candidates, in order.
pub open spec fn projects_after(lookups: Seq<(Candidate, Lookup)>, max: nat) -> (Seq<Project>, bool)
    decreases lookups.len(),
{
    if lookups.len() == 0 {
        (Seq::empty(), false)
    } else {
        found_step(
            projects_after(lookups.drop_last(), max),
            lookups.last().0,
            lookups.last().1,
            max,
        )
    }
}

/// The projects that have been found, and whether a lookup was refused.
pub struct Found {
    pub projects: Vec<CNCFProject>,
    pub stopped: bool,
}

impl Found {
    /// What has been found.
    pub open spec fn state(&self) -> (Seq<Project>, bool) {
        (lists::views(self.projects@), self.stopped)
    }

    /// Nothing has been found yet.
    pub fn new() -> (r: Found)
        ensures
            r.state() == (Seq::<Project>::empty(), false),
    {
        let r = Found { projects: Vec::new(), stopped: false };
        assert(lists::views(r.projects@) =~= Seq::empty());
        r
    }

    /// Whether another candidate is to be looked up.
    pub fn wants_more(&self, max: usize) -> (r: bool)
        ensures
            r == (!self.state().1 && self.state().0.len() < max),
    {
        !self.stopped && self.projects.len() < max
    }

    /// Takes what the lookup of a candidate came to.
    pub fn take(&mut self, c: Candidate, l: Lookup, max: usize)
        ensures
            final(self).state() == found_step(old(self).state(), c, l, max as nat),
    {
        if !self.wants_more(max) {
            return ;
        }
        match l {
            Lookup::NotSent => {},
            Lookup::Replied { status, repo } => {
                if status == 403 {
                    self.stopped = true;
                } else if c.repo_hint.is_some() && !(200 <= status && status < 300) {
                } else if let Some(x) = repo {
                    let p = project_from(x, c.name, c.maturity, c.accepted_at);
                    proof {
                        lists::views_push(self.projects@, p);
                    }
                    self.projects.push(p);
                }
            },
        }
    }
}

/// No more projects are found than were asked for.
pub proof fn projects_are_bounded(lookups: Seq<(Candidate, Lookup)>, max: nat)
    ensures
        projects_after(lookups, max).0.len() <= max,
    decreases lookups.len(),
{
    if lookups.len() > 0 {
        projects_are_bounded(lookups.drop_last(), max);
    }
}

/// Among the candidates that are looked up no name stands twice, and each has letters or
/// digits.
pub proof fn shortlist_names_differ(all: Seq<Candidate>, max: nat)
    ensures
        order::keys(shortlist(all, max)).no_duplicates(),
        forall|i: int|
            0 <= i < shortlist(all, max).len() ==> (#[trigger] shortlist(all, max)[i]).key().len()
                > 0,
        shortlist(all, max).len() <= max * 3,
{
    let s = order::distinct(order::by_date(all));
    let p = |c: Candidate| c.key().len() > 0;
    order::distinct_has_each_key_once(order::by_date(all));
    order::filter_keeps_keys_apart(s, p);
    s.filter_lemma(p);
    let f = s.filter(p);
    let c = shortlist(all, max);
    assert forall|i: int, j: int| 0 <= i < c.len() && 0 <= j < c.len() && i != j implies order::keys(
        c,
    )[i] != order::keys(c)[j] by {
        assert(order::keys(f)[i] == order::keys(c)[i]);
        assert(order::keys(f)[j] == order::keys(c)[j]);
    }
    assert forall|i: int| 0 <= i < c.len() implies (#[trigger] c[i]).key().len() > 0 by {
        assert(c[i] == f[i]);
    }
}

// ── Laws ─────────────────────────────────────────────────────────────────────

/// A project is told as its repository tells it, under the name, the maturity and the day of
/// acceptance that it was looked up with.
pub proof fn projects_are_told_as_they_are(
    repo: GhRepo,
    name: Seq<char>,
    maturity: Seq<char>,
    accepted_at: Option<Timestamp>,
)
    ensures
        ({
            let p = project_in(repo, name, maturity, accepted_at);
            &&& p.name == name && p.maturity == maturity && p.accepted_at == accepted_at
            &&& p.full_name == repo.full_name@ && p.url == repo.html_url@
            &&& p.stars == repo.stargazers_count
            &&& repo.description matches Some(d) ==> p.description == d@
            &&& repo.description is None ==> p.description.len() == 0
            &&& repo.language matches Some(l) ==> p.language == Some(l@)
            &&& repo.language is None ==> p.language is None
            &&& repo.pushed_at matches Some(d) ==> p.last_updated == time::utc_time(d@)
            &&& repo.pushed_at is None ==> p.last_updated is None
        }),
{
}

/// A text that ends with one of some suffixes loses the first of them that it ends with, and any
/// other stays as it is.
pub proof fn one_suffix_goes(s: Seq<char>, suffixes: Seq<Seq<char>>, i: int)
    requires
        0 <= i < suffixes.len(),
        text::ends(s, suffixes[i]),
        forall|j: int| 0 <= j < i ==> !text::ends(s, #[trigger] suffixes[j]),
    ensures
        one_suffix_off(s, suffixes) + suffixes[i] == s,
    decreases i,
{
    if i == 0 {
        let n = s.len() - suffixes[0].len();
        assert(s.take(n) + s.subrange(n, s.len() as int) =~= s);
    } else {
        let rest = suffixes.skip(1);
        assert(!text::ends(s, suffixes[0]));
        assert forall|j: int| 0 <= j < i - 1 implies !text::ends(s, #[trigger] rest[j]) by {
            assert(!text::ends(s, suffixes[j + 1]));
        }
        one_suffix_goes(s, rest, i - 1);
    }
}

/// Each level of an application has its words: whatever stands before them is left of a title that
/// ends with them, and " CNCF" before the words for the sandbox goes with them.
pub proof fn level_words_go(name: Seq<char>)
    ensures
        one_suffix_off(name + " Graduation Application"@, text::str_views(LEVEL_SUFFIXES@)) == name,
        one_suffix_off(name + " Incubation Application"@, text::str_views(LEVEL_SUFFIXES@)) == name,
        one_suffix_off(name + " CNCF Sandbox Application"@, text::str_views(LEVEL_SUFFIXES@))
            == name,
        one_suffix_off(name + " graduation application"@, text::str_views(LEVEL_SUFFIXES@)) == name,
        one_suffix_off(name + " incubation application"@, text::str_views(LEVEL_SUFFIXES@)) == name,
        !text::ends(name, " CNCF"@) ==> one_suffix_off(
            name + " Sandbox Application"@,
            text::str_views(LEVEL_SUFFIXES@),
        ) == name,
{
    let v = text::str_views(LEVEL_SUFFIXES@);
    assert(v[0] == " Graduation Application"@ && v[1] == " Incubation Application"@);
    assert(v[2] == " CNCF Sandbox Application"@ && v[3] == " Sandbox Application"@);
    assert(v[4] == " graduation application"@ && v[5] == " incubation application"@);
    lemma_level_word(name, 0);
    lemma_level_word(name, 1);
    lemma_level_word(name, 2);
    lemma_level_word(name, 4);
    lemma_level_word(name, 5);
    if !text::ends(name, " CNCF"@) {
        lemma_level_word(name, 3);
    }
}

/// A title that ends with a level's words ends with none that are listed before them.
proof fn lemma_level_word(name: Seq<char>, i: int)
    requires
        0 <= i < 6,
        i == 3 ==> !text::ends(name, " CNCF"@),
    ensures
        one_suffix_off(
            name + text::str_views(LEVEL_SUFFIXES@)[i],
            text::str_views(LEVEL_SUFFIXES@),
        ) == name,
{
    let v = text::str_views(LEVEL_SUFFIXES@);
    assert(v[0] == " Graduation Application"@ && v[1] == " Incubation Application"@);
    assert(v[2] == " CNCF Sandbox Application"@ && v[3] == " Sandbox Application"@);
    assert(v[4] == " graduation application"@ && v[5] == " incubation application"@);
    let s = name + v[i];
    lemma_level_letters();
    assert forall|j: int| 0 <= j < i implies !text::ends(s, #[trigger] v[j]) by {
        if text::ends(s, v[j]) {
            let t = s.subrange(s.len() - v[j].len(), s.len() as int);
            assert(t == v[j]);
            assert(t[v[j].len() - 11] == s[s.len() - 11]);
            assert(t[v[j].len() - 13] == s[s.len() - 13]);
            assert(t[v[j].len() - 18] == s[s.len() - 18]);
            assert(i == 3 && j == 2);
            let c = " CNCF"@;
            assert(name.subrange(name.len() - 5, name.len() as int) =~= c) by {
                assert forall|k: int| 0 <= k < 5 implies name[name.len() - 5 + k] == #[trigger] c[k] by {
                    assert(t[k] == s[s.len() - 25 + k]);
                    assert(k == 0 || k == 1 || k == 2 || k == 3 || k == 4);
                }
            }
            assert(text::ends(name, c));
        }
    }
    assert(s.subrange(s.len() - v[i].len(), s.len() as int) =~= v[i]);
    one_suffix_goes(s, v, i);
    let r = one_suffix_off(s, v);
    assert(r =~= name) by {
        assert((r + v[i]).take(r.len() as int) =~= r);
        assert(s.take(name.len() as int) =~= name);
    }
}

/// The letters by which the words for the levels are told apart.
proof fn lemma_level_letters()
    ensures
        ({
            let g = " Graduation Application"@;
            g.len() == 23 && g[12] == 'A' && g[10] == 'n' && g[5] == 'u'
        }),
        ({
            let g = " Incubation Application"@;
            g.len() == 23 && g[12] == 'A' && g[10] == 'n' && g[5] == 'b'
        }),
        ({
            let g = " CNCF Sandbox Application"@;
            &&& g.len() == 25 && g[14] == 'A' && g[12] == 'x'
            &&& g[0] == ' ' && g[1] == 'C' && g[2] == 'N' && g[3] == 'C' && g[4] == 'F'
        }),
        ({
            let g = " Sandbox Application"@;
            g.len() == 20 && g[9] == 'A' && g[7] == 'x'
        }),
        ({
            let g = " graduation application"@;
            g.len() == 23 && g[12] == 'a' && g[10] == 'n' && g[5] == 'u'
        }),
        ({
            let g = " incubation application"@;
            g.len() == 23 && g[12] == 'a' && g[10] == 'n' && g[5] == 'b'
        }),
        ({
            let g = " CNCF"@;
            g.len() == 5 && g[0] == ' ' && g[1] == 'C' && g[2] == 'N' && g[3] == 'C' && g[4] == 'F'
        }),
{
    reveal_strlit(" Graduation Application");
    reveal_strlit(" Incubation Application");
    reveal_strlit(" CNCF Sandbox Application");
    reveal_strlit(" Sandbox Application");
    reveal_strlit(" graduation application");
    reveal_strlit(" incubation application");
    reveal_strlit(" CNCF");
}

/// Only titles of applications name a project, and then the name has no white space at its ends,
/// has at least two bytes and is not that of a checklist.
pub proof fn names_come_of_applications(title: Seq<char>)
    ensures
        project_name(title) is Some ==> text::holds(unicode::lowercase(title), "application"@)
            || text::holds(unicode::lowercase(title), "joining cncf"@),
        project_name(title) matches Some(n) ==> text::byte_count(n) >= 2 && !text::is_space(n[0])
            && !text::is_space(n.last()) && !text::holds(unicode::lowercase(n), "checklist"@),
{
    if let Some(n) = project_name(title) {
        let c = before_mark(
            match text::after_prefix(
                one_suffix_off(
                    text::one_prefix_off(title, text::str_views(LEVEL_PREFIXES@)),
                    text::str_views(LEVEL_SUFFIXES@),
                ),
                "Project Moving Levels Checklist: "@,
            ) {
                Some(x) => x,
                None => one_suffix_off(
                    text::one_prefix_off(title, text::str_views(LEVEL_PREFIXES@)),
                    text::str_views(LEVEL_SUFFIXES@),
                ),
            },
            text::str_views(JOINING_MARKS@),
        );
        assert(n == text::trimmed(c));
        text::trimming_leaves_no_space_at_the_ends(c);
        if n.len() == 0 {
            assert(n =~= Seq::empty());
            text::nothing_has_no_bytes();
        }
    }
}

/// A repository may be a project's own where it has an owner other than the foundation and a name
/// that is not passed over; the foundation's own never are.
pub proof fn own_repositories_have_other_owners(owner: Seq<char>, repo: Seq<char>)
    requires
        !owner.contains('/'),
    ensures
        owner != "cncf"@ && !text::str_views(SKIPPED_REPOS@).contains(repo) ==> may_be_own(
            owner + seq!['/'] + repo,
        ),
        owner == "cncf"@ ==> !may_be_own(owner + seq!['/'] + repo),
        text::str_views(SKIPPED_REPOS@).contains(repo) ==> !may_be_own(owner + seq!['/'] + repo),
        !may_be_own(owner),
{
    text::split_around(owner, '/', repo);
    text::no_split(owner, '/');
}

/// The repository that is chosen is one of the links and may be the project's own; one is chosen
/// where any link may be; and where no line names one, a link whose name overlaps with the
/// project's goes before the others.
pub proof fn chosen_repositories_are_own(
    line_links: Seq<Seq<char>>,
    links: Seq<Seq<char>>,
    key: Seq<char>,
)
    ensures
        chosen_repo(line_links, links, key) matches Some(x) ==> may_be_own(x) && (
        line_links.contains(x) || links.contains(x)),
        (exists|i: int| 0 <= i < line_links.len() && may_be_own(#[trigger] line_links[i]))
            ==> chosen_repo(line_links, links, key) is Some && line_links.contains(
            chosen_repo(line_links, links, key)->0,
        ),
        (exists|i: int| 0 <= i < links.len() && may_be_own(#[trigger] links[i])) ==> chosen_repo(
            line_links,
            links,
            key,
        ) is Some,
        line_links.len() == 0 && (exists|i: int|
            0 <= i < links.len() && may_be_own(#[trigger] links[i]) && names_match(links[i], key))
            ==> names_match(chosen_repo(line_links, links, key)->0, key),
{
    let own = |f: Seq<char>| may_be_own(f);
    let near = |f: Seq<char>| may_be_own(f) && names_match(f, key);
    text::first_such_decides(line_links, own);
    text::first_such_decides(links, near);
    text::first_such_decides(links, own);
    if exists|i: int| 0 <= i < line_links.len() && may_be_own(#[trigger] line_links[i]) {
        let i = choose|i: int| 0 <= i < line_links.len() && may_be_own(#[trigger] line_links[i]);
        text::first_such_is_found(line_links, own, i);
    }
    if exists|i: int| 0 <= i < links.len() && may_be_own(#[trigger] links[i]) {
        let i = choose|i: int| 0 <= i < links.len() && may_be_own(#[trigger] links[i]);
        text::first_such_is_found(links, own, i);
    }
    if exists|i: int|
        0 <= i < links.len() && may_be_own(#[trigger] links[i]) && names_match(links[i], key) {
        let i = choose|i: int|
            0 <= i < links.len() && may_be_own(#[trigger] links[i]) && names_match(links[i], key);
        assert(near(links[i]));
        text::first_such_is_found(links, near, i);
    }
}

/// Names match where the letters and digits of the project's name stand in those of the owner's or
/// the repository's, or the other way round.
pub proof fn names_match_by_letters(owner: Seq<char>, repo: Seq<char>, key: Seq<char>)
    requires
        !owner.contains('/'),
    ensures
        names_match(owner + seq!['/'] + repo, key) <==> {
            let o = unicode::lowered_alphanumerics(owner);
            let r = unicode::lowered_alphanumerics(repo);
            text::holds(o, key) || text::holds(key, o) || text::holds(r, key) || text::holds(key, r)
        },
{
    text::split_around(owner, '/', repo);
}

/// Every application whose title names a project gives a candidate with the name, the maturity, the
/// day on which it was closed and the repository in its text, and no candidate comes of any other.
pub proof fn applications_give_candidates(issues: Seq<TocIssue>, maturity: Seq<char>)
    ensures
        ({
            let named = issues.filter(|x: TocIssue| project_name(x.title@) is Some);
            let r = applicants(issues, maturity);
            &&& r.len() == named.len()
            &&& forall|k: int|
                0 <= k < r.len() ==> {
                    let x = named[k];
                    &&& Some((#[trigger] r[k]).name) == project_name(x.title@)
                    &&& r[k].maturity == maturity
                    &&& x.closed_at matches Some(d) ==> r[k].accepted_at == time::utc_time(d@)
                    &&& x.closed_at is None ==> r[k].accepted_at is None
                    &&& x.body matches Some(b) ==> r[k].repo_hint == repo_in(b@, r[k].name)
                    &&& x.body is None ==> r[k].repo_hint is None
                }
        }),
    decreases issues.len(),
{
    reveal(Seq::filter);
    if issues.len() > 0 {
        applications_give_candidates(issues.drop_last(), maturity);
    }
}

/// Candidates are told apart by the letters and digits of their names, and ordered by the time of
/// their acceptance.
pub proof fn candidates_are_told_apart_by_name(a: Candidate, b: Candidate)
    ensures
        a.key() == b.key() <==> unicode::lowered_alphanumerics(a.name@)
            == unicode::lowered_alphanumerics(b.name@),
        a.date() == a.accepted_at,
{
}

/// Every name of a candidate that has letters or digits is looked up where enough projects are
/// asked for, and those that were accepted later come first.
pub proof fn named_candidates_are_looked_up(all: Seq<Candidate>, max: nat, i: int)
    requires
        0 <= i < all.len(),
        max >= all.len(),
        all[i].key().len() > 0,
    ensures
        order::keys(shortlist(all, max)).contains(all[i].key()),
        forall|k: int|
            0 <= k < shortlist(all, max).len() ==> all.contains(#[trigger] shortlist(all, max)[k]),
{
    broadcast use vstd::seq_lib::group_filter_ensures;

    let b = order::by_date(all);
    let s = order::distinct(b);
    let p = |c: Candidate| c.key().len() > 0;
    let f = s.filter(p);
    order::by_date_is_ordered(all);
    order::distinct_is_no_longer(b);
    order::distinct_has_each_key_once(b);
    order::by_date_holds_the_same(all, all[i]);
    assert(all.contains(all[i]));
    let k = choose|k: int| 0 <= k < b.len() && b[k] == all[i];
    assert(order::keys(b)[k] == all[i].key());
    assert(order::keys(b).contains(all[i].key()));
    assert(order::keys(s).contains(all[i].key()));
    let m = choose|m: int| 0 <= m < order::keys(s).len() && order::keys(s)[m] == all[i].key();
    assert(p(s[m]));
    assert(f.contains(s[m]));
    let n = choose|n: int| 0 <= n < f.len() && f[n] == s[m];
    assert(order::keys(f)[n] == all[i].key());
    assert(shortlist(all, max) == f);
    order::kept_are_items(b, order::firsts(order::keys(b)));
    assert forall|k: int| 0 <= k < f.len() implies all.contains(#[trigger] f[k]) by {
        assert(f.contains(f[k]));
        s.lemma_filter_contains_rev(p, f[k]);
        assert(b.contains(f[k]));
        order::by_date_holds_the_same(all, f[k]);
    }
}

/// A repository that is found is a project as long as more are asked for; a refusal ends the
/// lookups for good, and a lookup without a reply or a repository changes nothing.
pub proof fn lookups_find_projects(
    projects: Seq<Project>,
    c: Candidate,
    repo: GhRepo,
    status: u16,
    l: Lookup,
    max: nat,
)
    ensures
        found_step((projects, true), c, l, max) == (projects, true),
        projects.len() >= max ==> found_step((projects, false), c, l, max) == (projects, false),
        found_step((projects, false), c, Lookup::NotSent, max) == (projects, false),
        found_step((projects, false), c, Lookup::Replied { status, repo: None }, max).0 == projects,
        projects.len() < max && 200 <= status < 300 ==> found_step(
            (projects, false),
            c,
            Lookup::Replied { status, repo: Some(repo) },
            max,
        ) == (projects.push(project_in(repo, c.name@, c.maturity@, c.accepted_at)), false),
        projects.len() < max && status == 403 ==> found_step(
            (projects, false),
            c,
            Lookup::Replied { status, repo: Some(repo) },
            max,
        ) == (projects, true),
        c.repo_hint is Some && status == 404 ==> found_step(
            (projects, false),
            c,
            Lookup::Replied { status, repo: Some(repo) },
            max,
        ) == (projects, false),
{
}

/// The name of a repository stands behind its owner's.
pub proof fn names_stand_behind_owners(owner: Seq<char>, repo: Seq<char>)
    requires
        !owner.contains('/'),
        !repo.contains('/'),
    ensures
        repo_part(owner + seq!['/'] + repo) == repo,
        repo_part(repo) == repo,
{
    text::split_in_two(owner, '/', repo);
    text::split_in_one(repo, '/');
}

/// A name ends where the title goes on to tell that the project joins, and a name without such
/// words stays as it is.
pub proof fn names_end_at_joining(name: Seq<char>, rest: Seq<char>, i: int)
    requires
        0 <= i < 3,
        forall|j: int|
            0 <= j < i ==> !text::holds(
                name + (JOINING_MARKS@[i])@ + rest,
                (#[trigger] JOINING_MARKS@[j])@,
            ),
        !text::holds(name + JOINING_MARKS@[i]@.drop_last(), JOINING_MARKS@[i]@),
        JOINING_MARKS@[i]@.len() > 0,
    ensures
        before_mark(name + JOINING_MARKS@[i]@ + rest, text::str_views(JOINING_MARKS@)) == name,
{
    let v = text::str_views(JOINING_MARKS@);
    let s = name + JOINING_MARKS@[i]@ + rest;
    assert forall|j: int| 0 <= j < i implies !text::holds(s, #[trigger] v[j]) by {
        assert(!text::holds(s, JOINING_MARKS@[j]@));
    }
    text::found_behind(name, JOINING_MARKS@[i]@, rest);
    assert(v[i] == JOINING_MARKS@[i]@);
    lemma_mark_cuts(s, v, i, name.len() as int);
    assert(s.take(name.len() as int) =~= name);
}

/// A text is cut at the first mark that it holds.
proof fn lemma_mark_cuts(s: Seq<char>, marks: Seq<Seq<char>>, i: int, k: int)
    requires
        0 <= i < marks.len(),
        forall|j: int| 0 <= j < i ==> !text::holds(s, #[trigger] marks[j]),
        text::find(s, marks[i]) == Some(k),
    ensures
        before_mark(s, marks) == s.take(k),
    decreases i,
{
    if i > 0 {
        text::finding_is_holding(s, marks[0]);
        assert(!text::holds(s, marks[0]));
        let rest = marks.skip(1);
        assert forall|j: int| 0 <= j < i - 1 implies !text::holds(s, #[trigger] rest[j]) by {
            assert(!text::holds(s, marks[j + 1]));
        }
        lemma_mark_cuts(s, rest, i - 1, k);
    }
}

/// A text that holds no mark is not cut.
proof fn lemma_no_mark(s: Seq<char>, marks: Seq<Seq<char>>)
    requires
        forall|j: int| 0 <= j < marks.len() ==> !text::holds(s, #[trigger] marks[j]),
    ensures
        before_mark(s, marks) == s,
    decreases marks.len(),
{
    if marks.len() > 0 {
        text::finding_is_holding(s, marks[0]);
        assert(!text::holds(s, marks[0]));
        let rest = marks.skip(1);
        assert forall|j: int| 0 <= j < rest.len() implies !text::holds(s, #[trigger] rest[j]) by {
            assert(!text::holds(s, marks[j + 1]));
        }
        lemma_no_mark(s, rest);
    }
}

/// What is left of a title of an application is the name alone: neither the mark of its level
/// before it nor the words for its level behind it, nor white space round it.
pub proof fn titles_leave_the_name(name: Seq<char>)
    requires
        forall|j: int|
            0 <= j < JOINING_MARKS@.len() ==> !text::holds(name, (#[trigger] JOINING_MARKS@[j])@),
        !text::begins(name, "Project Moving Levels Checklist: "@),
        !text::ends(name, " CNCF"@),
    ensures
        bare_title("[Graduation] "@ + name + " Graduation Application"@) == text::trimmed(name),
        bare_title("[Incubation] "@ + name + " Incubation Application"@) == text::trimmed(name),
        bare_title("[Sandbox] "@ + name + " Sandbox Application"@) == text::trimmed(name),
        bare_title("[Sandbox] "@ + name + " CNCF Sandbox Application"@) == text::trimmed(name),
{
    let v = text::str_views(JOINING_MARKS@);
    assert forall|j: int| 0 <= j < v.len() implies !text::holds(name, #[trigger] v[j]) by {
        assert(!text::holds(name, JOINING_MARKS@[j]@));
    }
    lemma_no_mark(name, v);
    level_words_go(name);
    lemma_level_mark(name + " Graduation Application"@, 0);
    lemma_level_mark(name + " Incubation Application"@, 1);
    lemma_level_mark(name + " Sandbox Application"@, 2);
    lemma_level_mark(name + " CNCF Sandbox Application"@, 2);
    assert("[Graduation] "@ + name + " Graduation Application"@ =~= "[Graduation] "@ + (name
        + " Graduation Application"@));
    assert("[Incubation] "@ + name + " Incubation Application"@ =~= "[Incubation] "@ + (name
        + " Incubation Application"@));
    assert("[Sandbox] "@ + name + " Sandbox Application"@ =~= "[Sandbox] "@ + (name
        + " Sandbox Application"@));
    assert("[Sandbox] "@ + name + " CNCF Sandbox Application"@ =~= "[Sandbox] "@ + (name
        + " CNCF Sandbox Application"@));
}

/// The mark of a level is removed from a title.
proof fn lemma_level_mark(rest: Seq<char>, i: int)
    requires
        0 <= i < 3,
    ensures
        text::one_prefix_off(
            text::str_views(LEVEL_PREFIXES@)[i] + rest,
            text::str_views(LEVEL_PREFIXES@),
        ) == rest,
        text::str_views(LEVEL_PREFIXES@)[0] == "[Graduation] "@,
        text::str_views(LEVEL_PREFIXES@)[1] == "[Incubation] "@,
        text::str_views(LEVEL_PREFIXES@)[2] == "[Sandbox] "@,
{
    let v = text::str_views(LEVEL_PREFIXES@);
    assert(v[0] == "[Graduation] "@ && v[1] == "[Incubation] "@ && v[2] == "[Sandbox] "@);
    assert(v[0].len() == 13 && v[1].len() == 13 && v[2].len() == 10 && v[0][1] == 'G' && v[1][1]
        == 'I' && v[2][1] == 'S') by {
        reveal_strlit("[Graduation] ");
        reveal_strlit("[Incubation] ");
        reveal_strlit("[Sandbox] ");
    }
    let s = v[i] + rest;
    assert(s.subrange(0, v[i].len() as int) =~= v[i]);
    assert(s.skip(v[i].len() as int) =~= rest);
    assert(s[1] == v[i][1]);
    assert forall|j: int| 0 <= j < i implies !text::begins(s, #[trigger] v[j]) by {
        if text::begins(s, v[j]) {
            assert(s.subrange(0, v[j].len() as int)[1] == v[j][1]);
        }
    }
    text::first_prefix_goes(s, v, i);
}

/// The repositories that are never a project's own.
pub proof fn skipped_repositories_are_these(repo: Seq<char>)
    ensures
        text::str_views(SKIPPED_REPOS@).contains(repo) <==> repo == "toc"@ || repo == "landscape"@
            || repo == ".github"@ || repo == "artwork"@ || repo == "foundation"@ || repo == "cncf"@,
{
    let v = text::str_views(SKIPPED_REPOS@);
    assert(v[0] == "toc"@ && v[1] == "landscape"@ && v[2] == ".github"@ && v[3] == "artwork"@ && v[4]
        == "foundation"@ && v[5] == "cncf"@);
    if v.contains(repo) {
        let i = choose|i: int| 0 <= i < v.len() && v[i] == repo;
        assert(i == 0 || i == 1 || i == 2 || i == 3 || i == 4 || i == 5);
    }
}

/// Every title that speaks of an application or of joining names what is left of it, where that has
/// at least two bytes and is not a checklist.
pub proof fn applications_name_what_is_left(title: Seq<char>)
    requires
        text::holds(unicode::lowercase(title), "application"@) || text::holds(
            unicode::lowercase(title),
            "joining cncf"@,
        ),
        text::byte_count(bare_title(title)) >= 2,
        !text::holds(unicode::lowercase(bare_title(title)), "checklist"@),
    ensures
        project_name(title) == Some(bare_title(title)),
{
}

/// Of a candidate that is searched by name every repository in a reply counts unless the reply is a
/// refusal; of one whose repository is known only a reply that says success does.
pub proof fn replies_count_by_status(c: Candidate, repo: GhRepo, status: u16, projects: Seq<Project>, max: nat)
    requires
        projects.len() < max,
    ensures
        ({
            let l = Lookup::Replied { status, repo: Some(repo) };
            let r = found_step((projects, false), c, l, max);
            &&& r.1 <==> status == 403
            &&& r.0.len() == projects.len() + 1 <==> status != 403 && (c.repo_hint is None || 200
                <= status < 300)
            &&& r.0.len() > projects.len() ==> r.0.last().full_name == repo.full_name@
                && r.0.last().name == c.name@ && r.0.last().maturity == c.maturity@
                && r.0.last().accepted_at == c.accepted_at
        }),
{
}

/// The levels of applications with what they stand for.
pub proof fn levels_stand_for_maturities()
    ensures
        LEVELS@[0].0@ == "level%2Fgraduation"@ && LEVELS@[0].1@ == "graduated"@,
        LEVELS@[1].0@ == "level%2Fincubation"@ && LEVELS@[1].1@ == "incubating"@,
        LEVELS@[2].0@ == "level%2Fsandbox"@ && LEVELS@[2].1@ == "sandbox"@,
{
}

/// The words at which a name ends.
pub proof fn joining_is_told_with_these_words(s: Seq<char>)
    ensures
        (!text::holds(s, " joining CNCF"@) && !text::holds(s, " joins CNCF"@) && !text::holds(
            s,
            " to join CNCF"@,
        )) ==> before_mark(s, text::str_views(JOINING_MARKS@)) == s,
        text::find(s, " joining CNCF"@) matches Some(k) ==> before_mark(
            s,
            text::str_views(JOINING_MARKS@),
        ) == s.take(k),
{
    let v = text::str_views(JOINING_MARKS@);
    assert(v[0] == " joining CNCF"@ && v[1] == " joins CNCF"@ && v[2] == " to join CNCF"@);
    if !text::holds(s, " joining CNCF"@) && !text::holds(s, " joins CNCF"@) && !text::holds(
        s,
        " to join CNCF"@,
    ) {
        assert forall|j: int| 0 <= j < v.len() implies !text::holds(s, #[trigger] v[j]) by {
            assert(j == 0 || j == 1 || j == 2);
        }
        lemma_no_mark(s, v);
    }
}

/// Where fewer projects are asked for, the first of the candidates are looked up: three for each
/// project, as long as there are so many.
pub proof fn three_candidates_for_each_project(all: Seq<Candidate>, max: nat)
    ensures
        shortlist(all, max) == order::cut(shortlist(all, all.len()), max * 3),
        shortlist(all, all.len()).len() >= max * 3 ==> shortlist(all, max).len() == max * 3,
{
    let b = order::by_date(all);
    let s = order::distinct(b);
    let p = |c: Candidate| c.key().len() > 0;
    order::by_date_is_ordered(all);
    order::distinct_is_no_longer(b);
    lists::filter_is_no_longer(s, p);
    order::cutting_twice(s.filter(p), all.len() * 3, max * 3);
    assert(shortlist(all, all.len()) == s.filter(p));
}

/// Every line that speaks of GitHub or of the project's repository gives its first link, in the
/// order of the lines, and no other line gives one.
pub proof fn lines_give_their_first_link(lines: Seq<Seq<char>>)
    ensures
        ({
            let named = lines.filter(
                |l: Seq<char>|
                    (text::holds(unicode::lowercase(l), "github.com"@) || text::holds(
                        unicode::lowercase(l),
                        "project repo"@,
                    )) && pattern::first_groups(pattern::GITHUB_REPO@, l) is Some,
            );
            let r = links_of_lines(lines);
            &&& r.len() == named.len()
            &&& forall|i: int|
                0 <= i < r.len() ==> #[trigger] r[i] == pattern::group(
                    pattern::first_groups(pattern::GITHUB_REPO@, named[i])->0,
                    0,
                )
        }),
    decreases lines.len(),
{
    reveal(Seq::filter);
    if lines.len() > 0 {
        lines_give_their_first_link(lines.drop_last());
    }
}

/// Where no line is one for the project's repositories, the repository is the first own link of the
/// lines, whatever the project is called.
pub proof fn first_own_links_of_lines_are_taken(body: Seq<char>, name: Seq<char>)
    requires
        forall|i: int|
            0 <= i < text::line_seq(body).len() ==> !is_repo_line(
                #[trigger] text::line_seq(body)[i],
            ),
    ensures
        text::first_such(
            links_of_lines(text::line_seq(body)),
            |f: Seq<char>| may_be_own(f),
        ) matches Some(x) ==> repo_in(body, name) == Some(x),
{
    let lines = text::line_seq(body);
    let links = links_of_repo_lines(lines);
    if links.len() > 0 {
        lemma_repo_line_links(lines, links[0]);
        assert(links.contains(links[0]));
    }
    assert(links.len() == 0);
}

} // verus!
