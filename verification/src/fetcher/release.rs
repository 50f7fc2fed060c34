//! Releases of a repository.
use vstd::prelude::*;
use crate::lists;
use crate::number;
use crate::order;
use crate::text;
use crate::time;
use crate::time::Timestamp;

verus! {

/// A release.
#[derive(Debug, Clone)]
pub struct ReleaseItem {
    pub tag_name: String,
    pub name: String,
    pub body: String,
    pub url: String,
    pub published: Option<Timestamp>,
    pub is_major: bool,
}

/// A release, by its texts.
pub struct Release {
    pub tag_name: Seq<char>,
    pub name: Seq<char>,
    pub body: Seq<char>,
    pub url: Seq<char>,
    pub published: Option<Timestamp>,
    pub is_major: bool,
}

impl View for ReleaseItem {
    type V = Release;

    open spec fn view(&self) -> Release {
        Release {
            tag_name: self.tag_name@,
            name: self.name@,
            body: self.body@,
            url: self.url@,
            published: self.published,
            is_major: self.is_major,
        }
    }
}

/// A release as GitHub tells it.
pub struct GHRelease {
    pub tag_name: String,
    pub name: String,
    pub body: String,
    pub html_url: String,
    pub published_at: Option<String>,
    pub prerelease: bool,
    pub draft: bool,
}

// ── Versions ───────────────────────────────────────────────────────────────────

/// A text from its first digit on.
pub open spec fn from_digit(s: Seq<char>) -> Seq<char>
    decreases s.len(),
{
    if s.len() == 0 || number::is_digit(s[0]) {
        s
    } else {
        from_digit(s.skip(1))
    }
}

/// The numbers among texts, in order.
pub open spec fn numbers(parts: Seq<Seq<char>>) -> Seq<nat>
    decreases parts.len(),
{
    if parts.len() == 0 {
        Seq::empty()
    } else {
        let r = numbers(parts.drop_last());
        match number::parsed_within(parts.last(), u64::MAX as nat) {
            Some(n) => r.push(n),
            None => r,
        }
    }
}

/// The numbers of a version: those between the dots from the first digit up to a hyphen.
pub open spec fn version_numbers(tag: Seq<char>) -> Seq<nat> {
    numbers(text::split(text::first_piece(from_digit(tag), seq!['-']), seq!['.']))
}

/// The first three numbers of a version; those that are missing are zero, and without any there
/// is no version.
pub open spec fn version(tag: Seq<char>) -> Option<(nat, nat, nat)> {
    let v = version_numbers(tag);
    if v.len() == 0 {
        None
    } else {
        Some(
            (
                v[0],
                if v.len() > 1 {
                    v[1]
                } else {
                    0
                },
                if v.len() > 2 {
                    v[2]
                } else {
                    0
                },
            ),
        )
    }
}

/// The numbers of a list.
pub open spec fn nats(v: Seq<u64>) -> Seq<nat> {
    v.map_values(|n: u64| n as nat)
}

/// The numbers among texts.
fn parse_numbers(parts: &Vec<String>) -> (r: Vec<u64>)
    ensures
        nats(r@) == numbers(text::views(parts@)),
{
    let ghost all = text::views(parts@);
    let mut r: Vec<u64> = Vec::new();
    let mut i: usize = 0;
    assert(nats(r@) =~= Seq::empty());
    while i < parts.len()
        invariant
            i <= parts@.len(),
            all == text::views(parts@),
            nats(r@) == numbers(all.take(i as int)),
        decreases parts.len() - i,
    {
        proof {
            assert(all.take(i + 1).drop_last() =~= all.take(i as int));
            assert(all.take(i + 1).last() == parts@[i as int]@);
        }
        let ghost before = r@;
        if let Some(n) = number::parse_u64(&parts[i]) {
            r.push(n);
            assert(nats(r@) =~= nats(before).push(n as nat));
        }
        i += 1;
    }
    proof {
        lists::take_all(all);
    }
    r
}

/// A text from its first digit on.
fn skip_to_digit(s: &str) -> (r: String)
    ensures
        r@ == from_digit(s@),
{
    let v = text::chars_of(s);
    let mut i: usize = 0;
    assert(v@.skip(0) =~= v@);
    while i < v.len() && !('0' <= v[i] && v[i] <= '9')
        invariant
            i <= v.len(),
            from_digit(v@) == from_digit(v@.skip(i as int)),
        decreases v.len() - i,
    {
        assert(v@.skip(i as int).skip(1) =~= v@.skip(i + 1));
        i += 1;
    }
    let r = text::string_of(&v, i, v.len());
    assert(r@ =~= v@.skip(i as int));
    r
}

/// A triple of numbers.
pub open spec fn triple(v: Option<(u64, u64, u64)>) -> Option<(nat, nat, nat)> {
    match v {
        Some(t) => Some((t.0 as nat, t.1 as nat, t.2 as nat)),
        None => None,
    }
}

/// The first three numbers of a version like "v1.2.3" or "1.2".
pub fn parse_version(tag: &str) -> (r: Option<(u64, u64, u64)>)
    ensures
        triple(r) == version(tag@),
{
    let hyphen = ['-'];
    let dot = ['.'];
    assert(hyphen@ =~= seq!['-']);
    assert(dot@ =~= seq!['.']);
    let s = text::split_first(&skip_to_digit(tag), &hyphen);
    let parts = text::split_chars(&s, &dot);
    let v = parse_numbers(&parts);
    assert(nats(v@).len() == v@.len());
    if v.len() == 0 {
        return None;
    }
    assert(nats(v@)[0] == v@[0]);
    let minor: u64 = if v.len() > 1 {
        assert(nats(v@)[1] == v@[1]);
        v[1]
    } else {
        0
    };
    let patch: u64 = if v.len() > 2 {
        assert(nats(v@)[2] == v@[2]);
        v[2]
    } else {
        0
    };
    Some((v[0], minor, patch))
}

/// Whether a version begins a major line: its second and third numbers are zero.
pub open spec fn is_major(tag: Seq<char>) -> bool {
    version(tag) matches Some(v) && v.1 == 0 && v.2 == 0
}

/// Whether a version begins a major line.
pub fn is_major_release(tag: &str) -> (r: bool)
    ensures
        r == is_major(tag@),
{
    match parse_version(tag) {
        Some(v) => v.1 == 0 && v.2 == 0,
        None => false,
    }
}

/// A release as it is shown; one without a name has its tag for a name.
pub open spec fn shown(r: GHRelease) -> Release {
    Release {
        tag_name: r.tag_name@,
        name: if text::trimmed(r.name@).len() == 0 {
            r.tag_name@
        } else {
            r.name@
        },
        body: text::shortened(r.body@, 2000),
        url: r.html_url@,
        published: match r.published_at {
            Some(d) => time::rfc3339_time(d@),
            None => None,
        },
        is_major: is_major(r.tag_name@),
    }
}

/// A release as it is shown.
pub fn to_release_item(r: GHRelease) -> (item: ReleaseItem)
    ensures
        item@ == shown(r),
{
    let published = match &r.published_at {
        Some(d) => time::parse_rfc3339(d),
        None => None,
    };
    let major = is_major_release(&r.tag_name);
    let name = if text::is_empty(&text::trim(&r.name)) {
        r.tag_name.clone()
    } else {
        r.name
    };
    ReleaseItem {
        tag_name: r.tag_name,
        name,
        body: text::take_chars(&r.body, 2000),
        url: r.html_url,
        published,
        is_major: major,
    }
}

// ── Collecting ─────────────────────────────────────────────────────────────────

/// Whether a release's tag has a slash.
pub open spec fn slashed(r: GHRelease) -> bool {
    r.tag_name@.contains('/')
}

/// Whether some tag has a slash.
pub open spec fn some_slashed(s: Seq<GHRelease>) -> bool {
    exists|i: int| 0 <= i < s.len() && slashed(#[trigger] s[i])
}

/// Whether some tag has no slash.
pub open spec fn some_plain(s: Seq<GHRelease>) -> bool {
    exists|i: int| 0 <= i < s.len() && !slashed(#[trigger] s[i])
}

/// Whether tags with a slash are passed over.
pub open spec fn skips(s: Seq<GHRelease>) -> bool {
    some_plain(s) && some_slashed(s)
}

/// Whether some tag has a slash.
fn any_slashed(s: &Vec<GHRelease>) -> (r: bool)
    ensures
        r == some_slashed(s@),
{
    let mut i: usize = 0;
    while i < s.len()
        invariant
            i <= s@.len(),
            forall|j: int| 0 <= j < i ==> !slashed(#[trigger] s@[j]),
        decreases s.len() - i,
    {
        if text::contains_char(&s[i].tag_name, '/') {
            assert(slashed(s@[i as int]));
            return true;
        }
        i += 1;
    }
    false
}

/// Whether some tag has no slash.
fn any_plain(s: &Vec<GHRelease>) -> (r: bool)
    ensures
        r == some_plain(s@),
{
    let mut i: usize = 0;
    while i < s.len()
        invariant
            i <= s@.len(),
            forall|j: int| 0 <= j < i ==> slashed(#[trigger] s@[j]),
        decreases s.len() - i,
    {
        if !text::contains_char(&s[i].tag_name, '/') {
            assert(!slashed(s@[i as int]));
            return true;
        }
        i += 1;
    }
    false
}

/// Whether tags with a slash belong to parts of the repository, so that they are passed over:
/// there are tags with a slash and tags without.
pub fn prefer_non_slash(candidates: &Vec<GHRelease>) -> (r: bool)
    ensures
        r == skips(candidates@),
{
    any_plain(candidates) && any_slashed(candidates)
}

/// The releases that count.
pub open spec fn considered(s: Seq<GHRelease>, skip_slash: bool) -> Seq<GHRelease> {
    s.filter(|r: GHRelease| !(skip_slash && slashed(r)))
}

/// The releases that count and are not major.
pub open spec fn minors(s: Seq<GHRelease>, skip_slash: bool) -> Seq<GHRelease> {
    considered(s, skip_slash).filter(|r: GHRelease| !is_major(r.tag_name@))
}

/// The releases that count and are major.
pub open spec fn majors(s: Seq<GHRelease>, skip_slash: bool) -> Seq<GHRelease> {
    considered(s, skip_slash).filter(|r: GHRelease| is_major(r.tag_name@))
}

/// How many minor releases are wanted.
pub const MINOR_WANTED: usize = 5;

/// One more release among those that count.
proof fn lemma_considered_next(s: Seq<GHRelease>, skip_slash: bool, i: int)
    requires
        0 <= i < s.len(),
    ensures
        ({
            let x = s[i];
            let counts = !(skip_slash && slashed(x));
            let major = is_major(x.tag_name@);
            &&& minors(s.take(i + 1), skip_slash) == (if counts && !major {
                minors(s.take(i), skip_slash).push(x)
            } else {
                minors(s.take(i), skip_slash)
            })
            &&& majors(s.take(i + 1), skip_slash) == (if counts && major {
                majors(s.take(i), skip_slash).push(x)
            } else {
                majors(s.take(i), skip_slash)
            })
        }),
{
    let p = |r: GHRelease| !(skip_slash && slashed(r));
    let major = |r: GHRelease| is_major(r.tag_name@);
    let minor = |r: GHRelease| !is_major(r.tag_name@);
    lists::take_next(s, i);
    s.take(i).lemma_filter_push(s[i], p);
    s.take(i).filter(p).lemma_filter_push(s[i], major);
    s.take(i).filter(p).lemma_filter_push(s[i], minor);
}

/// Whether the releases hold what is wanted: five minor ones and a major one that count.
pub fn buffer_is_sufficient(buffer: &Vec<GHRelease>, skip_slash: bool) -> (r: bool)
    ensures
        r == (minors(buffer@, skip_slash).len() >= MINOR_WANTED && majors(
            buffer@,
            skip_slash,
        ).len() > 0),
{
    let ghost all = buffer@;
    let mut minor_count: usize = 0;
    let mut has_major = false;
    let mut i: usize = 0;
    assert(minors(all.take(0), skip_slash) =~= Seq::empty() && majors(all.take(0), skip_slash)
        =~= Seq::empty()) by {
        reveal(Seq::filter);
    }
    while i < buffer.len()
        invariant
            i <= buffer.len(),
            all == buffer@,
            minor_count <= i,
            minor_count == minors(all.take(i as int), skip_slash).len(),
            has_major == (majors(all.take(i as int), skip_slash).len() > 0),
        decreases buffer.len() - i,
    {
        proof {
            lemma_considered_next(all, skip_slash, i as int);
        }
        if !(skip_slash && text::contains_char(&buffer[i].tag_name, '/')) {
            if is_major_release(&buffer[i].tag_name) {
                has_major = true;
            } else {
                minor_count += 1;
            }
        }
        i += 1;
    }
    proof {
        lists::take_all(all);
    }
    minor_count >= MINOR_WANTED && has_major
}

/// The address of a page of releases.
pub fn page_url(repo: &str, page: u32) -> (r: String)
    ensures
        r@ == "https://api.github.com/repos/"@ + repo@ + "/releases?per_page=50&page="@
            + number::decimal(page as nat),
{
    text::concat4(
        "https://api.github.com/repos/",
        repo,
        "/releases?per_page=50&page=",
        &number::u64_text(page as u64),
    )
}

/// How many pages are read at most.
pub const MAX_PAGES: u32 = 10;

/// How many releases a page has.
pub const PAGE_SIZE: usize = 50;

/// The releases of a page that are neither drafts nor previews.
pub open spec fn published(page: Seq<GHRelease>) -> Seq<GHRelease> {
    page.filter(|r: GHRelease| !r.draft && !r.prerelease)
}

/// Whether no further page is needed: it is settled which tags count (there are tags of both
/// forms, or none with a slash), and the releases hold what is wanted.
pub open spec fn settled(buffer: Seq<GHRelease>) -> bool {
    let skip = skips(buffer);
    &&& skip || !some_slashed(buffer)
    &&& minors(buffer, skip).len() >= MINOR_WANTED
    &&& majors(buffer, skip).len() > 0
}

/// Takes a page of releases, counted from one, and says whether to stop: no further page is
/// needed, the page is not full, or it is the last that is read.
pub fn take_page(buffer: &mut Vec<GHRelease>, page: Vec<GHRelease>, number: u32) -> (stop: bool)
    ensures
        final(buffer)@ == old(buffer)@ + published(page@),
        stop == (settled(old(buffer)@ + published(page@)) || page@.len() < PAGE_SIZE || number
            >= MAX_PAGES),
        page@.len() < 50 || number >= 10 ==> stop,
        stop ==> settled(final(buffer)@) || page@.len() < 50 || number >= 10,
{
    let is_last = page.len() < PAGE_SIZE;
    let ghost had = buffer@;
    let ghost all = page@;
    let ghost p = |r: GHRelease| !r.draft && !r.prerelease;
    assert(had =~= had + all.take(0).filter(p)) by {
        reveal(Seq::filter);
    }
    for x in it: page
        invariant
            it.seq() == all,
            p == (|r: GHRelease| !r.draft && !r.prerelease),
            buffer@ == had + all.take(it.index() as int).filter(p),
    {
        proof {
            let i = it.index() as int;
            lists::take_next(all, i);
            all.take(i).lemma_filter_push(x, p);
            let a = all.take(i).filter(p);
            assert(had + a.push(x) =~= (had + a).push(x));
        }
        if !x.draft && !x.prerelease {
            buffer.push(x);
        }
    }
    proof {
        lists::take_all(all);
    }
    let skip_slash = prefer_non_slash(buffer);
    let confirmed = skip_slash || !any_slashed(buffer);
    (confirmed && buffer_is_sufficient(buffer, skip_slash)) || is_last || number >= MAX_PAGES
}

/// What is told of a repository's releases.
pub struct RepoReleases {
    /// The first five releases that are not major.
    pub minor_releases: Vec<ReleaseItem>,
    /// The first major release, if there is one.
    pub major_release: Option<ReleaseItem>,
}

/// The releases as they are shown.
pub open spec fn all_shown(s: Seq<GHRelease>) -> Seq<Release> {
    s.map_values(|r: GHRelease| shown(r))
}

/// Picks the first five minor releases and the first major one.
pub fn pick_releases(buffer: Vec<GHRelease>) -> (r: RepoReleases)
    ensures
        ({
            let skip = skips(buffer@);
            &&& lists::views(r.minor_releases@) == all_shown(order::cut(minors(buffer@, skip), 5))
            &&& r.major_release is Some == (majors(buffer@, skip).len() > 0)
            &&& r.major_release matches Some(x) ==> x@ == shown(majors(buffer@, skip)[0])
        }),
        r.minor_releases@.len() <= 5,
        forall|i: int|
            0 <= i < r.minor_releases@.len() ==> !(#[trigger] r.minor_releases@[i]).is_major,
        r.major_release matches Some(x) ==> x.is_major,
{
    let skip_slash = prefer_non_slash(&buffer);
    let ghost all = buffer@;
    let mut minor_releases: Vec<ReleaseItem> = Vec::new();
    let mut major_release: Option<ReleaseItem> = None;
    proof {
        assert(minors(all.take(0), skip_slash) =~= Seq::empty() && majors(all.take(0), skip_slash)
            =~= Seq::empty()) by {
            reveal(Seq::filter);
        }
        assert(lists::views(minor_releases@) =~= all_shown(
            order::cut(minors(all.take(0), skip_slash), 5),
        ));
    }
    for x in it: buffer
        invariant
            it.seq() == all,
            ({
                let mi = minors(all.take(it.index() as int), skip_slash);
                let ma = majors(all.take(it.index() as int), skip_slash);
                &&& lists::views(minor_releases@) == all_shown(order::cut(mi, 5))
                &&& major_release is Some == (ma.len() > 0)
                &&& major_release matches Some(x) ==> x@ == shown(ma[0])
            }),
    {
        let ghost i = it.index() as int;
        let ghost mi = minors(all.take(i), skip_slash);
        proof {
            lemma_considered_next(all, skip_slash, i);
            assert(lists::views(minor_releases@).len() == minor_releases@.len());
        }
        if !(skip_slash && text::contains_char(&x.tag_name, '/')) {
            let ghost raw = x;
            let item = to_release_item(x);
            if item.is_major {
                if major_release.is_none() {
                    major_release = Some(item);
                }
            } else {
                proof {
                    lists::views_push(minor_releases@, item);
                    if mi.len() < 5 {
                        assert(all_shown(order::cut(mi.push(raw), 5)) =~= all_shown(
                            order::cut(mi, 5),
                        ).push(shown(raw)));
                    } else {
                        assert(order::cut(mi.push(raw), 5) =~= order::cut(mi, 5));
                    }
                }
                if minor_releases.len() < 5 {
                    minor_releases.push(item);
                }
            }
        }
    }
    proof {
        lists::take_all(all);
        let skip = skips(all);
        let mi = minors(all, skip);
        assert(lists::views(minor_releases@).len() == minor_releases@.len());
        assert forall|i: int| 0 <= i < minor_releases@.len() implies !(
        #[trigger] minor_releases@[i]).is_major by {
            assert(lists::views(minor_releases@)[i] == shown(mi[i]));
            assert(mi.contains(mi[i]));
            what_counts_is_major_or_minor(all, mi[i]);
        }
        if majors(all, skip).len() > 0 {
            assert(majors(all, skip).contains(majors(all, skip)[0]));
            what_counts_is_major_or_minor(all, majors(all, skip)[0]);
        }
    }
    RepoReleases { minor_releases, major_release }
}

/// Once no further page is needed, none changes what is picked: the first five minor releases
/// and the first major one stay the same whatever follows.
pub proof fn further_pages_change_nothing(b: Seq<GHRelease>, more: Seq<GHRelease>)
    requires
        settled(b),
    ensures
        order::cut(minors(b + more, skips(b + more)), 5) == order::cut(minors(b, skips(b)), 5),
        majors(b + more, skips(b + more)).len() > 0,
        majors(b + more, skips(b + more))[0] == majors(b, skips(b))[0],
{
    let all = b + more;
    let skip = skips(all);
    let p = |r: GHRelease| !(skip && slashed(r));
    let q = |r: GHRelease| !(skips(b) && slashed(r));
    let minor = |r: GHRelease| !is_major(r.tag_name@);
    let major = |r: GHRelease| is_major(r.tag_name@);
    if skips(b) {
        let i = choose|i: int| 0 <= i < b.len() && slashed(#[trigger] b[i]);
        let j = choose|j: int| 0 <= j < b.len() && !slashed(#[trigger] b[j]);
        assert(all[i] == b[i] && all[j] == b[j]);
        assert(skip);
    }
    assert(b.filter(p) == b.filter(q)) by {
        lemma_filter_agrees(b, p, q);
    }
    Seq::filter_distributes_over_add(b, more, p);
    Seq::filter_distributes_over_add(b.filter(p), more.filter(p), minor);
    Seq::filter_distributes_over_add(b.filter(p), more.filter(p), major);
    assert(order::cut(minors(all, skip), 5) =~= order::cut(minors(b, skips(b)), 5));
}

/// Tests that agree on every item keep the same items.
proof fn lemma_filter_agrees(
    s: Seq<GHRelease>,
    p: spec_fn(GHRelease) -> bool,
    q: spec_fn(GHRelease) -> bool,
)
    requires
        forall|i: int| 0 <= i < s.len() ==> p(#[trigger] s[i]) == q(s[i]),
    ensures
        s.filter(p) == s.filter(q),
    decreases s.len(),
{
    reveal(Seq::filter);
    if s.len() > 0 {
        assert forall|i: int| 0 <= i < s.len() - 1 implies p(#[trigger] s.drop_last()[i]) == q(
            s.drop_last()[i],
        ) by {
            assert(p(s[i]) == q(s[i]));
        }
        lemma_filter_agrees(s.drop_last(), p, q);
        assert(p(s[s.len() - 1]) == q(s[s.len() - 1]));
    }
}

// ── Repository names ───────────────────────────────────────────────────────────

/// The forms in which the host stands before a repository.
pub const HOSTS: [&'static str; 3] = [
    "https://github.com/",
    "http://github.com/",
    "github.com/",
];

/// The name of a repository without a query, a fragment or the suffix of a clone.
pub open spec fn clean_repo(s: Seq<char>) -> Seq<char> {
    text::without_suffixes(
        text::first_piece(text::first_piece(s, seq!['?']), seq!['#']),
        ".git"@,
    )
}

/// The owner and the repository that an input names: white space and slashes at the end, the
/// host, and what follows the repository are removed. Without a slash the input is a name
/// alone.
pub open spec fn normal_repo(input: Seq<char>) -> Seq<char> {
    let s = text::one_prefix_off(
        text::without_suffixes(text::trimmed(input), "/"@),
        text::str_views(HOSTS@),
    );
    match text::split_at_first(s, '/') {
        Some(p) => p.0 + "/"@ + clean_repo(text::first_piece(p.1, seq!['/'])),
        None => s,
    }
}

/// The owner and the repository that an input names.
pub fn normalise_repo(input: &str) -> (r: String)
    ensures
        r@ == normal_repo(input@),
{
    proof {
        reveal_strlit("/");
        reveal_strlit(".git");
    }
    let slash = ['/'];
    let mark = ['?'];
    let hash = ['#'];
    assert(slash@ =~= seq!['/']);
    assert(mark@ =~= seq!['?']);
    assert(hash@ =~= seq!['#']);
    let s = text::strip_one_prefix(&text::trim_end_matches(&text::trim(input), "/"), &HOSTS);
    match text::split_once(&s, '/') {
        Some(p) => {
            let raw = text::split_first(&p.1, &slash);
            let bare = text::split_first(&text::split_first(&raw, &mark), &hash);
            let repo = text::trim_end_matches(&bare, ".git");
            text::concat3(&p.0, "/", &repo)
        },
        None => s,
    }
}

/// Whether a text can be the name of an owner or a repository: it is not empty and has no white
/// space, slash, question mark or hash.
pub open spec fn is_bare_name(s: Seq<char>) -> bool {
    s.len() > 0 && forall|i: int|
        0 <= i < s.len() ==> !text::is_space(#[trigger] s[i]) && s[i] != '/' && s[i] != '?' && s[i]
            != '#'
}

/// Whether a text may follow a repository in an address: it is empty, or a path, a query or a
/// fragment.
pub open spec fn is_tail(t: Seq<char>) -> bool {
    t.len() == 0 || t[0] == '/' || t[0] == '?' || t[0] == '#'
}

/// What may stand before an owner: nothing or the host in one of its forms.
pub open spec fn is_host(h: Seq<char>) -> bool {
    h.len() == 0 || text::str_views(HOSTS@).contains(h)
}

/// Trailing white space goes up to the last other character.
proof fn lemma_trim_end_stops(a: Seq<char>, b: Seq<char>) -> (k: int)
    requires
        a.len() > 0,
        !text::is_space(a.last()),
    ensures
        0 <= k <= b.len(),
        text::trimmed_end(a + b) == a + b.take(k),
    decreases b.len(),
{
    let s = a + b;
    if b.len() == 0 {
        assert(s =~= a);
        assert(a + b.take(0) =~= s);
        0
    } else if text::is_space(b.last()) {
        assert(s.last() == b.last());
        assert(s.take(s.len() - 1) =~= a + b.drop_last());
        let k = lemma_trim_end_stops(a, b.drop_last());
        assert(b.drop_last().take(k) =~= b.take(k));
        k
    } else {
        assert(s.last() == b.last());
        assert(b.take(b.len() as int) =~= b);
        b.len() as int
    }
}

/// Slashes at the end go up to the last other character.
proof fn lemma_slashes_stop(a: Seq<char>, b: Seq<char>) -> (k: int)
    requires
        a.len() > 0,
        a.last() != '/',
    ensures
        0 <= k <= b.len(),
        text::without_suffixes(a + b, "/"@) == a + b.take(k),
    decreases b.len(),
{
    reveal_strlit("/");
    let s = a + b;
    let p = "/"@;
    assert(p =~= seq!['/']);
    assert(text::ends(s, p) == (s.last() == '/')) by {
        let e = s.subrange(s.len() - 1, s.len() as int);
        assert(e =~= seq![s.last()]);
        if text::ends(s, p) {
            assert(e[0] == p[0]);
        }
    }
    if b.len() == 0 {
        assert(s =~= a);
        assert(a + b.take(0) =~= s);
        0
    } else if b.last() == '/' {
        assert(s.last() == b.last());
        assert(s.take(s.len() - 1) =~= a + b.drop_last());
        let k = lemma_slashes_stop(a, b.drop_last());
        assert(b.drop_last().take(k) =~= b.take(k));
        k
    } else {
        assert(s.last() == b.last());
        assert(b.take(b.len() as int) =~= b);
        b.len() as int
    }
}

/// The first separator behind a text without separators.
proof fn lemma_sep_behind(a: Seq<char>, b: Seq<char>, c: char, i: int)
    requires
        0 <= i <= a.len(),
        forall|j: int| 0 <= j < a.len() ==> #[trigger] a[j] != c,
    ensures
        text::sep_from(a + b, seq![c], i) == a.len() + text::sep_from(b, seq![c], 0),
    decreases a.len() - i,
{
    let s = a + b;
    if i < a.len() {
        assert(s[i] == a[i]);
        assert(seq![c][0] == c);
        assert(!seq![c].contains(s[i]));
        lemma_sep_behind(a, b, c, i + 1);
    } else {
        lemma_sep_shift(a, b, c, 0);
    }
}

/// The first separator in a text is at the same place behind another text.
proof fn lemma_sep_shift(a: Seq<char>, b: Seq<char>, c: char, i: int)
    requires
        0 <= i <= b.len(),
    ensures
        text::sep_from(a + b, seq![c], a.len() + i) == a.len() + text::sep_from(b, seq![c], i),
    decreases b.len() - i,
{
    if i < b.len() {
        assert((a + b)[a.len() + i] == b[i]);
        lemma_sep_shift(a, b, c, i + 1);
    }
}

/// What stands before the first separator behind a text without separators: the text, and what
/// stands before the first separator of the rest.
proof fn lemma_piece_behind(a: Seq<char>, b: Seq<char>, c: char)
    requires
        forall|j: int| 0 <= j < a.len() ==> #[trigger] a[j] != c,
    ensures
        text::first_piece(a + b, seq![c]) == a + text::first_piece(b, seq![c]),
{
    lemma_sep_behind(a, b, c, 0);
    text::sep_from_bounds(b, seq![c], 0);
    let k = text::sep_from(b, seq![c], 0);
    assert((a + b).take(a.len() + k) =~= a + b.take(k));
}

/// A tail cut at a separator is still a tail.
proof fn lemma_tail_cut(t: Seq<char>, c: char)
    requires
        is_tail(t),
    ensures
        is_tail(text::first_piece(t, seq![c])),
        text::first_piece(t, seq![c]).len() == 0 || text::first_piece(t, seq![c])[0] != c,
{
    text::sep_from_bounds(t, seq![c], 0);
    if t.len() > 0 && t[0] == c {
        assert(seq![c][0] == c);
        assert(seq![c].contains(t[0]));
    }
}

/// The repository without what follows it.
proof fn lemma_clean_repo(repo: Seq<char>, git: Seq<char>, t: Seq<char>)
    requires
        is_bare_name(repo),
        !text::ends(repo, ".git"@),
        git.len() == 0 || git == ".git"@,
        is_tail(t),
        t.len() == 0 || t[0] != '/',
    ensures
        clean_repo(repo + git + t) == repo,
{
    reveal_strlit(".git");
    let a = repo + git;
    assert forall|j: int| 0 <= j < a.len() implies #[trigger] a[j] != '?' && a[j] != '#' by {
        if j < repo.len() {
            assert(a[j] == repo[j]);
        } else {
            assert(a[j] == ".git"@[j - repo.len()]);
        }
    }
    lemma_piece_behind(a, t, '?');
    lemma_tail_cut(t, '?');
    let u = text::first_piece(t, seq!['?']);
    text::sep_from_bounds(t, seq!['?'], 0);
    lemma_piece_behind(a, u, '#');
    lemma_tail_cut(u, '#');
    let v = text::first_piece(u, seq!['#']);
    text::sep_from_bounds(u, seq!['#'], 0);
    assert(v.len() == 0) by {
        if v.len() > 0 {
            assert(v[0] == u[0] && u[0] == t[0]);
        }
    }
    assert(a + v =~= a);
    assert(".git"@.len() == 4);
    reveal_with_fuel(text::without_suffixes, 2);
    if git.len() == 0 {
        assert(a =~= repo);
    } else {
        assert(a.subrange(a.len() - 4, a.len() as int) =~= ".git"@);
        assert(a.take(a.len() - 4) =~= repo);
    }
}

/// The host before an owner is removed, in each of its forms.
proof fn lemma_host_off(h: Seq<char>, owner: Seq<char>, rest: Seq<char>)
    requires
        is_host(h),
        is_bare_name(owner),
        owner != "github.com"@,
        rest.len() > 0,
        rest[0] != '/',
    ensures
        text::one_prefix_off(h + (owner + "/"@ + rest), text::str_views(HOSTS@)) == owner + "/"@
            + rest,
{
    reveal_strlit("https://github.com/");
    reveal_strlit("http://github.com/");
    reveal_strlit("github.com/");
    reveal_strlit("github.com");
    reveal_strlit("/");
    let v = text::str_views(HOSTS@);
    let a = "https://github.com/"@;
    let b = "http://github.com/"@;
    let c = "github.com/"@;
    assert(v[0] == a && v[1] == b && v[2] == c && v.len() == 3);
    let x = owner + "/"@ + rest;
    let s = h + x;
    assert(v.skip(1).len() == 2 && v.skip(1)[0] == b);
    assert(v.skip(1).skip(1).len() == 1 && v.skip(1).skip(1)[0] == c);
    assert(v.skip(1).skip(1).skip(1).len() == 0);
    reveal_with_fuel(text::one_prefix_off, 4);
    assert(a.len() == 19 && b.len() == 18 && c.len() == 11);
    assert(a[0] == 'h' && a[4] == 's' && a[6] == '/' && a[7] == '/');
    assert(b[0] == 'h' && b[4] == ':' && b[5] == '/' && b[6] == '/');
    assert(c[0] == 'g' && c[10] == '/');
    assert(x[owner.len() as int] == '/');
    assert(x[owner.len() as int + 1] == rest[0]);
    if h.len() == 0 {
        assert(s =~= x);
        assert(!text::begins(s, a)) by {
            if text::begins(s, a) {
                let f = s.subrange(0, 19);
                assert(f[6] == s[6] && f[7] == s[7]);
                lemma_first_slash(owner, rest, a, 6);
            }
        }
        assert(!text::begins(s, b)) by {
            if text::begins(s, b) {
                let f = s.subrange(0, 18);
                assert(f[5] == s[5] && f[6] == s[6]);
                lemma_first_slash(owner, rest, b, 5);
            }
        }
        assert(!text::begins(s, c)) by {
            if text::begins(s, c) {
                lemma_first_slash(owner, rest, c, 10);
                assert(owner =~= "github.com"@) by {
                    let f = s.subrange(0, 11);
                    assert forall|j: int| 0 <= j < 10 implies owner[j] == "github.com"@[j] by {
                        assert(f[j] == s[j]);
                        assert(s[j] == owner[j]);
                        assert(c[j] == "github.com"@[j]);
                    }
                }
            }
        }
    } else {
        let k = choose|k: int| 0 <= k < v.len() && v[k] == h;
        assert(s.subrange(0, h.len() as int) =~= h);
        assert(s.skip(h.len() as int) =~= x);
        if k == 1 {
            assert(!text::begins(s, a)) by {
                if text::begins(s, a) {
                    let f = s.subrange(0, 19);
                    assert(f[4] == s[4] && s[4] == b[4]);
                }
            }
        } else if k == 2 {
            assert(!text::begins(s, a)) by {
                if text::begins(s, a) {
                    let f = s.subrange(0, 19);
                    assert(f[0] == s[0] && s[0] == c[0]);
                }
            }
            assert(!text::begins(s, b)) by {
                if text::begins(s, b) {
                    let f = s.subrange(0, 18);
                    assert(f[0] == s[0] && s[0] == c[0]);
                }
            }
        }
    }
}

/// Where an owner and what follows it begin with a prefix whose first slash is at `n`, the owner
/// has `n` characters.
proof fn lemma_first_slash(owner: Seq<char>, rest: Seq<char>, p: Seq<char>, n: int)
    requires
        is_bare_name(owner),
        text::begins(owner + "/"@ + rest, p),
        0 <= n < p.len(),
        p[n] == '/',
        forall|j: int| 0 <= j < n ==> #[trigger] p[j] != '/',
    ensures
        owner.len() == n,
{
    reveal_strlit("/");
    let s = owner + "/"@ + rest;
    let f = s.subrange(0, p.len() as int);
    assert(f[n] == s[n]);
    if owner.len() > n {
        assert(s[n] == owner[n]);
    } else if owner.len() < n {
        assert(f[owner.len() as int] == s[owner.len() as int]);
        assert(s[owner.len() as int] == '/');
        assert(p[owner.len() as int] != '/');
    }
}

/// An owner and a repository are found in each form in which they are written: with or without
/// the host, the suffix of a clone, and a path, a query or a fragment behind them. An owner named
/// like the host is left out, since it reads as the host.
pub proof fn repo_forms_agree(
    host: Seq<char>,
    owner: Seq<char>,
    repo: Seq<char>,
    git: Seq<char>,
    tail: Seq<char>,
)
    requires
        is_host(host),
        is_bare_name(owner),
        owner != "github.com"@,
        is_bare_name(repo),
        !text::ends(repo, ".git"@),
        git.len() == 0 || git == ".git"@,
        is_tail(tail),
    ensures
        normal_repo(host + (owner + "/"@ + (repo + git + tail))) == owner + "/"@ + repo,
{
    reveal_strlit("/");
    reveal_strlit(".git");
    reveal_strlit("https://github.com/");
    reveal_strlit("http://github.com/");
    reveal_strlit("github.com/");
    let input = host + (owner + "/"@ + (repo + git + tail));
    let front = host + (owner + "/"@ + (repo + git));
    assert(input =~= front + tail);
    let v = text::str_views(HOSTS@);
    assert(v[0] == "https://github.com/"@ && v[1] == "http://github.com/"@ && v[2]
        == "github.com/"@);
    if host.len() > 0 {
        let k = choose|k: int| 0 <= k < v.len() && v[k] == host;
        assert(host[0] == 'h' || host[0] == 'g');
        assert(front[0] == host[0]);
    } else {
        assert(front[0] == owner[0]);
    }
    assert(!text::is_space(front[0]));
    assert(input[0] == front[0]);
    if git.len() == 0 {
        assert(front.last() == repo[repo.len() - 1]);
    } else {
        assert(front.last() == ".git"@[3]);
    }
    let k = lemma_trim_end_stops(front, tail);
    let t1 = tail.take(k);
    let m = lemma_slashes_stop(front, t1);
    let t2 = t1.take(m);
    assert(is_tail(t2));
    let rest = repo + git + t2;
    assert(front + t2 =~= host + (owner + "/"@ + rest));
    assert(rest[0] == repo[0]);
    lemma_host_off(host, owner, rest);
    let x = owner + "/"@ + rest;
    assert(x =~= owner + ("/"@ + rest));
    lemma_sep_behind(owner, "/"@ + rest, '/', 0);
    assert(("/"@ + rest)[0] == '/');
    assert(seq!['/'][0] == '/');
    assert(seq!['/'].contains(("/"@ + rest)[0]));
    assert(x.take(owner.len() as int) =~= owner);
    assert(x.skip(owner.len() as int + 1) =~= rest);
    let a = repo + git;
    assert forall|j: int| 0 <= j < a.len() implies #[trigger] a[j] != '/' by {
        if j < repo.len() {
            assert(a[j] == repo[j]);
        } else {
            assert(a[j] == ".git"@[j - repo.len()]);
        }
    }
    lemma_piece_behind(a, t2, '/');
    lemma_tail_cut(t2, '/');
    lemma_clean_repo(repo, git, text::first_piece(t2, seq!['/']));
}

// ── Laws ─────────────────────────────────────────────────────────────────────

/// A version is read from a tag: three numbers with dots between them, behind whatever has no
/// digit, are its three numbers, and what follows a hyphen plays no part.
pub proof fn versions_read_back(front: Seq<char>, a: nat, b: nat, c: nat, tail: Seq<char>)
    requires
        forall|i: int| 0 <= i < front.len() ==> !number::is_digit(#[trigger] front[i]),
        a <= u64::MAX,
        b <= u64::MAX,
        c <= u64::MAX,
        tail.len() == 0 || tail[0] == '-',
    ensures
        version(
            front + number::decimal(a) + seq!['.'] + number::decimal(b) + seq!['.']
                + number::decimal(c) + tail,
        ) == Some((a, b, c)),
        version(front + number::decimal(a) + seq!['.'] + number::decimal(b) + tail) == Some(
            (a, b, 0nat),
        ),
        version(front + number::decimal(a) + tail) == Some((a, 0nat, 0nat)),
        version(front) is None,
{
    let da = number::decimal(a);
    let db = number::decimal(b);
    let dc = number::decimal(c);
    number::decimal_is_digits(a);
    number::decimal_is_digits(b);
    number::decimal_is_digits(c);
    number::decimal_reads_back(a);
    number::decimal_reads_back(b);
    number::decimal_reads_back(c);
    let dot = seq!['.'];
    let three = da + dot + db + dot + dc;
    let two = da + dot + db;
    assert(front + da + dot + db + dot + dc + tail =~= front + (three + tail));
    assert(front + da + dot + db + tail =~= front + (two + tail));
    assert(front + da + tail =~= front + (da + tail));
    lemma_from_digit(front, three + tail);
    lemma_from_digit(front, two + tail);
    lemma_from_digit(front, da + tail);
    assert(front + Seq::<char>::empty() =~= front);
    lemma_from_digit(front, Seq::empty());
    lemma_hyphen_cut(three, tail);
    lemma_hyphen_cut(two, tail);
    lemma_hyphen_cut(da, tail);
    text::split_around(da, '.', db + dot + dc);
    assert(da + dot + (db + dot + dc) =~= three);
    text::split_around(db, '.', dc);
    text::no_split(dc, '.');
    text::split_around(da, '.', db);
    text::no_split(db, '.');
    text::no_split(da, '.');
    assert(seq![da] + (seq![db] + seq![dc]) =~= seq![da, db, dc]);
    assert(seq![da] + seq![db] =~= seq![da, db]);
    lemma_numbers(seq![da, db, dc]);
    lemma_numbers(seq![da, db]);
    lemma_numbers(seq![da]);
    text::no_split(Seq::empty(), '-');
    text::no_split(Seq::empty(), '.');
    let none = seq![Seq::<char>::empty()];
    assert(none.drop_last() =~= Seq::<Seq<char>>::empty());
    assert(numbers(none.drop_last()) =~= Seq::<nat>::empty());
    assert(number::parsed_within(none.last(), u64::MAX as nat) is None);
    assert(numbers(none) =~= Seq::<nat>::empty());
}

/// What stands before the first digit is passed over.
proof fn lemma_from_digit(front: Seq<char>, rest: Seq<char>)
    requires
        forall|i: int| 0 <= i < front.len() ==> !number::is_digit(#[trigger] front[i]),
        rest.len() == 0 || number::is_digit(rest[0]),
    ensures
        from_digit(front + rest) == rest,
    decreases front.len(),
{
    let s = front + rest;
    if front.len() == 0 {
        assert(s =~= rest);
    } else {
        assert(s[0] == front[0]);
        assert(s.skip(1) =~= front.skip(1) + rest);
        lemma_from_digit(front.skip(1), rest);
    }
}

/// Numbers and dots are kept up to a hyphen.
proof fn lemma_hyphen_cut(s: Seq<char>, tail: Seq<char>)
    requires
        forall|i: int| 0 <= i < s.len() ==> number::is_digit(#[trigger] s[i]) || s[i] == '.',
        tail.len() == 0 || tail[0] == '-',
    ensures
        text::first_piece(s + tail, seq!['-']) == s,
{
    let seps = seq!['-'];
    assert forall|i: int| 0 <= i < s.len() implies !seps.contains(#[trigger] s[i]) by {
        if seps.contains(s[i]) {
            assert(s[i] == '-');
        }
    }
    if tail.len() > 0 {
        assert(seps[0] == '-');
    }
    text::first_piece_is_front(s, tail, seps);
}

/// Where all texts are numbers, all are among the numbers.
proof fn lemma_numbers(parts: Seq<Seq<char>>)
    requires
        forall|i: int|
            0 <= i < parts.len() ==> number::parsed_within(#[trigger] parts[i], u64::MAX as nat) is Some,
    ensures
        numbers(parts).len() == parts.len(),
        forall|i: int|
            0 <= i < parts.len() ==> Some(#[trigger] numbers(parts)[i]) == number::parsed_within(
                parts[i],
                u64::MAX as nat,
            ),
    decreases parts.len(),
{
    if parts.len() > 0 {
        let a = parts.drop_last();
        assert forall|i: int| 0 <= i < a.len() implies number::parsed_within(
            #[trigger] a[i],
            u64::MAX as nat,
        ) is Some by {
            assert(a[i] == parts[i]);
        }
        lemma_numbers(a);
        assert(parts[parts.len() - 1] == parts.last());
        assert forall|i: int| 0 <= i < parts.len() implies Some(#[trigger] numbers(parts)[i])
            == number::parsed_within(parts[i], u64::MAX as nat) by {
            if i < a.len() {
                assert(numbers(parts)[i] == numbers(a)[i]);
                assert(a[i] == parts[i]);
            }
        }
    }
}

/// A release is major where its version's second and third numbers are zero, and only then.
pub proof fn majors_end_in_zeros(front: Seq<char>, a: nat, b: nat, c: nat)
    requires
        forall|i: int| 0 <= i < front.len() ==> !number::is_digit(#[trigger] front[i]),
        a <= u64::MAX,
        b <= u64::MAX,
        c <= u64::MAX,
    ensures
        is_major(
            front + number::decimal(a) + seq!['.'] + number::decimal(b) + seq!['.']
                + number::decimal(c),
        ) <==> b == 0 && c == 0,
        is_major(front + number::decimal(a) + seq!['.'] + number::decimal(b)) <==> b == 0,
        !is_major(front),
{
    let none = Seq::<char>::empty();
    versions_read_back(front, a, b, c, none);
    let t = front + number::decimal(a) + seq!['.'] + number::decimal(b) + seq!['.']
        + number::decimal(c);
    assert(t + none =~= t);
    let u = front + number::decimal(a) + seq!['.'] + number::decimal(b);
    assert(u + none =~= u);
}

/// A release is shown with its tag, its address, its day and its text up to 2000 characters, and
/// under its name, or its tag where the name is blank.
pub proof fn releases_are_told_as_they_are(r: GHRelease)
    ensures
        shown(r).tag_name == r.tag_name@,
        shown(r).url == r.html_url@,
        text::trimmed(r.name@).len() > 0 ==> shown(r).name == r.name@,
        text::trimmed(r.name@).len() == 0 ==> shown(r).name == r.tag_name@,
        r.body@.len() <= 2000 ==> shown(r).body == r.body@,
        r.body@.len() > 2000 ==> shown(r).body == r.body@.take(2000),
        r.published_at matches Some(d) ==> shown(r).published == time::rfc3339_time(d@),
        r.published_at is None ==> shown(r).published is None,
        shown(r).is_major == is_major(r.tag_name@),
{
}

/// Every release of a page that is neither a draft nor a preview counts, and no other does.
pub proof fn drafts_and_previews_are_left_out(page: Seq<GHRelease>, r: GHRelease)
    ensures
        published(page).contains(r) <==> page.contains(r) && !r.draft && !r.prerelease,
        (forall|i: int| 0 <= i < page.len() ==> !(#[trigger] page[i]).draft && !page[i].prerelease)
            ==> published(page) == page,
{
    broadcast use vstd::seq_lib::group_filter_ensures;

    let p = |r: GHRelease| !r.draft && !r.prerelease;
    let f = page.filter(p);
    if f.contains(r) {
        page.lemma_filter_contains_rev(p, r);
        let i = choose|i: int| 0 <= i < f.len() && f[i] == r;
        assert(p(f[i]));
    }
    if page.contains(r) && p(r) {
        let i = choose|i: int| 0 <= i < page.len() && page[i] == r;
        assert(f.contains(page[i]));
    }
    if forall|i: int| 0 <= i < page.len() ==> !(#[trigger] page[i]).draft && !page[i].prerelease {
        assert forall|i: int| 0 <= i < page.len() implies p(#[trigger] page[i]) by {
            assert(!page[i].draft);
        }
        lists::filter_of_all(page, p);
    }
}

/// Tags with a slash are passed over where there are others, and count where all have one; what
/// counts is split into major and minor releases, so that none is lost and none stands in both.
pub proof fn what_counts_is_major_or_minor(s: Seq<GHRelease>, r: GHRelease)
    ensures
        !some_slashed(s) || !some_plain(s) ==> considered(s, skips(s)) == s,
        skips(s) ==> (considered(s, skips(s)).contains(r) <==> s.contains(r) && !slashed(r)),
        majors(s, skips(s)).contains(r) <==> considered(s, skips(s)).contains(r) && is_major(
            r.tag_name@,
        ),
        minors(s, skips(s)).contains(r) <==> considered(s, skips(s)).contains(r) && !is_major(
            r.tag_name@,
        ),
{
    broadcast use vstd::seq_lib::group_filter_ensures;

    let skip = skips(s);
    let p = |r: GHRelease| !(skip && slashed(r));
    let c = s.filter(p);
    if !skip {
        assert forall|i: int| 0 <= i < s.len() implies p(#[trigger] s[i]) by {}
        lists::filter_of_all(s, p);
    }
    lists::filter_holds(s, p, r);
    lists::filter_holds(c, |r: GHRelease| is_major(r.tag_name@), r);
    lists::filter_holds(c, |r: GHRelease| !is_major(r.tag_name@), r);
}

/// The releases that are told are the first: the minor ones are those that come first in the list,
/// in its order, and the major one is the first there.
pub proof fn the_first_releases_are_told(s: Seq<GHRelease>, i: int)
    requires
        0 <= i < s.len(),
        !some_slashed(s),
        forall|j: int| 0 <= j < i ==> !is_major((#[trigger] s[j]).tag_name@),
    ensures
        is_major(s[i].tag_name@) ==> majors(s, skips(s)).len() > 0 && majors(s, skips(s))[0] == s[i],
        !is_major(s[i].tag_name@) && i < 5 ==> order::cut(minors(s, skips(s)), 5).len() > i
            && order::cut(minors(s, skips(s)), 5)[i] == s[i],
{
    what_counts_is_major_or_minor(s, s[i]);
    let major = |r: GHRelease| is_major(r.tag_name@);
    let minor = |r: GHRelease| !is_major(r.tag_name@);
    let front = s.take(i);
    assert forall|j: int| 0 <= j < front.len() implies minor(#[trigger] front[j]) by {
        assert(!is_major(s[j].tag_name@));
    }
    lists::filter_of_all(front, minor);
    if minor(s[i]) {
        let k = lists::index_after_filter(s, minor, i);
    } else {
        assert forall|j: int| 0 <= j < front.len() implies !major(#[trigger] front[j]) by {
            assert(!is_major(s[j].tag_name@));
        }
        lists::filter_of_none(front, major);
        let k = lists::index_after_filter(s, major, i);
    }
}

/// No further page is read once five minor releases and a major one are known and it is settled
/// which tags count, and not before.
pub proof fn five_minors_and_a_major_are_enough(s: Seq<GHRelease>)
    requires
        !some_slashed(s),
    ensures
        settled(s) <==> minors(s, false).len() >= 5 && majors(s, false).len() > 0,
{
}

/// While all tags have a slash it is not settled which count.
pub proof fn slashes_alone_settle_nothing(s: Seq<GHRelease>)
    requires
        some_slashed(s),
        !some_plain(s),
    ensures
        !settled(s),
{
}

} // verus!
