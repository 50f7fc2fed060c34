//! A radar of technologies.
use vstd::prelude::*;
use crate::fetcher::NewsItem;
use crate::lists;
use crate::number;
use crate::order;
use crate::percent;
use crate::text;
use crate::text::same;
use crate::time;
use crate::time::Timestamp;
use crate::unicode;

pub mod terminal;

verus! {

/// A technology on the radar.
#[derive(Debug, Clone)]
pub struct Blip {
    pub name: String,
    pub canonical_name: String,
    pub kind: String,
    /// "q1", "q2", "q3" or "q4".
    pub quadrant: String,
    /// "adopt", "trial", "assess" or "hold".
    pub ring: String,
    pub is_open_source: bool,
    pub description: String,
    pub license: String,
    pub upstream: Vec<String>,
    pub downstream: Vec<String>,
    pub pros: Vec<String>,
    pub cons: Vec<String>,
    pub rationale: String,
    /// The repository that was found for it.
    pub github_repo: String,
    /// The days since the last work on the repository.
    pub github_days: Option<i64>,
    /// The number on the radar.
    pub number: usize,
}

/// A technology, by its texts.
#[verifier::ext_equal]
pub struct Tech {
    pub name: Seq<char>,
    pub canonical_name: Seq<char>,
    pub kind: Seq<char>,
    pub quadrant: Seq<char>,
    pub ring: Seq<char>,
    pub is_open_source: bool,
    pub description: Seq<char>,
    pub license: Seq<char>,
    pub upstream: Seq<Seq<char>>,
    pub downstream: Seq<Seq<char>>,
    pub pros: Seq<Seq<char>>,
    pub cons: Seq<Seq<char>>,
    pub rationale: Seq<char>,
    pub github_repo: Seq<char>,
    pub github_days: Option<i64>,
    pub number: usize,
}

impl View for Blip {
    type V = Tech;

    open spec fn view(&self) -> Tech {
        Tech {
            name: self.name@,
            canonical_name: self.canonical_name@,
            kind: self.kind@,
            quadrant: self.quadrant@,
            ring: self.ring@,
            is_open_source: self.is_open_source,
            description: self.description@,
            license: self.license@,
            upstream: text::views(self.upstream@),
            downstream: text::views(self.downstream@),
            pros: text::views(self.pros@),
            cons: text::views(self.cons@),
            rationale: self.rationale@,
            github_repo: self.github_repo@,
            github_days: self.github_days,
            number: self.number,
        }
    }
}

/// A sign of a technology.
#[derive(Debug, Clone)]
pub struct RadarSignal {
    pub title: String,
    pub source: String,
    pub url: String,
    pub summary: String,
}

/// What a radar shows.
#[derive(Debug, Clone, Copy, PartialEq, Eq, Structural)]
pub enum RadarMode {
    Project,
    Method,
}

/// The kinds of projects.
pub const PROJECT_KINDS: [&'static str; 8] = [
    "language",
    "framework",
    "library",
    "tool",
    "platform",
    "database",
    "model",
    "service",
];

/// The kinds of methods.
pub const METHOD_KINDS: [&'static str; 2] = ["technique", "method"];

impl RadarMode {
    /// The name of a mode in a cache.
    pub fn cache_key(self) -> (r: &'static str)
        ensures
            r@ == (match self {
                RadarMode::Project => "project"@,
                RadarMode::Method => "method"@,
            }),
    {
        match self {
            RadarMode::Project => "project",
            RadarMode::Method => "method",
        }
    }

    /// The title of a radar.
    pub fn title(self) -> (r: &'static str)
        ensures
            r@ == (match self {
                RadarMode::Project => "專案雷達"@,
                RadarMode::Method => "方法雷達"@,
            }),
    {
        match self {
            RadarMode::Project => "專案雷達",
            RadarMode::Method => "方法雷達",
        }
    }

    /// What an item of a radar is called.
    pub fn item_label(self) -> (r: &'static str)
        ensures
            r@ == (match self {
                RadarMode::Project => "專案"@,
                RadarMode::Method => "方法"@,
            }),
    {
        match self {
            RadarMode::Project => "專案",
            RadarMode::Method => "方法",
        }
    }

    /// Whether a radar shows what is open source.
    pub fn shows_source_icon(self) -> (r: bool)
        ensures
            r == (self == RadarMode::Project),
    {
        match self {
            RadarMode::Project => true,
            RadarMode::Method => false,
        }
    }

    /// What the language model is asked for a radar.
    pub open spec fn prompt_text(self) -> Seq<char> {
        match self {
            RadarMode::Project => PROJECT_RADAR_PROMPT@,
            RadarMode::Method => METHOD_RADAR_PROMPT@,
        }
    }

    /// What the language model is asked for a radar.
    pub fn prompt(self) -> (r: &'static str)
        ensures
            r@ == self.prompt_text(),
    {
        match self {
            RadarMode::Project => PROJECT_RADAR_PROMPT,
            RadarMode::Method => METHOD_RADAR_PROMPT,
        }
    }

    /// What the language model is asked for a review.
    pub open spec fn review_text(self) -> Seq<char> {
        match self {
            RadarMode::Project => PROJECT_REVIEW_PROMPT@,
            RadarMode::Method => METHOD_REVIEW_PROMPT@,
        }
    }

    /// What the language model is asked for a review.
    pub fn review_prompt(self) -> (r: &'static str)
        ensures
            r@ == self.review_text(),
    {
        match self {
            RadarMode::Project => PROJECT_REVIEW_PROMPT,
            RadarMode::Method => METHOD_REVIEW_PROMPT,
        }
    }

    /// Whether a radar shows items of a kind.
    pub open spec fn shows(self, kind: Seq<char>) -> bool {
        match self {
            RadarMode::Project => text::str_views(PROJECT_KINDS@).contains(kind),
            RadarMode::Method => text::str_views(METHOD_KINDS@).contains(kind),
        }
    }

    /// Whether a radar shows items of a kind.
    pub fn accepts_kind(self, kind: &str) -> (r: bool)
        ensures
            r == self.shows(kind@),
    {
        match self {
            RadarMode::Project => text::is_one_of(kind, &PROJECT_KINDS),
            RadarMode::Method => text::is_one_of(kind, &METHOD_KINDS),
        }
    }

    /// The kind of items that have none.
    pub open spec fn default_kind(self) -> Seq<char> {
        match self {
            RadarMode::Project => "tool"@,
            RadarMode::Method => "method"@,
        }
    }

    /// The kind of items that have none.
    pub fn fallback_kind(self) -> (r: &'static str)
        ensures
            r@ == self.default_kind(),
    {
        match self {
            RadarMode::Project => "tool",
            RadarMode::Method => "method",
        }
    }
}

// ── Names ──────────────────────────────────────────────────────────────────────

/// The letters and digits of a name, in lowercase.
pub open spec fn name_key(name: Seq<char>) -> Seq<char> {
    unicode::lowercase(unicode::alphanumerics(name))
}

/// The letters and digits of a name, in lowercase.
pub fn key(name: &str) -> (r: String)
    ensures
        r@ == name_key(name@),
{
    unicode::keep_alphanumeric(name).to_lowercase()
}

/// The usual form of a key that has several.
pub open spec fn usual_key(key: Seq<char>) -> Seq<char> {
    if key == "k8s"@ {
        "kubernetes"@
    } else if key == "postgresql"@ || key == "postgre"@ {
        "postgres"@
    } else if key == "golang"@ {
        "go"@
    } else if key == "dotnet"@ || key == "dotnetcore"@ {
        "net"@
    } else if key == "mssql"@ {
        "sqlserver"@
    } else {
        key
    }
}

/// The usual form of a key that has several.
pub fn canonicalize_key(key: &str) -> (r: String)
    ensures
        r@ == usual_key(key@),
{
    if same(key, "k8s") {
        "kubernetes".to_owned()
    } else if same(key, "postgresql") || same(key, "postgre") {
        "postgres".to_owned()
    } else if same(key, "golang") {
        "go".to_owned()
    } else if same(key, "dotnet") || same(key, "dotnetcore") {
        "net".to_owned()
    } else if same(key, "mssql") {
        "sqlserver".to_owned()
    } else {
        key.to_owned()
    }
}

/// The usual key of a name.
pub open spec fn canonical(name: Seq<char>) -> Seq<char> {
    usual_key(name_key(name))
}

/// The usual key of a name.
pub fn canonical_key(name: &str) -> (r: String)
    ensures
        r@ == canonical(name@),
{
    canonicalize_key(&key(name))
}

/// The usual form of a key is its own usual form.
pub proof fn usual_key_is_its_own(key: Seq<char>)
    ensures
        usual_key(usual_key(key)) == usual_key(key),
{
    reveal_strlit("k8s");
    reveal_strlit("kubernetes");
    reveal_strlit("postgresql");
    reveal_strlit("postgre");
    reveal_strlit("postgres");
    reveal_strlit("golang");
    reveal_strlit("go");
    reveal_strlit("dotnet");
    reveal_strlit("dotnetcore");
    reveal_strlit("net");
    reveal_strlit("mssql");
    reveal_strlit("sqlserver");
    assert("kubernetes"@.len() == 10 && "postgres"@.len() == 8 && "go"@.len() == 2 && "net"@.len()
        == 3 && "sqlserver"@.len() == 9);
    assert("k8s"@.len() == 3 && "postgresql"@.len() == 10 && "postgre"@.len() == 7
        && "golang"@.len() == 6 && "dotnet"@.len() == 6 && "dotnetcore"@.len() == 10
        && "mssql"@.len() == 5);
    assert("net"@[0] != "k8s"@[0]);
    assert("kubernetes"@[0] != "postgresql"@[0]);
    assert("kubernetes"@[0] != "dotnetcore"@[0]);
}

/// The characters between the words of a name.
pub const NAME_SEPARATORS: [char; 4] = [' ', '.', '-', '_'];

/// Words of a name that do not count.
pub const STOPWORDS: [&'static str; 5] = ["&", "and", "the", "by", "for"];

/// Whether a word of a name counts.
pub open spec fn counts(word: Seq<char>) -> bool {
    word.len() > 0 && !text::str_views(STOPWORDS@).contains(word)
}

/// The words of a name that count, in lowercase and in their usual form.
pub open spec fn name_words(name: Seq<char>) -> Seq<Seq<char>> {
    text::split(name, NAME_SEPARATORS@).map_values(|w: Seq<char>| unicode::lowercase(w)).filter(
        |w: Seq<char>| counts(w),
    ).map_values(|w: Seq<char>| usual_key(w))
}

/// The set of the words of a name that count.
pub open spec fn word_set(name: Seq<char>) -> Set<Seq<char>> {
    name_words(name).to_set()
}

/// The words of a name that count; one may stand there more than once.
pub fn canonical_tokens(name: &str) -> (r: Vec<String>)
    ensures
        text::views(r@) == name_words(name@),
{
    let pieces = text::split_chars(name, &NAME_SEPARATORS);
    let ghost low = |w: Seq<char>| unicode::lowercase(w);
    let ghost p = |w: Seq<char>| counts(w);
    let ghost usual = |w: Seq<char>| usual_key(w);
    let ghost all = text::views(pieces@).map_values(low);
    let mut r: Vec<String> = Vec::new();
    let mut i: usize = 0;
    assert(all.take(0).filter(p).map_values(usual) =~= Seq::empty()) by {
        reveal(Seq::filter);
    }
    assert(text::views(r@) =~= Seq::empty());
    while i < pieces.len()
        invariant
            i <= pieces@.len(),
            low == (|w: Seq<char>| unicode::lowercase(w)),
            p == (|w: Seq<char>| counts(w)),
            usual == (|w: Seq<char>| usual_key(w)),
            all == text::views(pieces@).map_values(low),
            text::views(r@) == all.take(i as int).filter(p).map_values(usual),
        decreases pieces.len() - i,
    {
        broadcast use text::views_push;

        let w = pieces[i].to_lowercase();
        proof {
            lists::take_next(all, i as int);
            all.take(i as int).lemma_filter_push(all[i as int], p);
            assert(all[i as int] == w@);
            let a = all.take(i as int).filter(p);
            assert(a.push(w@).map_values(usual) =~= a.map_values(usual).push(usual(w@)));
        }
        if !text::is_empty(&w) && !text::is_one_of(&w, &STOPWORDS) {
            r.push(canonicalize_key(&w));
        }
        i += 1;
    }
    proof {
        lists::take_all(all);
    }
    r
}

/// Whether every text of one list stands in another.
fn all_in(a: &Vec<String>, b: &Vec<String>) -> (r: bool)
    ensures
        r == text::views(a@).to_set().subset_of(text::views(b@).to_set()),
{
    let ghost va = text::views(a@);
    let ghost vb = text::views(b@);
    let mut i: usize = 0;
    while i < a.len()
        invariant
            i <= a@.len(),
            va == text::views(a@),
            vb == text::views(b@),
            forall|j: int| 0 <= j < i ==> vb.contains(#[trigger] va[j]),
        decreases a.len() - i,
    {
        if !text::has_string(b, &a[i]) {
            assert(va[i as int] == a@[i as int]@);
            assert(va.to_set().contains(va[i as int]));
            assert(!vb.to_set().contains(va[i as int]));
            return false;
        }
        i += 1;
    }
    assert forall|x: Seq<char>| va.to_set().contains(x) implies vb.to_set().contains(x) by {
        let j = choose|j: int| 0 <= j < va.len() && va[j] == x;
        assert(vb.contains(va[j]));
    }
    true
}

/// The place of a ring from the inside; an unknown ring counts as "assess".
pub open spec fn rank(ring: Seq<char>) -> nat {
    if ring == "adopt"@ {
        0
    } else if ring == "trial"@ {
        1
    } else if ring == "hold"@ {
        3
    } else {
        2
    }
}

/// The place of a ring from the inside.
pub fn ring_rank(ring: &str) -> (r: usize)
    ensures
        r == rank(ring@),
{
    if same(ring, "adopt") {
        0
    } else if same(ring, "trial") {
        1
    } else if same(ring, "hold") {
        3
    } else {
        2
    }
}

/// Whether the name of `c` is shown rather than that of `e`: its key is longer in bytes, or as
/// long and its ring is further inside.
pub open spec fn better_name(c: Tech, e: Tech) -> bool {
    let n = text::byte_count(name_key(c.name));
    let m = text::byte_count(name_key(e.name));
    n > m || n == m && rank(c.ring) < rank(e.ring)
}

/// Whether the name of a candidate is shown rather than that of an existing item.
pub fn prefer_display_name(candidate: &Blip, existing: &Blip) -> (r: bool)
    ensures
        r == better_name(candidate@, existing@),
{
    let n = text::byte_len(&key(&candidate.name));
    let m = text::byte_len(&key(&existing.name));
    n > m || (n == m && ring_rank(&candidate.ring) < ring_rank(&existing.ring))
}

// ── Normal forms ───────────────────────────────────────────────────────────────

/// The usual form of a kind; empty where the kind is not known.
pub open spec fn usual_kind(kind: Seq<char>) -> Seq<char> {
    let k = unicode::lowercase(text::trimmed(kind));
    if k == "algorithm"@ || k == "algorithms"@ {
        "method"@
    } else if text::str_views(PROJECT_KINDS@).contains(k) || text::str_views(METHOD_KINDS@).contains(
        k,
    ) {
        k
    } else {
        Seq::empty()
    }
}

/// The usual form of a kind.
pub fn normalize_kind(kind: &str) -> (r: String)
    ensures
        r@ == usual_kind(kind@),
{
    let k = text::trim(kind).to_lowercase();
    if same(&k, "algorithm") || same(&k, "algorithms") {
        "method".to_owned()
    } else if text::is_one_of(&k, &PROJECT_KINDS) || text::is_one_of(&k, &METHOD_KINDS) {
        k
    } else {
        String::new()
    }
}

/// The rings, from the inside.
pub const RINGS: [&'static str; 4] = ["adopt", "trial", "assess", "hold"];

/// The quadrants.
pub const QUADRANTS: [&'static str; 4] = ["q1", "q2", "q3", "q4"];

/// A ring as it was written, or "assess" where it is none.
pub open spec fn usual_ring(ring: Seq<char>) -> Seq<char> {
    let r = text::trimmed(unicode::lowercase(ring));
    if text::str_views(RINGS@).contains(r) {
        r
    } else {
        "assess"@
    }
}

/// A quadrant as it was written, or the first where it is none.
pub open spec fn usual_quadrant(quadrant: Seq<char>) -> Seq<char> {
    let q = text::trimmed(unicode::lowercase(quadrant));
    if text::str_views(QUADRANTS@).contains(q) {
        q
    } else {
        "q1"@
    }
}

/// An item in its normal form.
pub open spec fn normal(b: Tech) -> Tech {
    let name = text::trimmed(b.name);
    let given = text::trimmed(b.canonical_name);
    Tech {
        name,
        canonical_name: if given.len() == 0 {
            canonical(name)
        } else {
            canonical(given)
        },
        kind: usual_kind(b.kind),
        ring: usual_ring(b.ring),
        quadrant: usual_quadrant(b.quadrant),
        ..b
    }
}

/// Brings an item into its normal form.
pub fn normalize_blip(b: Blip) -> (r: Blip)
    ensures
        r@ == normal(b@),
{
    let mut b = b;
    b.name = text::trim(&b.name);
    let given = text::trim(&b.canonical_name);
    b.canonical_name = if text::is_empty(&given) {
        canonical_key(&b.name)
    } else {
        canonical_key(&given)
    };
    b.kind = normalize_kind(&b.kind);
    let ring = text::trim(&b.ring.to_lowercase());
    b.ring = if text::is_one_of(&ring, &RINGS) {
        ring
    } else {
        "assess".to_owned()
    };
    let quadrant = text::trim(&b.quadrant.to_lowercase());
    b.quadrant = if text::is_one_of(&quadrant, &QUADRANTS) {
        quadrant
    } else {
        "q1".to_owned()
    };
    b
}

/// Whether an item has a ring, a quadrant and a kind that are known, or no kind.
pub open spec fn is_regular(b: Tech) -> bool {
    &&& text::str_views(RINGS@).contains(b.ring)
    &&& text::str_views(QUADRANTS@).contains(b.quadrant)
    &&& b.kind.len() == 0 || text::str_views(PROJECT_KINDS@).contains(b.kind) || text::str_views(
        METHOD_KINDS@,
    ).contains(b.kind)
}

/// An item in its normal form is regular.
pub proof fn normal_items_are_regular(b: Tech)
    ensures
        is_regular(normal(b)),
{
    assert(text::str_views(RINGS@)[2] == "assess"@);
    assert(text::str_views(QUADRANTS@)[0] == "q1"@);
    assert(text::str_views(METHOD_KINDS@)[1] == "method"@);
}

/// The items in their normal form.
pub fn normalize_all(blips: Vec<Blip>) -> (r: Vec<Blip>)
    ensures
        lists::views(r@) == lists::views(blips@).map_values(|b: Tech| normal(b)),
{
    let ghost all = blips@;
    let ghost f = |b: Tech| normal(b);
    let mut r: Vec<Blip> = Vec::new();
    assert(lists::views(r@) =~= lists::views(all.take(0)).map_values(f));
    for b in it: blips
        invariant
            it.seq() == all,
            f == (|b: Tech| normal(b)),
            lists::views(r@) == lists::views(all.take(it.index() as int)).map_values(f),
    {
        broadcast use lists::views_push;

        proof {
            let i = it.index() as int;
            assert(lists::views(all.take(i + 1)).map_values(f) =~= lists::views(
                all.take(i),
            ).map_values(f).push(f(b@)));
        }
        r.push(normalize_blip(b));
    }
    proof {
        lists::take_all(all);
    }
    r
}

// ── Duplicates ─────────────────────────────────────────────────────────────────

/// The usual key of an item.
pub open spec fn item_key(b: Tech) -> Seq<char> {
    if text::trimmed(b.canonical_name).len() == 0 {
        canonical(b.name)
    } else {
        canonical(b.canonical_name)
    }
}

/// The usual key of an item.
pub fn effective_canonical_name(blip: &Blip) -> (r: String)
    ensures
        r@ == item_key(blip@),
{
    if text::is_empty(&text::trim(&blip.canonical_name)) {
        canonical_key(&blip.name)
    } else {
        canonical_key(&blip.canonical_name)
    }
}

/// The kind of an item.
pub fn effective_kind(blip: &Blip) -> (r: String)
    ensures
        r@ == usual_kind(blip.kind@),
{
    normalize_kind(&blip.kind)
}

/// Whether two items are the same technology: their keys are equal, or their names have the same
/// words and their kinds do not disagree.
pub open spec fn is_same(c: Tech, e: Tech) -> bool {
    let ck = usual_kind(c.kind);
    let ek = usual_kind(e.kind);
    ||| item_key(c) == item_key(e)
    ||| name_words(c.name).len() > 0 && word_set(c.name) == word_set(e.name) && (ck.len() == 0
        || ek.len() == 0 || ck == ek)
}

/// Whether two items are the same technology.
pub fn is_duplicate(c: &Blip, e: &Blip) -> (r: bool)
    ensures
        r == is_same(c@, e@),
        item_key(c@) == item_key(e@) ==> r,
{
    if same(&effective_canonical_name(c), &effective_canonical_name(e)) {
        return true;
    }
    let ct = canonical_tokens(&c.name);
    let et = canonical_tokens(&e.name);
    let ck = effective_kind(c);
    let ek = effective_kind(e);
    assert(text::views(ct@).len() == ct@.len());
    let within = all_in(&ct, &et);
    let around = all_in(&et, &ct);
    assert((within && around) == (word_set(c.name@) =~= word_set(e.name@)));
    ct.len() > 0 && within && around && (text::is_empty(&ck) || text::is_empty(&ek) || same(
        &ck,
        &ek,
    ))
}

/// An item that stands for two: the one further inside, with the better of the two names.
pub open spec fn merged(c: Tech, e: Tech) -> Tech {
    let base = if rank(c.ring) < rank(e.ring) {
        c
    } else {
        e
    };
    let named = if better_name(c, e) {
        c
    } else {
        e
    };
    Tech { name: named.name, canonical_name: named.canonical_name, ..base }
}

/// An item that stands for two.
fn merge(c: Blip, e: Blip) -> (r: Blip)
    ensures
        r@ == merged(c@, e@),
{
    let better = prefer_display_name(&c, &e);
    let inner = ring_rank(&c.ring) < ring_rank(&e.ring);
    let name = if better {
        c.name.clone()
    } else {
        e.name.clone()
    };
    let canonical_name = if better {
        c.canonical_name.clone()
    } else {
        e.canonical_name.clone()
    };
    let mut base = if inner {
        c
    } else {
        e
    };
    base.name = name;
    base.canonical_name = canonical_name;
    base
}

/// The least index at or after `i` of an item that is the same technology as `c`, or the length.
pub open spec fn same_from(kept: Seq<Tech>, c: Tech, i: int) -> int
    decreases kept.len() - i,
{
    if i >= kept.len() {
        kept.len() as int
    } else if is_same(c, kept[i]) {
        i
    } else {
        same_from(kept, c, i + 1)
    }
}

/// Items with one more: it is merged into the first that is the same technology, or else stands
/// at the end.
pub open spec fn with_item(kept: Seq<Tech>, c: Tech) -> Seq<Tech> {
    let i = same_from(kept, c, 0);
    if i < kept.len() {
        kept.update(i, merged(c, kept[i]))
    } else {
        kept.push(c)
    }
}

/// Items with duplicates merged, in order.
pub open spec fn deduplicated(items: Seq<Tech>) -> Seq<Tech>
    decreases items.len(),
{
    if items.len() == 0 {
        items
    } else {
        with_item(deduplicated(items.drop_last()), items.last())
    }
}

/// The index of the first item that is the same technology as a candidate, or the length.
fn find_same(kept: &Vec<Blip>, c: &Blip) -> (r: usize)
    ensures
        r == same_from(lists::views(kept@), c@, 0),
        r <= kept@.len(),
{
    let ghost all = lists::views(kept@);
    let mut i: usize = 0;
    while i < kept.len()
        invariant
            i <= kept@.len(),
            all == lists::views(kept@),
            same_from(all, c@, 0) == same_from(all, c@, i as int),
        decreases kept.len() - i,
    {
        if is_duplicate(c, &kept[i]) {
            return i;
        }
        i += 1;
    }
    i
}

/// Merges duplicates.
pub fn deduplicate(blips: Vec<Blip>) -> (r: Vec<Blip>)
    ensures
        lists::views(r@) == deduplicated(lists::views(blips@)),
{
    let ghost all = lists::views(blips@);
    let ghost raw = blips@;
    let mut kept: Vec<Blip> = Vec::new();
    assert(lists::views(kept@) =~= all.take(0));
    for c in it: blips
        invariant
            it.seq() == raw,
            all == lists::views(raw),
            lists::views(kept@) == deduplicated(all.take(it.index() as int)),
    {
        broadcast use lists::views_push;

        proof {
            let n = it.index() as int;
            assert(all.take(n + 1).drop_last() =~= all.take(n));
            assert(all.take(n + 1).last() == c@);
        }
        let ghost before = kept@;
        let i = find_same(&kept, &c);
        if i < kept.len() {
            let e = kept.remove(i);
            let m = merge(c, e);
            kept.insert(i, m);
            assert(kept@ =~= before.update(i as int, m));
            assert(lists::views(kept@) =~= lists::views(before).update(i as int, m@));
        } else {
            kept.push(c);
        }
    }
    proof {
        lists::take_all(all);
    }
    kept
}

/// A merged item has the inner one of the two rings, and its name is one of the two.
pub proof fn merging_keeps_the_inner_ring(c: Tech, e: Tech)
    ensures
        rank(merged(c, e).ring) == (if rank(c.ring) < rank(e.ring) {
            rank(c.ring)
        } else {
            rank(e.ring)
        }),
        merged(c, e).name == c.name || merged(c, e).name == e.name,
        text::byte_count(name_key(merged(c, e).name)) >= text::byte_count(name_key(c.name)),
        text::byte_count(name_key(merged(c, e).name)) >= text::byte_count(name_key(e.name)),
{
}

/// Items of which no two are the same technology are left as they are.
pub proof fn distinct_items_are_kept(items: Seq<Tech>)
    requires
        forall|i: int, j: int|
            0 <= i < j < items.len() ==> !is_same(#[trigger] items[j], #[trigger] items[i]),
    ensures
        deduplicated(items) == items,
    decreases items.len(),
{
    if items.len() > 0 {
        let a = items.drop_last();
        assert forall|i: int, j: int| 0 <= i < j < a.len() implies !is_same(
            #[trigger] a[j],
            #[trigger] a[i],
        ) by {
            assert(!is_same(items[j], items[i]));
        }
        distinct_items_are_kept(a);
        assert forall|i: int| 0 <= i < a.len() implies !is_same(items.last(), #[trigger] a[i]) by {
            assert(!is_same(items[items.len() - 1], items[i]));
        }
        lemma_none_same(a, items.last(), 0);
        assert(a.push(items.last()) =~= items);
    }
}

/// Where no item is the same technology, none is found.
proof fn lemma_none_same(kept: Seq<Tech>, c: Tech, i: int)
    requires
        0 <= i <= kept.len(),
        forall|j: int| i <= j < kept.len() ==> !is_same(c, #[trigger] kept[j]),
    ensures
        same_from(kept, c, i) == kept.len(),
    decreases kept.len() - i,
{
    if i < kept.len() {
        assert(!is_same(c, kept[i]));
        lemma_none_same(kept, c, i + 1);
    }
}

/// Merging duplicates adds no item, and leaves one where there is one.
pub proof fn deduplicating_adds_nothing(items: Seq<Tech>)
    ensures
        deduplicated(items).len() <= items.len(),
        items.len() > 0 ==> deduplicated(items).len() > 0,
    decreases items.len(),
{
    if items.len() > 0 {
        deduplicating_adds_nothing(items.drop_last());
        lemma_same_bounds(deduplicated(items.drop_last()), items.last(), 0);
    }
}

/// Merging duplicates keeps every ring within those of the items that were merged: no item comes
/// out further inside than all that went in.
pub proof fn deduplicating_invents_no_ring(items: Seq<Tech>)
    ensures
        forall|i: int|
            0 <= i < deduplicated(items).len() ==> exists|j: int|
                0 <= j < items.len() && items[j].ring == (#[trigger] deduplicated(items)[i]).ring,
    decreases items.len(),
{
    if items.len() > 0 {
        let a = items.drop_last();
        deduplicating_invents_no_ring(a);
        let d = deduplicated(a);
        let r = deduplicated(items);
        let c = items.last();
        lemma_same_bounds(d, c, 0);
        assert forall|i: int| 0 <= i < r.len() implies exists|j: int|
            0 <= j < items.len() && items[j].ring == (#[trigger] r[i]).ring by {
            let k = same_from(d, c, 0);
            if r[i].ring == c.ring {
                assert(items[items.len() - 1].ring == r[i].ring);
            } else {
                assert(r[i].ring == d[i].ring);
                let j = choose|j: int| 0 <= j < a.len() && a[j].ring == d[i].ring;
                assert(items[j].ring == r[i].ring);
            }
        }
    }
}

/// What is found is an index or the length.
proof fn lemma_same_bounds(kept: Seq<Tech>, c: Tech, i: int)
    requires
        0 <= i <= kept.len(),
    ensures
        i <= same_from(kept, c, i) <= kept.len(),
    decreases kept.len() - i,
{
    if i < kept.len() && !is_same(c, kept[i]) {
        lemma_same_bounds(kept, c, i + 1);
    }
}

// ── Modes ──────────────────────────────────────────────────────────────────────

/// An item as a radar shows it: without a kind it is of the usual one, and a method has nothing
/// of a project. `None` where the radar does not show its kind.
pub open spec fn for_mode(b: Tech, mode: RadarMode) -> Option<Tech> {
    let kind = if b.kind.len() == 0 {
        mode.default_kind()
    } else {
        b.kind
    };
    if !mode.shows(kind) {
        None
    } else if mode == RadarMode::Method {
        Some(
            Tech {
                kind,
                is_open_source: false,
                license: Seq::empty(),
                github_repo: Seq::empty(),
                github_days: None,
                ..b
            },
        )
    } else {
        Some(Tech { kind, ..b })
    }
}

/// The items that a radar shows, in order.
pub open spec fn shown_items(items: Seq<Tech>, mode: RadarMode) -> Seq<Tech>
    decreases items.len(),
{
    if items.len() == 0 {
        items
    } else {
        let r = shown_items(items.drop_last(), mode);
        match for_mode(items.last(), mode) {
            Some(b) => r.push(b),
            None => r,
        }
    }
}

/// An item as a radar shows it.
fn fit_mode(b: Blip, mode: RadarMode) -> (r: Option<Blip>)
    ensures
        match r {
            Some(x) => for_mode(b@, mode) == Some(x@),
            None => for_mode(b@, mode) is None,
        },
{
    let mut b = b;
    if text::is_empty(&b.kind) {
        b.kind = mode.fallback_kind().to_owned();
    }
    if !mode.accepts_kind(&b.kind) {
        return None;
    }
    if mode == RadarMode::Method {
        b.is_open_source = false;
        b.license = String::new();
        b.github_repo = String::new();
        b.github_days = None;
    }
    Some(b)
}

/// The items that a radar shows.
pub fn filter_blips_for_mode(blips: Vec<Blip>, mode: RadarMode) -> (r: Vec<Blip>)
    ensures
        lists::views(r@) == shown_items(lists::views(blips@), mode),
{
    let ghost all = lists::views(blips@);
    let ghost raw = blips@;
    let mut r: Vec<Blip> = Vec::new();
    assert(lists::views(r@) =~= all.take(0));
    for b in it: blips
        invariant
            it.seq() == raw,
            all == lists::views(raw),
            lists::views(r@) == shown_items(all.take(it.index() as int), mode),
    {
        broadcast use lists::views_push;

        proof {
            let n = it.index() as int;
            assert(all.take(n + 1).drop_last() =~= all.take(n));
            assert(all.take(n + 1).last() == b@);
        }
        if let Some(x) = fit_mode(b, mode) {
            r.push(x);
        }
    }
    proof {
        lists::take_all(all);
    }
    r
}

/// A radar shows items of its kinds alone, and showing them again changes nothing.
pub proof fn shown_items_fit(items: Seq<Tech>, mode: RadarMode)
    ensures
        forall|i: int|
            0 <= i < shown_items(items, mode).len() ==> mode.shows(
                (#[trigger] shown_items(items, mode)[i]).kind,
            ),
        mode == RadarMode::Method ==> forall|i: int|
            0 <= i < shown_items(items, mode).len() ==> !(#[trigger] shown_items(
                items,
                mode,
            )[i]).is_open_source,
        shown_items(shown_items(items, mode), mode) == shown_items(items, mode),
    decreases items.len(),
{
    if items.len() > 0 {
        let r = shown_items(items.drop_last(), mode);
        shown_items_fit(items.drop_last(), mode);
        if let Some(b) = for_mode(items.last(), mode) {
            lemma_kinds_are_named(mode, b.kind);
            assert(for_mode(b, mode) =~~= Some(b));
            assert(r.push(b).drop_last() =~= r);
            assert(r.push(b).last() == b);
        }
    }
}

/// A kind that a radar shows has a name.
proof fn lemma_kinds_are_named(mode: RadarMode, kind: Seq<char>)
    requires
        mode.shows(kind),
    ensures
        kind.len() > 0,
{
    reveal_strlit("language");
    reveal_strlit("framework");
    reveal_strlit("library");
    reveal_strlit("tool");
    reveal_strlit("platform");
    reveal_strlit("database");
    reveal_strlit("model");
    reveal_strlit("service");
    reveal_strlit("technique");
    reveal_strlit("method");
    if mode == RadarMode::Project {
        let v = text::str_views(PROJECT_KINDS@);
        let i = choose|i: int| 0 <= i < v.len() && v[i] == kind;
        assert(v[i] == PROJECT_KINDS@[i]@);
        assert(0 <= i < 8);
        assert(i == 0 || i == 1 || i == 2 || i == 3 || i == 4 || i == 5 || i == 6 || i == 7);
    } else {
        let v = text::str_views(METHOD_KINDS@);
        let i = choose|i: int| 0 <= i < v.len() && v[i] == kind;
        assert(v[i] == METHOD_KINDS@[i]@);
        assert(i == 0 || i == 1);
    }
}

// ── Activity ───────────────────────────────────────────────────────────────────

/// A ring some steps further outside, and "hold" at most; an unknown ring counts as "assess".
pub open spec fn lowered(ring: Seq<char>, steps: nat) -> Seq<char> {
    let i = rank(ring) + steps;
    if i >= 3 {
        "hold"@
    } else if i == 2 {
        "assess"@
    } else if i == 1 {
        "trial"@
    } else {
        "adopt"@
    }
}

/// A ring some steps further outside.
pub fn downgrade_ring(ring: &str, steps: usize) -> (r: String)
    ensures
        r@ == lowered(ring@, steps as nat),
{
    let i = ring_rank(ring);
    if steps >= 3 || i + steps >= 3 {
        "hold".to_owned()
    } else if i + steps == 2 {
        "assess".to_owned()
    } else if i + steps == 1 {
        "trial".to_owned()
    } else {
        "adopt".to_owned()
    }
}

/// A ring that is lowered is never further inside.
pub proof fn lowering_goes_outwards(ring: Seq<char>, steps: nat)
    ensures
        rank(lowered(ring, steps)) == (if rank(ring) + steps >= 3 {
            3
        } else {
            rank(ring) + steps
        }),
        text::str_views(RINGS@).contains(lowered(ring, steps)),
{
    reveal_strlit("adopt");
    reveal_strlit("trial");
    reveal_strlit("assess");
    reveal_strlit("hold");
    assert("adopt"@.len() == 5 && "trial"@.len() == 5 && "assess"@.len() == 6 && "hold"@.len() == 4);
    assert("adopt"@[0] != "trial"@[0]);
    let v = text::str_views(RINGS@);
    assert(v[0] == "adopt"@ && v[1] == "trial"@ && v[2] == "assess"@ && v[3] == "hold"@);
}

/// A repository that a search found.
pub struct RepoInfo {
    pub name: String,
    pub full_name: String,
    pub pushed_at: String,
}

/// The address of a search for an item's repository.
pub fn activity_url(name: &str) -> (r: String)
    ensures
        r@ == "https://api.github.com/search/repositories?q="@ + percent::query_text(name@)
            + "+in:name&sort=stars&order=desc&per_page=5"@,
{
    text::concat3(
        "https://api.github.com/search/repositories?q=",
        &percent::urlencoding(name),
        "+in:name&sort=stars&order=desc&per_page=5",
    )
}

/// The days since the last work on a repository, if they are known.
pub open spec fn idle_days(repo: RepoInfo, now: Timestamp) -> Option<i64> {
    match time::utc_time(repo.pushed_at@) {
        Some(t) => time::days_from(now, t),
        None => None,
    }
}

/// The days since the last work on a repository.
fn days_idle(repo: &RepoInfo, now: Timestamp) -> (r: Option<i64>)
    ensures
        r == idle_days(*repo, now),
{
    match time::parse_utc(&repo.pushed_at) {
        Some(t) => time::days_between(now, t),
        None => None,
    }
}

/// How well a repository fits an item, less being better: first whether the names overlap, then
/// how long it lies idle. A repository of the future, or of unknown age, comes last.
pub open spec fn misfit(days: Option<i64>, repo_key: Seq<char>, key: Seq<char>) -> (nat, nat) {
    let named: nat = if text::holds(repo_key, key) || text::holds(key, repo_key) {
        0
    } else {
        1
    };
    let idle: nat = match days {
        Some(d) => if d >= 0 {
            d as nat
        } else {
            (0x1_0000_0000_0000_0000 + d) as nat
        },
        None => 0xFFFF_FFFF_FFFF_FFFF,
    };
    (named, idle)
}

/// Whether one misfit is less than another.
pub open spec fn fits_better(a: (nat, nat), b: (nat, nat)) -> bool {
    a.0 < b.0 || a.0 == b.0 && a.1 < b.1
}

/// The misfits of repositories.
pub open spec fn misfits(repos: Seq<RepoInfo>, key: Seq<char>, now: Timestamp) -> Seq<(nat, nat)> {
    repos.map_values(
        |r: RepoInfo|
            misfit(idle_days(r, now), unicode::lowered_alphanumerics(r.name@), key),
    )
}

/// The index of the first of the least misfits.
pub open spec fn best_of(scores: Seq<(nat, nat)>) -> int
    decreases scores.len(),
{
    if scores.len() <= 1 {
        0
    } else {
        let b = best_of(scores.drop_last());
        if fits_better(scores.last(), scores[b]) {
            scores.len() - 1
        } else {
            b
        }
    }
}

/// The best fit is no worse than any other, and better than any before it.
pub proof fn best_fit_is_first_and_least(scores: Seq<(nat, nat)>)
    requires
        scores.len() > 0,
    ensures
        0 <= best_of(scores) < scores.len(),
        forall|j: int|
            0 <= j < scores.len() ==> !fits_better(#[trigger] scores[j], scores[best_of(scores)]),
        forall|j: int|
            0 <= j < best_of(scores) ==> fits_better(scores[best_of(scores)], #[trigger] scores[j]),
    decreases scores.len(),
{
    if scores.len() > 1 {
        let a = scores.drop_last();
        best_fit_is_first_and_least(a);
        let b = best_of(a);
        assert forall|j: int| 0 <= j < scores.len() implies !fits_better(
            #[trigger] scores[j],
            scores[best_of(scores)],
        ) by {
            if j < a.len() {
                assert(!fits_better(a[j], a[b]));
            }
        }
        assert forall|j: int| 0 <= j < best_of(scores) implies fits_better(
            scores[best_of(scores)],
            #[trigger] scores[j],
        ) by {
            if best_of(scores) == b {
                assert(fits_better(a[b], a[j]));
            } else {
                assert(!fits_better(a[j], a[b]));
            }
        }
    }
}

/// How well a repository fits an item.
fn score(repo: &RepoInfo, key: &str, now: Timestamp) -> (r: (u64, u64))
    ensures
        (r.0 as nat, r.1 as nat) == misfit(
            idle_days(*repo, now),
            unicode::lowered_alphanumerics(repo.name@),
            key@,
        ),
{
    let repo_key = unicode::normalize_text(&repo.name);
    let named: u64 = if text::contains(&repo_key, key) || text::contains(key, &repo_key) {
        0
    } else {
        1
    };
    let idle: u64 = match days_idle(repo, now) {
        Some(d) => if d >= 0 {
            d as u64
        } else {
            (0x1_0000_0000_0000_0000i128 + d as i128) as u64
        },
        None => 0xFFFF_FFFF_FFFF_FFFF,
    };
    (named, idle)
}

/// The index of the repository that fits an item best.
pub fn best_repo(repos: &Vec<RepoInfo>, name: &str, now: Timestamp) -> (r: usize)
    requires
        repos@.len() > 0,
    ensures
        r == best_of(misfits(repos@, unicode::lowered_alphanumerics(name@), now)),
        r < repos@.len(),
{
    let key = unicode::normalize_text(name);
    let ghost all = misfits(repos@, key@, now);
    let mut best: usize = 0;
    let mut least = score(&repos[0], &key, now);
    let mut i: usize = 1;
    assert(all.take(1).len() == 1);
    while i < repos.len()
        invariant
            1 <= i <= repos@.len(),
            all == misfits(repos@, key@, now),
            all.len() == repos@.len(),
            best < i,
            best == best_of(all.take(i as int)),
            (least.0 as nat, least.1 as nat) == all[best as int],
        decreases repos.len() - i,
    {
        let s = score(&repos[i], &key, now);
        proof {
            assert(all.take(i + 1).drop_last() =~= all.take(i as int));
            assert(all.take(i + 1).last() == all[i as int]);
            assert(all.take(i as int)[best as int] == all[best as int]);
        }
        if s.0 < least.0 || (s.0 == least.0 && s.1 < least.1) {
            best = i;
            least = s;
        }
        i += 1;
    }
    proof {
        lists::take_all(all);
    }
    best
}

/// The warning that is added to an item's reasons.
pub open spec fn idle_warning(days: int, ring: Seq<char>, very: bool) -> Seq<char> {
    "\n⚠️ GitHub 最後更新 "@ + number::signed_decimal(days) + (if very {
        " 天前，活躍度極低，從 "@
    } else {
        " 天前，活躍度偏低，從 "@
    }) + unicode::uppercase(ring) + (if very {
        " 下調兩級。"@
    } else {
        " 下調一級。"@
    })
}

/// An item whose repository was found: after more than a year without work it is lowered by two
/// rings, after more than half a year by one, each time with a warning.
pub open spec fn adjusted(b: Tech, repo: Seq<char>, days: i64) -> Tech {
    let c = Tech { github_repo: repo, github_days: Some(days), ..b };
    if days > 365 {
        Tech {
            ring: lowered(b.ring, 2),
            rationale: b.rationale + idle_warning(days as int, b.ring, true),
            ..c
        }
    } else if days > 180 {
        Tech {
            ring: lowered(b.ring, 1),
            rationale: b.rationale + idle_warning(days as int, b.ring, false),
            ..c
        }
    } else {
        c
    }
}

/// The warning that is added to an item's reasons.
fn warning(days: i64, ring: &str, very: bool) -> (r: String)
    ensures
        r@ == idle_warning(days as int, ring@, very),
{
    let (a, b) = if very {
        (" 天前，活躍度極低，從 ", " 下調兩級。")
    } else {
        (" 天前，活躍度偏低，從 ", " 下調一級。")
    };
    text::concat5("\n⚠️ GitHub 最後更新 ", &number::i64_text(days), a, &ring.to_uppercase(), b)
}

/// Adjusts an item whose repository was found.
pub fn adjust_blip(blip: &mut Blip, repo: &str, days: i64)
    ensures
        final(blip)@ == adjusted(old(blip)@, repo@, days),
{
    blip.github_repo = repo.to_owned();
    blip.github_days = Some(days);
    if days > 365 {
        blip.rationale.append(&warning(days, &blip.ring, true));
        blip.ring = downgrade_ring(&blip.ring, 2);
    } else if days > 180 {
        blip.rationale.append(&warning(days, &blip.ring, false));
        blip.ring = downgrade_ring(&blip.ring, 1);
    }
}

/// Whether the repository of an item is searched.
pub open spec fn is_checked(b: Tech) -> bool {
    b.is_open_source && b.name.len() > 0
}

/// Whether the repository of an item is searched.
pub fn needs_check(blip: &Blip) -> (r: bool)
    ensures
        r == is_checked(blip@),
{
    blip.is_open_source && !text::is_empty(&blip.name)
}

/// What the search for an item's repository came to.
pub enum ActivityLookup {
    /// There was no search, no reply, or none that could be read.
    Nothing,
    /// The search was refused.
    RateLimited,
    /// Repositories were found.
    Found(Vec<RepoInfo>),
}

/// An item after the search for its repository.
pub open spec fn after_lookup(b: Tech, l: ActivityLookup, now: Timestamp) -> Tech {
    match l {
        ActivityLookup::Found(repos) if repos@.len() > 0 && is_checked(b) => {
            let repo = repos@[best_of(
                misfits(repos@, unicode::lowered_alphanumerics(b.name), now),
            )];
            match idle_days(repo, now) {
                Some(d) => adjusted(b, repo.full_name@, d),
                None => b,
            }
        },
        _ => b,
    }
}

/// Whether a search was refused.
pub open spec fn any_refused(lookups: Seq<ActivityLookup>) -> bool {
    exists|i: int| 0 <= i < lookups.len() && #[trigger] lookups[i] is RateLimited
}

/// Adjusts an item after the search for its repository.
fn apply_lookup(blip: &mut Blip, l: &ActivityLookup, now: Timestamp)
    ensures
        final(blip)@ == after_lookup(old(blip)@, *l, now),
{
    if let ActivityLookup::Found(repos) = l {
        if repos.len() > 0 && needs_check(blip) {
            let i = best_repo(repos, &blip.name, now);
            if let Some(d) = days_idle(&repos[i], now) {
                adjust_blip(blip, &repos[i].full_name, d);
            }
        }
    }
}

/// Whether a search was refused.
fn was_refused(lookups: &Vec<ActivityLookup>) -> (r: bool)
    ensures
        r == any_refused(lookups@),
{
    let mut i: usize = 0;
    while i < lookups.len()
        invariant
            i <= lookups@.len(),
            forall|j: int| 0 <= j < i ==> #[trigger] lookups@[j] !is RateLimited,
        decreases lookups.len() - i,
    {
        if let ActivityLookup::RateLimited = lookups[i] {
            assert(lookups@[i as int] is RateLimited);
            return true;
        }
        i += 1;
    }
    false
}

/// Adjusts the items after the searches for their repositories, one for each item from the first
/// on, and says whether they were adjusted: once a search was refused none is, so that all are
/// treated alike.
pub fn check_oss_activity(blips: &mut Vec<Blip>, lookups: &Vec<ActivityLookup>, now: Timestamp) -> (r:
    bool)
    requires
        lookups@.len() <= old(blips)@.len(),
    ensures
        r == !any_refused(lookups@),
        !r ==> final(blips)@ == old(blips)@,
        final(blips)@.len() == old(blips)@.len(),
        r ==> forall|i: int|
            0 <= i < lookups@.len() ==> (#[trigger] final(blips)@[i])@ == after_lookup(
                old(blips)@[i]@,
                lookups@[i],
                now,
            ),
        forall|i: int|
            lookups@.len() <= i < old(blips)@.len() ==> #[trigger] final(blips)@[i] == old(
                blips,
            )@[i],
{
    if was_refused(lookups) {
        return false;
    }
    let ghost before = blips@;
    let mut i: usize = 0;
    while i < lookups.len()
        invariant
            i <= lookups@.len() <= blips@.len(),
            blips@.len() == before.len(),
            forall|j: int|
                0 <= j < i ==> (#[trigger] blips@[j])@ == after_lookup(
                    before[j]@,
                    lookups@[j],
                    now,
                ),
            forall|j: int| i <= j < before.len() ==> #[trigger] blips@[j] == before[j],
        decreases lookups.len() - i,
    {
        let mut b = blips.remove(i);
        apply_lookup(&mut b, &lookups[i], now);
        blips.insert(i, b);
        i += 1;
    }
    true
}

/// Activity never moves an item inwards, and changes nothing but its ring, its reasons and what
/// is known of its repository.
pub proof fn activity_goes_outwards(b: Tech, repo: Seq<char>, days: i64)
    ensures
        rank(adjusted(b, repo, days).ring) >= rank(b.ring),
        days <= 180 ==> adjusted(b, repo, days).ring == b.ring,
        180 < days <= 365 ==> rank(adjusted(b, repo, days).ring) == (if rank(b.ring) + 1 >= 3 {
            3
        } else {
            rank(b.ring) + 1
        }),
        days > 365 ==> rank(adjusted(b, repo, days).ring) == (if rank(b.ring) + 2 >= 3 {
            3
        } else {
            rank(b.ring) + 2
        }),
        adjusted(b, repo, days).name == b.name && adjusted(b, repo, days).quadrant == b.quadrant,
{
    lowering_goes_outwards(b.ring, 1);
    lowering_goes_outwards(b.ring, 2);
}

// ── Quadrants ──────────────────────────────────────────────────────────────────

/// The names of quadrants; `keys_differ` says that none is named twice.
pub struct QuadrantNames {
    pub entries: Vec<(String, String)>,
}

/// The name of a quadrant among entries: that of the first entry for it.
pub open spec fn name_among(entries: Seq<(String, String)>, key: Seq<char>) -> Option<Seq<char>>
    decreases entries.len(),
{
    if entries.len() == 0 {
        None
    } else if entries[0].0@ == key {
        Some(entries[0].1@)
    } else {
        name_among(entries.skip(1), key)
    }
}

/// The name of a quadrant, or its key where it has none.
pub open spec fn quadrant_name(entries: Seq<(String, String)>, key: Seq<char>) -> Seq<char> {
    match name_among(entries, key) {
        Some(n) => n,
        None => key,
    }
}

/// Entries as texts.
pub open spec fn entry_texts(entries: Seq<(String, String)>) -> Seq<(Seq<char>, Seq<char>)> {
    entries.map_values(|e: (String, String)| (e.0@, e.1@))
}

/// Whether no quadrant is named twice.
pub open spec fn keys_differ(entries: Seq<(String, String)>) -> bool {
    forall|i: int, j: int|
        0 <= i < j < entries.len() ==> (#[trigger] entries[i]).0@ != (#[trigger] entries[j]).0@
}

/// Where no quadrant is named twice, each entry gives its quadrant's name, wherever it stands.
pub proof fn each_entry_names_its_quadrant(entries: Seq<(String, String)>, i: int)
    requires
        keys_differ(entries),
        0 <= i < entries.len(),
    ensures
        name_among(entries, entries[i].0@) == Some(entries[i].1@),
    decreases i,
{
    if i > 0 {
        let rest = entries.skip(1);
        assert(entries[0].0@ != entries[i].0@);
        assert forall|a: int, b: int| 0 <= a < b < rest.len() implies (#[trigger] rest[a]).0@ != (
        #[trigger] rest[b]).0@ by {
            assert(entries[a + 1].0@ != entries[b + 1].0@);
        }
        each_entry_names_its_quadrant(rest, i - 1);
    }
}

impl QuadrantNames {
    /// The name of a quadrant, or its key where it has none.
    pub fn name_of(&self, key: &str) -> (r: String)
        ensures
            r@ == quadrant_name(self.entries@, key@),
    {
        self.get_or(key, key)
    }

    /// The name of a quadrant, or the fallback where it has none.
    pub fn get_or(&self, key: &str, fallback: &str) -> (r: String)
        ensures
            r@ == (match name_among(self.entries@, key@) {
                Some(n) => n,
                None => fallback@,
            }),
    {
        let ghost all = self.entries@;
        let mut i: usize = 0;
        assert(all.skip(0) =~= all);
        while i < self.entries.len()
            invariant
                i <= self.entries@.len(),
                all == self.entries@,
                name_among(all, key@) == name_among(all.skip(i as int), key@),
            decreases self.entries.len() - i,
        {
            assert(all.skip(i as int).skip(1) =~= all.skip(i + 1));
            if same(&self.entries[i].0, key) {
                return self.entries[i].1.clone();
            }
            i += 1;
        }
        fallback.to_owned()
    }
}

/// The names of the quadrants of a radar that names none.
pub open spec fn default_names(mode: RadarMode) -> Seq<(Seq<char>, Seq<char>)> {
    match mode {
        RadarMode::Project => seq![
            ("q1"@, "模型 & 服務"@),
            ("q2"@, "框架 & 函式庫"@),
            ("q3"@, "工具 & 平台"@),
            ("q4"@, "資料庫 & 基礎設施"@),
        ],
        RadarMode::Method => seq![
            ("q1"@, "演算法"@),
            ("q2"@, "架構模式"@),
            ("q3"@, "工程實踐"@),
            ("q4"@, "評估方法"@),
        ],
    }
}

/// The names of the quadrants of a radar that names none.
pub fn default_quadrant_names(mode: RadarMode) -> (r: QuadrantNames)
    ensures
        entry_texts(r.entries@) == default_names(mode),
        keys_differ(r.entries@),
{
    let (a, b, c, d) = match mode {
        RadarMode::Project => ("模型 & 服務", "框架 & 函式庫", "工具 & 平台", "資料庫 & 基礎設施"),
        RadarMode::Method => ("演算法", "架構模式", "工程實踐", "評估方法"),
    };
    let entries = vec![
        ("q1".to_owned(), a.to_owned()),
        ("q2".to_owned(), b.to_owned()),
        ("q3".to_owned(), c.to_owned()),
        ("q4".to_owned(), d.to_owned()),
    ];
    proof {
        assert(entry_texts(entries@) =~= default_names(mode));
        reveal_strlit("q1");
        reveal_strlit("q2");
        reveal_strlit("q3");
        reveal_strlit("q4");
        assert("q1"@[1] == '1' && "q2"@[1] == '2' && "q3"@[1] == '3' && "q4"@[1] == '4');
    }
    QuadrantNames { entries }
}

// ── Asking for a radar ─────────────────────────────────────────────────────────

/// What the language model is asked for a radar of projects.
pub const PROJECT_RADAR_PROMPT: &'static str = r#"你是一位技術生態系統分析師。今天日期：{today}。
根據以下關於「{keyword}」的技術訊號，分析該領域完整的開源/閉源專案、產品與軟體生態。

技術訊號（{n_signals} 筆）：
{signal_list}

任務：
1. 從技術訊號中找出所有提到的開源/閉源專案、產品、API 服務、模型服務、工具、平台、框架、函式庫
2. 加入你知道的「{keyword}」領域其他重要開源或閉源專案（確保生態圖完整）
3. 根據「{keyword}」領域特性，為 4 個象限命名（例如 AI 領域可用「模型服務、框架、工具、平台」）
4. 為每個項目判斷成熟度環形（以 {today} 為基準，評估當下的業界地位）：
   - adopt  → 目前生產環境主流，業界已廣泛採用的主力選擇
   - trial  → 有成功案例，值得在新專案中採用，但尚未全面普及
   - assess → 值得關注與探索，仍在快速發展或剛進入市場
   - hold   → 已被新一代取代、技術過時、或有重大疑慮應暫緩採用

   ⚠️ 環形判斷原則（重要）：
   - 環形代表「業界採用成熟度」，與開源/閉源無關
   - OpenAI（GPT-5.x）、Anthropic、Google（Gemini）的旗艦 API 均有數百萬用戶、完整企業 SLA、
     穩定文件，應列為 adopt，不因閉源而降級
   - 「閉源」應體現在 cons 欄位（隱私、成本、廠商鎖定），而非用來壓低環形評級
   - 每個產品只列最新版本，不列舊版

   ⚠️ 專案雷達只列具體軟體、產品、服務或專案，不列純方法論、演算法、架構模式或研究技術。

只回傳 JSON，格式如下（不要加任何其他文字）：
{
  "quadrant_names": {
    "q1": "模型 & 服務",
    "q2": "框架 & 函式庫",
    "q3": "工具 & 平台",
    "q4": "資料庫 & 基礎設施"
  },
  "blips": [
    {
      "name": "ToolX",
      "canonical_name": "toolx",
      "kind": "tool",
      "quadrant": "q2",
      "ring": "adopt",
      "is_open_source": true,
      "description": "一句話說明用途。\n• 核心功能亮點\n• 技術特色\n• 適用場景",
      "license": "Apache 2.0",
      "upstream": ["上游 A", "上游 B"],
      "downstream": ["下游 A", "下游 B"],
      "pros": ["推薦理由 1", "推薦理由 2"],
      "cons": ["風險或限制 1", "風險或限制 2"],
      "rationale": "說明為什麼放這個環形與象限。"
    }
  ]
}

命名規則（⚠️ 嚴格遵守）：
- 同一產品系列只能出現一次，版本號以最新版為準
- name 用英文或常見縮寫，≤20 字元
- canonical_name 必填，使用穩定英文名或系列名，不含版本號、空白或標點
- kind 必填，只能是 language/framework/library/tool/platform/database/model/service 其中之一
- 4 個環形都要有項目，blips 數量：15–40 個
- 開源/閉源要準確（GitHub 有 repo 的為開源，API-only 的為閉源）
- quadrant 欄位只能填 q1 / q2 / q3 / q4
- ring 欄位只能填 adopt / trial / assess / hold（全小寫）"#;

/// What the language model is asked for a radar of methods.
pub const METHOD_RADAR_PROMPT: &'static str = r#"你是一位技術方法論分析師。今天日期：{today}。
根據以下關於「{keyword}」的技術訊號，分析該領域的方法論、演算法、架構模式與工程實踐。

技術訊號（{n_signals} 筆）：
{signal_list}

任務：
1. 找出「{keyword}」領域常見或重要的方法論、演算法、技術模式、工程實踐、評估方法、部署方法
2. 加入你知道的其他重要方法，讓方法雷達完整覆蓋該領域
3. 根據「{keyword}」領域特性，為 4 個象限命名（例如 AI 領域可用「訓練方法、推論方法、評估方法、系統方法」）
4. 為每個方法判斷成熟度環形（以 {today} 為基準，評估當下研究與工程實務採用成熟度）：
   - adopt  → 已成為主流最佳實踐，廣泛用於生產或研究基線
   - trial  → 有明確成功案例，值得在新方案中採用
   - assess → 值得關注與探索，仍在快速發展或適用邊界未完全穩定
   - hold   → 已被更好方法取代、效果或成本不佳、或有重大疑慮應暫緩採用

   ⚠️ 方法雷達只列方法論、演算法、模式與工程實踐，不列具體開源專案、閉源產品、API 服務、SaaS、vendor 或 repo。

只回傳 JSON，格式如下（不要加任何其他文字）：
{
  "quadrant_names": {
    "q1": "演算法",
    "q2": "架構模式",
    "q3": "工程實踐",
    "q4": "評估方法"
  },
  "blips": [
    {
      "name": "MethodX",
      "canonical_name": "methodx",
      "kind": "method",
      "quadrant": "q1",
      "ring": "adopt",
      "is_open_source": false,
      "description": "一句話說明用途。\n• 核心概念\n• 適用場景\n• 主要限制",
      "license": "",
      "upstream": ["依賴概念 A"],
      "downstream": ["延伸方法 B"],
      "pros": ["推薦理由 1", "推薦理由 2"],
      "cons": ["風險或限制 1", "風險或限制 2"],
      "rationale": "說明為什麼放這個環形與象限。"
    }
  ]
}

命名規則（⚠️ 嚴格遵守）：
- 同一方法系列只能出現一次
- name 用英文或常見縮寫，≤20 字元
- canonical_name 必填，使用穩定英文名，不含版本號、空白或標點
- kind 必填，只能是 technique/method 其中之一；演算法請歸類為 method
- 4 個環形都要有項目，blips 數量：15–40 個
- quadrant 欄位只能填 q1 / q2 / q3 / q4
- ring 欄位只能填 adopt / trial / assess / hold（全小寫）"#;

/// A signal of a project.
pub open spec fn is_signal_of(s: RadarSignal, n: NewsItem) -> bool {
    s.title@ == n.title@ && s.source@ == n.source@ && s.url@ == n.url@ && s.summary@
        == n.description@
}

/// The signals of projects: those that are worked on, then those that are new, each address once.
pub fn signals_from(active: Vec<NewsItem>, emerging: Vec<NewsItem>) -> (r: Vec<RadarSignal>)
    ensures
        ({
            let all = order::distinct(active@ + emerging@);
            &&& r@.len() == all.len()
            &&& forall|i: int| 0 <= i < r@.len() ==> is_signal_of(#[trigger] r@[i], all[i])
        }),
        forall|i: int, j: int|
            0 <= i < j < r@.len() ==> (#[trigger] r@[i]).url@ != (#[trigger] r@[j]).url@,
        forall|n: NewsItem|
            #[trigger] (active@ + emerging@).contains(n) ==> exists|k: int|
                0 <= k < r@.len() && (#[trigger] r@[k]).url@ == n.url@,
{
    let mut items = active;
    let mut more = emerging;
    items.append(&mut more);
    let ghost both = items@;
    let all = order::distinct_entries(items);
    let mut r: Vec<RadarSignal> = Vec::new();
    let mut i: usize = 0;
    while i < all.len()
        invariant
            i <= all@.len(),
            r@.len() == i,
            forall|j: int| 0 <= j < i ==> is_signal_of(#[trigger] r@[j], all@[j]),
        decreases all.len() - i,
    {
        let n = &all[i];
        r.push(
            RadarSignal {
                title: n.title.clone(),
                source: n.source.clone(),
                url: n.url.clone(),
                summary: n.description.clone(),
            },
        );
        i += 1;
    }
    proof {
        order::distinct_has_each_key_once(both);
        let ks = order::keys(all@);
        assert forall|i: int, j: int| 0 <= i < j < r@.len() implies (#[trigger] r@[i]).url@ != (
        #[trigger] r@[j]).url@ by {
            assert(ks[i] != ks[j]);
        }
        assert forall|n: NewsItem| #[trigger] both.contains(n) implies exists|k: int|
            0 <= k < r@.len() && (#[trigger] r@[k]).url@ == n.url@ by {
            let m = choose|m: int| 0 <= m < both.len() && both[m] == n;
            assert(order::keys(both)[m] == n.url@);
            assert(order::keys(both).contains(n.url@));
            assert(ks.contains(n.url@));
            let k = choose|k: int| 0 <= k < ks.len() && ks[k] == n.url@;
            assert(r@[k].url@ == n.url@);
        }
    }
    r
}

/// How many signals are asked for at least.
pub fn signals_wanted(max_results: usize) -> (r: usize)
    ensures
        r == (if max_results < 12 {
            12
        } else {
            max_results
        }),
{
    if max_results < 12 {
        12
    } else {
        max_results
    }
}

/// A signal as the language model is shown it.
pub open spec fn signal_line(s: RadarSignal) -> Seq<char> {
    "- ["@ + s.source@ + "] "@ + s.title@ + " | "@ + s.summary@
}

/// The first ten signals as the language model is shown them.
pub open spec fn signal_lines(signals: Seq<RadarSignal>) -> Seq<char> {
    text::joined(order::cut(signals, 10).map_values(|s: RadarSignal| signal_line(s)), "\n"@)
}

/// The first ten signals as the language model is shown them.
fn list_signals(signals: &Vec<RadarSignal>) -> (r: String)
    ensures
        r@ == signal_lines(signals@),
{
    let n: usize = if signals.len() <= 10 {
        signals.len()
    } else {
        10
    };
    let ghost f = |s: RadarSignal| signal_line(s);
    let ghost all = order::cut(signals@, 10);
    let mut lines: Vec<String> = Vec::new();
    let mut i: usize = 0;
    while i < n
        invariant
            i <= n <= signals@.len(),
            all == order::cut(signals@, 10),
            all.len() == n,
            f == (|s: RadarSignal| signal_line(s)),
            text::views(lines@) == all.take(i as int).map_values(f),
        decreases n - i,
    {
        broadcast use text::views_push;

        assert(all.take(i + 1).map_values(f) =~= all.take(i as int).map_values(f).push(
            f(all[i as int]),
        ));
        let s = &signals[i];
        lines.push(text::concat6("- [", &s.source, "] ", &s.title, " | ", &s.summary));
        i += 1;
    }
    proof {
        lists::take_all(all);
    }
    text::join(&lines, "\n")
}

/// What the language model is asked for a radar: `today` is the day.
pub open spec fn radar_question(
    signals: Seq<RadarSignal>,
    kw: Seq<char>,
    mode: RadarMode,
    today: Seq<char>,
) -> Seq<char> {
    let a = text::replaced(mode.prompt_text(), "{today}"@, today);
    let b = text::replaced(a, "{keyword}"@, kw);
    let c = text::replaced(
        b,
        "{n_signals}"@,
        number::decimal(order::cut(signals, 10).len()),
    );
    text::replaced(c, "{signal_list}"@, signal_lines(signals))
}

/// What the language model is asked for a radar.
pub fn radar_prompt(signals: &Vec<RadarSignal>, kw: &str, mode: RadarMode, today: &str) -> (r: String)
    ensures
        r@ == radar_question(signals@, kw@, mode, today@),
{
    proof {
        reveal_strlit("{today}");
        reveal_strlit("{keyword}");
        reveal_strlit("{n_signals}");
        reveal_strlit("{signal_list}");
    }
    let n: usize = if signals.len() <= 10 {
        signals.len()
    } else {
        10
    };
    let a = text::replace(mode.prompt(), "{today}", today);
    let b = text::replace(&a, "{keyword}", kw);
    let c = text::replace(&b, "{n_signals}", &number::usize_text(n));
    text::replace(&c, "{signal_list}", &list_signals(signals))
}

/// A radar as the language model tells it.
pub struct RadarResponse {
    pub quadrant_names: Vec<(String, String)>,
    pub blips: Vec<Blip>,
}

/// The items of a radar as it was told: each in its normal form, with duplicates merged, and
/// those alone that the radar shows.
pub open spec fn radar_items(items: Seq<Tech>, mode: RadarMode) -> Seq<Tech> {
    shown_items(deduplicated(items.map_values(|b: Tech| normal(b))), mode)
}

/// The quadrants and the items of a radar; `None` where the reply could not be read. Without
/// names the quadrants have their usual ones.
pub fn extract_blips(parsed: Option<RadarResponse>, mode: RadarMode) -> (r: (
    QuadrantNames,
    Vec<Blip>,
))
    ensures
        match parsed {
            Some(p) => lists::views(r.1@) == radar_items(lists::views(p.blips@), mode) && (if
            p.quadrant_names@.len() == 0 {
                entry_texts(r.0.entries@) == default_names(mode)
            } else {
                r.0.entries == p.quadrant_names
            }),
            None => r.1@.len() == 0 && entry_texts(r.0.entries@) == default_names(mode),
        },
        (parsed matches Some(p) ==> keys_differ(p.quadrant_names@)) ==> keys_differ(r.0.entries@),
{
    match parsed {
        Some(p) => {
            let blips = filter_blips_for_mode(deduplicate(normalize_all(p.blips)), mode);
            let names = if p.quadrant_names.len() == 0 {
                default_quadrant_names(mode)
            } else {
                QuadrantNames { entries: p.quadrant_names }
            };
            (names, blips)
        },
        None => (default_quadrant_names(mode), Vec::new()),
    }
}

// ── Review ─────────────────────────────────────────────────────────────────────

/// What the language model is asked for a review of projects.
pub const PROJECT_REVIEW_PROMPT: &'static str = r#"你是一位技術生態系統審核專家。今天日期：{today}。
關鍵字：「{keyword}」

目前雷達已有 {n_blips} 個項目：
{blips_summary}

象限定義：
{q_names}

任務：審核這份雷達圖是否完整涵蓋「{keyword}」領域的技術生態。請考量：
1. 各象限是否有明顯缺漏的重要開源或閉源專案？
2. 開源與閉源的代表性是否平衡？
3. 是否有近期重要的新興產品、專案、平台或服務未被納入？
4. 不要新增純方法論、演算法、架構模式或研究技術。

如果雷達圖已足夠完整，只回傳：
{"satisfied": true}

如果有重要缺漏，回傳（只列出缺漏項目，不重複現有項目）：
{
  "satisfied": false,
  "reason": "簡短說明缺漏原因",
  "blips": [
    {
      "name": "ToolX",
      "canonical_name": "toolx",
      "kind": "tool",
      "quadrant": "q2",
      "ring": "adopt",
      "is_open_source": true,
      "description": "一句話說明用途。",
      "license": "Apache 2.0",
      "upstream": [],
      "downstream": [],
      "pros": ["優點"],
      "cons": ["缺點"],
      "rationale": "為什麼需要加入。"
    }
  ]
}

規則：
- 只新增真正缺漏的重要項目（3–10 個）
- quadrant 只填 q1/q2/q3/q4，ring 只填 adopt/trial/assess/hold（全小寫）
- canonical_name 必填，使用穩定英文名或系列名，不含版本號、空白或標點
- kind 必填，只能是 language/framework/library/tool/platform/database/model/service 其中之一
- name ≤20 字元，只回傳 JSON，不加任何其他文字"#;

/// What the language model is asked for a review of methods.
pub const METHOD_REVIEW_PROMPT: &'static str = r#"你是一位技術方法論審核專家。今天日期：{today}。
關鍵字：「{keyword}」

目前方法雷達已有 {n_blips} 個項目：
{blips_summary}

象限定義：
{q_names}

任務：審核這份方法雷達是否完整涵蓋「{keyword}」領域的方法論、演算法、架構模式與工程實踐。請考量：
1. 各象限是否有明顯缺漏的重要方法？
2. 是否涵蓋成熟主流方法與近期新興方法？
3. 是否有重要評估、訓練、部署、架構或工程實踐未納入？
4. 不要新增具體開源專案、閉源產品、API 服務、SaaS、vendor 或 repo。

如果雷達圖已足夠完整，只回傳：
{"satisfied": true}

如果有重要缺漏，回傳（只列出缺漏項目，不重複現有項目）：
{
  "satisfied": false,
  "reason": "簡短說明缺漏原因",
  "blips": [
    {
      "name": "MethodX",
      "canonical_name": "methodx",
      "kind": "method",
      "quadrant": "q2",
      "ring": "trial",
      "is_open_source": false,
      "description": "一句話說明用途。",
      "license": "",
      "upstream": [],
      "downstream": [],
      "pros": ["優點"],
      "cons": ["限制"],
      "rationale": "為什麼需要加入。"
    }
  ]
}

規則：
- 只新增真正缺漏的重要項目（3–10 個）
- quadrant 只填 q1/q2/q3/q4，ring 只填 adopt/trial/assess/hold（全小寫）
- canonical_name 必填，使用穩定英文名，不含版本號、空白或標點
- kind 必填，只能是 technique/method 其中之一；演算法請歸類為 method
- name ≤20 字元，只回傳 JSON，不加任何其他文字"#;

/// An item as the language model is shown it for a review.
pub open spec fn review_line(b: Tech, names: Seq<(String, String)>) -> Seq<char> {
    "  - "@ + b.name + " | "@ + (if b.kind.len() == 0 {
        "unknown"@
    } else {
        b.kind
    }) + " | "@ + quadrant_name(names, b.quadrant) + " | "@ + b.ring + " | "@ + (if
    b.is_open_source {
        "開源"@
    } else {
        "閉源"@
    })
}

/// A quadrant as the language model is shown it for a review.
pub open spec fn quadrant_line(e: (String, String)) -> Seq<char> {
    "  "@ + e.0@ + ": "@ + e.1@
}

/// What the language model is asked for a review: `today` is the day.
pub open spec fn review_question(
    items: Seq<Tech>,
    names: Seq<(String, String)>,
    kw: Seq<char>,
    mode: RadarMode,
    today: Seq<char>,
) -> Seq<char> {
    let a = text::replaced(mode.review_text(), "{today}"@, today);
    let b = text::replaced(a, "{keyword}"@, kw);
    let c = text::replaced(b, "{n_blips}"@, number::decimal(items.len()));
    let d = text::replaced(
        c,
        "{blips_summary}"@,
        text::joined(items.map_values(|b: Tech| review_line(b, names)), "\n"@),
    );
    text::replaced(
        d,
        "{q_names}"@,
        text::joined(names.map_values(|e: (String, String)| quadrant_line(e)), "\n"@),
    )
}

/// The items as the language model is shown them for a review.
fn list_items(blips: &Vec<Blip>, names: &QuadrantNames) -> (r: String)
    ensures
        r@ == text::joined(
            lists::views(blips@).map_values(|b: Tech| review_line(b, names.entries@)),
            "\n"@,
        ),
{
    let ghost f = |b: Tech| review_line(b, names.entries@);
    let ghost all = lists::views(blips@);
    let mut lines: Vec<String> = Vec::new();
    let mut i: usize = 0;
    while i < blips.len()
        invariant
            i <= blips@.len(),
            all == lists::views(blips@),
            f == (|b: Tech| review_line(b, names.entries@)),
            text::views(lines@) == all.take(i as int).map_values(f),
        decreases blips.len() - i,
    {
        broadcast use text::views_push;

        assert(all.take(i + 1).map_values(f) =~= all.take(i as int).map_values(f).push(
            f(all[i as int]),
        ));
        let b = &blips[i];
        let kind = if text::is_empty(&b.kind) {
            "unknown"
        } else {
            b.kind.as_str()
        };
        let source = if b.is_open_source {
            "開源"
        } else {
            "閉源"
        };
        let mut line = text::concat6(
            "  - ",
            &b.name,
            " | ",
            kind,
            " | ",
            &names.name_of(&b.quadrant),
        );
        line.append(" | ");
        line.append(&b.ring);
        line.append(" | ");
        line.append(source);
        lines.push(line);
        i += 1;
    }
    proof {
        lists::take_all(all);
    }
    text::join(&lines, "\n")
}

/// The quadrants as the language model is shown them for a review.
fn list_quadrants(names: &QuadrantNames) -> (r: String)
    ensures
        r@ == text::joined(
            names.entries@.map_values(|e: (String, String)| quadrant_line(e)),
            "\n"@,
        ),
{
    let ghost f = |e: (String, String)| quadrant_line(e);
    let ghost all = names.entries@;
    let mut lines: Vec<String> = Vec::new();
    let mut i: usize = 0;
    while i < names.entries.len()
        invariant
            i <= names.entries@.len(),
            all == names.entries@,
            f == (|e: (String, String)| quadrant_line(e)),
            text::views(lines@) == all.take(i as int).map_values(f),
        decreases names.entries.len() - i,
    {
        broadcast use text::views_push;

        assert(all.take(i + 1).map_values(f) =~= all.take(i as int).map_values(f).push(
            f(all[i as int]),
        ));
        let e = &names.entries[i];
        lines.push(text::concat4("  ", &e.0, ": ", &e.1));
        i += 1;
    }
    proof {
        lists::take_all(all);
    }
    text::join(&lines, "\n")
}

/// What the language model is asked for a review.
pub fn review_prompt(
    blips: &Vec<Blip>,
    names: &QuadrantNames,
    kw: &str,
    mode: RadarMode,
    today: &str,
) -> (r: String)
    ensures
        r@ == review_question(lists::views(blips@), names.entries@, kw@, mode, today@),
{
    proof {
        reveal_strlit("{today}");
        reveal_strlit("{keyword}");
        reveal_strlit("{n_blips}");
        reveal_strlit("{blips_summary}");
        reveal_strlit("{q_names}");
        assert(lists::views(blips@).len() == blips@.len());
    }
    let a = text::replace(mode.review_prompt(), "{today}", today);
    let b = text::replace(&a, "{keyword}", kw);
    let c = text::replace(&b, "{n_blips}", &number::usize_text(blips.len()));
    let d = text::replace(&c, "{blips_summary}", &list_items(blips, names));
    text::replace(&d, "{q_names}", &list_quadrants(names))
}

/// What a review came to.
pub enum ReviewOutcome {
    /// Nothing is missing.
    Satisfied,
    /// Items were added.
    Augmented,
    /// There was no review.
    Skipped { reason: String },
}

/// Whether another review follows one, counted from one: at most two are made, and only a review
/// that added items is followed by another.
pub open spec fn review_follows(round: int, outcome: ReviewOutcome) -> bool {
    round < 2 && outcome is Augmented
}

/// Whether another review follows one, counted from one.
pub fn another_round(round: u8, outcome: &ReviewOutcome) -> (r: bool)
    ensures
        r == review_follows(round as int, *outcome),
{
    match outcome {
        ReviewOutcome::Augmented => round < 2,
        _ => false,
    }
}

/// Whether these are what the reviews of a radar came to, one after another: each but the last was
/// followed by another, and the last was not.
pub open spec fn is_review(outcomes: Seq<ReviewOutcome>) -> bool {
    &&& outcomes.len() > 0
    &&& forall|i: int|
        0 <= i < outcomes.len() - 1 ==> review_follows(i + 1, #[trigger] outcomes[i])
    &&& !review_follows(outcomes.len() as int, outcomes.last())
}

/// A radar is reviewed once or twice: a review that found nothing missing and one that was skipped
/// are the last, and after one that added items there is a second.
pub proof fn reviews_are_two_at_most(outcomes: Seq<ReviewOutcome>)
    requires
        is_review(outcomes),
    ensures
        1 <= outcomes.len() <= 2,
        outcomes.len() == 2 <==> outcomes[0] is Augmented,
{
    if outcomes.len() > 2 {
        assert(review_follows(2, outcomes[1]));
    }
    if outcomes.len() == 2 {
        assert(review_follows(1, outcomes[0]));
    }
}

/// A reply to a review.
pub enum ReviewReply {
    /// There was none.
    NoReply(String),
    /// It could not be read.
    Unreadable(String),
    /// Whether nothing is missing, and the items that are.
    Read { satisfied: bool, blips: Vec<Blip> },
}

/// The items of a radar with those that were missing: the new ones in their normal form and as
/// the radar shows them, and duplicates merged.
pub open spec fn augmented(items: Seq<Tech>, more: Seq<Tech>, mode: RadarMode) -> Seq<Tech> {
    shown_items(
        deduplicated(items + shown_items(more.map_values(|b: Tech| normal(b)), mode)),
        mode,
    )
}

/// Takes the reply to a review: items are added where some are missing, and left as they are
/// otherwise.
pub fn review_and_augment(blips: Vec<Blip>, reply: ReviewReply, mode: RadarMode) -> (r: (
    Vec<Blip>,
    ReviewOutcome,
))
    ensures
        match reply {
            ReviewReply::NoReply(e) => r.0 == blips && (r.1 matches ReviewOutcome::Skipped {
                reason,
            } && reason@ == "LLM 呼叫失敗: "@ + e@),
            ReviewReply::Unreadable(e) => r.0 == blips && (r.1 matches ReviewOutcome::Skipped {
                reason,
            } && reason@ == "JSON 解析失敗: "@ + e@),
            ReviewReply::Read { satisfied, blips: more } => if satisfied || more@.len() == 0 {
                r.0 == blips && r.1 is Satisfied
            } else {
                r.1 is Augmented && lists::views(r.0@) == augmented(
                    lists::views(blips@),
                    lists::views(more@),
                    mode,
                )
            },
        },
{
    match reply {
        ReviewReply::NoReply(e) => (
            blips,
            ReviewOutcome::Skipped { reason: text::concat2("LLM 呼叫失敗: ", &e) },
        ),
        ReviewReply::Unreadable(e) => (
            blips,
            ReviewOutcome::Skipped { reason: text::concat2("JSON 解析失敗: ", &e) },
        ),
        ReviewReply::Read { satisfied, blips: more } => {
            if satisfied || more.len() == 0 {
                return (blips, ReviewOutcome::Satisfied);
            }
            let mut new_blips = filter_blips_for_mode(normalize_all(more), mode);
            let mut all = blips;
            let ghost a = all@;
            let ghost b = new_blips@;
            all.append(&mut new_blips);
            assert(lists::views(all@) =~= lists::views(a) + lists::views(b));
            let out = filter_blips_for_mode(deduplicate(all), mode);
            (out, ReviewOutcome::Augmented)
        },
    }
}

// ── Laws ─────────────────────────────────────────────────────────────────────

/// Whether two items agree in all by which technologies are told apart: names, canonical names and
/// kinds.
pub open spec fn told_alike(a: Tech, b: Tech) -> bool {
    a.name == b.name && a.canonical_name == b.canonical_name && a.kind == b.kind
}

/// Whether two items are the same technology depends on their names, canonical names and kinds
/// alone, not on their quadrants, rings or anything else, and not on which comes first.
pub proof fn sameness_is_of_names_and_kinds(c: Tech, e: Tech, c2: Tech, e2: Tech)
    requires
        told_alike(c, c2),
        told_alike(e, e2),
    ensures
        is_same(c, e) == is_same(c2, e2),
        is_same(c, e) == is_same(e, c),
        is_same(c, c2),
{
    lemma_words_of_both(c, e);
    lemma_words_of_both(e, c);
}

/// Where two names have the same words, both have words or neither has.
proof fn lemma_words_of_both(c: Tech, e: Tech)
    ensures
        word_set(c.name) == word_set(e.name) && name_words(c.name).len() > 0 ==> name_words(
            e.name,
        ).len() > 0,
{
    if word_set(c.name) == word_set(e.name) && name_words(c.name).len() > 0 {
        let w = name_words(c.name)[0];
        assert(word_set(c.name).contains(w));
        assert(word_set(e.name).contains(w));
    }
}

/// An item with the key of one that is there is merged with it, whatever else it says: one item is
/// left, with the inner ring of the two.
pub proof fn equal_keys_leave_one_item(c: Tech, e: Tech)
    requires
        item_key(c) == item_key(e),
    ensures
        deduplicated(seq![e, c]).len() == 1,
        rank(deduplicated(seq![e, c])[0].ring) <= rank(c.ring),
        rank(deduplicated(seq![e, c])[0].ring) <= rank(e.ring),
        item_key(deduplicated(seq![e, c])[0]) == item_key(e),
{
    lemma_two_items(e, c);
}

/// Two items of one name, or with the same letters and digits in their names, or with the same
/// words, are one item where neither has a canonical name and the kinds do not disagree.
pub proof fn equal_names_leave_one_item(c: Tech, e: Tech)
    requires
        text::trimmed(c.canonical_name).len() == 0,
        text::trimmed(e.canonical_name).len() == 0,
        unicode::alphanumerics(c.name) == unicode::alphanumerics(e.name) || unicode::lowercase(
            unicode::alphanumerics(c.name),
        ) == unicode::lowercase(unicode::alphanumerics(e.name)),
    ensures
        deduplicated(seq![e, c]).len() == 1,
{
    equal_keys_leave_one_item(c, e);
}

/// Two items with the same canonical name are one item, whatever their names and kinds are.
pub proof fn equal_canonical_names_leave_one_item(c: Tech, e: Tech)
    requires
        text::trimmed(c.canonical_name).len() > 0,
        c.canonical_name == e.canonical_name,
    ensures
        deduplicated(seq![e, c]).len() == 1,
{
    equal_keys_leave_one_item(c, e);
}

/// Two items whose names have the same words, in whatever order, are one item where one of them
/// has no kind or both have the same.
pub proof fn equal_words_leave_one_item(c: Tech, e: Tech)
    requires
        name_words(c.name).len() > 0,
        forall|w: Seq<char>|
            #[trigger] name_words(c.name).contains(w) == name_words(e.name).contains(w),
        usual_kind(c.kind).len() == 0 || usual_kind(e.kind).len() == 0 || usual_kind(c.kind)
            == usual_kind(e.kind),
    ensures
        deduplicated(seq![e, c]).len() == 1,
{
    assert(word_set(c.name) =~= word_set(e.name)) by {
        assert forall|w: Seq<char>| word_set(c.name).contains(w) == word_set(e.name).contains(w) by {
            assert(name_words(c.name).contains(w) == name_words(e.name).contains(w));
        }
    }
    lemma_two_items(e, c);
}

/// Two items with different keys both stay as they are, where a word of one name is not in the
/// other, or their kinds are known and differ.
pub proof fn different_items_both_stay(c: Tech, e: Tech, w: Seq<char>)
    requires
        item_key(c) != item_key(e),
        (name_words(c.name).contains(w) != name_words(e.name).contains(w)) || (usual_kind(
            c.kind,
        ).len() > 0 && usual_kind(e.kind).len() > 0 && usual_kind(c.kind) != usual_kind(e.kind)),
    ensures
        deduplicated(seq![e, c]) == seq![e, c],
{
    assert(word_set(c.name).contains(w) == name_words(c.name).contains(w));
    assert(word_set(e.name).contains(w) == name_words(e.name).contains(w));
    lemma_two_items(e, c);
    assert(seq![e].push(c) =~= seq![e, c]);
}

/// Two items after merging.
proof fn lemma_two_items(e: Tech, c: Tech)
    ensures
        deduplicated(seq![e, c]) == (if is_same(c, e) {
            seq![merged(c, e)]
        } else {
            seq![e].push(c)
        }),
{
    let two = seq![e, c];
    let one = seq![e];
    assert(two.drop_last() =~= one);
    assert(one.drop_last() =~= Seq::<Tech>::empty());
    assert(deduplicated(one.drop_last()) =~= Seq::<Tech>::empty());
    assert(same_from(Seq::<Tech>::empty(), e, 0) == 0);
    assert(deduplicated(one) =~= one) by {
        assert(one.last() == e);
        assert(Seq::<Tech>::empty().push(e) =~= one);
    }
    assert(same_from(one, c, 1) == 1);
    if is_same(c, e) {
        assert(same_from(one, c, 0) == 0);
        assert(one.update(0, merged(c, e)) =~= seq![merged(c, e)]);
    } else {
        assert(same_from(one, c, 0) == 1);
    }
}

/// Whether an item is named as one of some items: its name and its canonical name are those of the
/// same one.
pub open spec fn is_named_as_one(b: Tech, items: Seq<Tech>) -> bool {
    exists|j: int|
        0 <= j < items.len() && (#[trigger] items[j]).name == b.name && items[j].canonical_name
            == b.canonical_name
}

/// Whether all of an item but its names is that of one of some items.
pub open spec fn is_told_as_one(b: Tech, items: Seq<Tech>) -> bool {
    exists|j: int|
        0 <= j < items.len() && b == (Tech {
            name: b.name,
            canonical_name: b.canonical_name,
            ..#[trigger] items[j]
        })
}

/// Whatever stands on a radar after merging was on the list: its name and canonical name come from
/// one item, and everything else from one item.
pub proof fn merging_invents_nothing(items: Seq<Tech>)
    ensures
        forall|i: int|
            0 <= i < deduplicated(items).len() ==> is_named_as_one(
                #[trigger] deduplicated(items)[i],
                items,
            ) && is_told_as_one(deduplicated(items)[i], items),
    decreases items.len(),
{
    if items.len() > 0 {
        let a = items.drop_last();
        let c = items.last();
        merging_invents_nothing(a);
        let d = deduplicated(a);
        let r = deduplicated(items);
        lemma_same_bounds(d, c, 0);
        let n = items.len() - 1;
        assert(items[n] == c);
        assert forall|i: int| 0 <= i < r.len() implies is_named_as_one(#[trigger] r[i], items)
            && is_told_as_one(r[i], items) by {
            if i < d.len() {
                assert(is_named_as_one(d[i], a) && is_told_as_one(d[i], a));
                let j = choose|j: int|
                    0 <= j < a.len() && (#[trigger] a[j]).name == d[i].name && a[j].canonical_name
                        == d[i].canonical_name;
                let k = choose|k: int|
                    0 <= k < a.len() && d[i] == (Tech {
                        name: d[i].name,
                        canonical_name: d[i].canonical_name,
                        ..#[trigger] a[k]
                    });
                assert(items[j] == a[j] && items[k] == a[k]);
                let m = merged(c, d[i]);
                if r[i] != d[i] {
                    assert(r[i] == m);
                    if better_name(c, d[i]) {
                        assert(items[n].name == m.name);
                    } else {
                        assert(items[j].name == m.name);
                    }
                    if rank(c.ring) < rank(d[i].ring) {
                        assert(m == Tech { name: m.name, canonical_name: m.canonical_name, ..items[n] });
                    } else {
                        assert(m == Tech { name: m.name, canonical_name: m.canonical_name, ..items[k] });
                    }
                }
            } else {
                assert(r[i] == c);
                assert(items[n].name == r[i].name);
                assert(r[i] == Tech { name: r[i].name, canonical_name: r[i].canonical_name, ..items[n] });
            }
        }
    }
}

/// Whether items have one key wherever their names have the same words.
pub open spec fn words_follow_keys(items: Seq<Tech>) -> bool {
    forall|i: int, j: int|
        0 <= i < items.len() && 0 <= j < items.len() && name_words(items[i].name).len() > 0
            && word_set((#[trigger] items[i]).name) == word_set((#[trigger] items[j]).name)
            ==> item_key(items[i]) == item_key(items[j])
}

/// The keys of items.
pub open spec fn item_keys(items: Seq<Tech>) -> Seq<Seq<char>> {
    items.map_values(|b: Tech| item_key(b))
}

/// A technology stands on the radar once: after merging no two items have one key, and the keys
/// are those of the list, whatever the quadrants, rings and kinds are. (Where names with the same
/// words have different keys, an item can be merged by its words instead.)
pub proof fn each_key_stands_once(items: Seq<Tech>)
    requires
        words_follow_keys(items),
    ensures
        item_keys(deduplicated(items)).no_duplicates(),
        item_keys(deduplicated(items)).to_set() == item_keys(items).to_set(),
    decreases items.len(),
{
    if items.len() > 0 {
        let a = items.drop_last();
        let c = items.last();
        assert(words_follow_keys(a)) by {
            assert forall|i: int, j: int|
                0 <= i < a.len() && 0 <= j < a.len() && name_words(a[i].name).len() > 0
                    && word_set((#[trigger] a[i]).name) == word_set((#[trigger] a[j]).name)
                implies item_key(a[i]) == item_key(a[j]) by {
                assert(a[i] == items[i] && a[j] == items[j]);
            }
        }
        each_key_stands_once(a);
        lemma_one_more_key(items);
        let ks = item_keys(deduplicated(a));
        assert(item_keys(items) =~= item_keys(a).push(item_key(c)));
        assert(item_keys(items).to_set() =~= item_keys(a).to_set().insert(item_key(c))) by {
            lemma_set_push(item_keys(a), item_key(c));
        }
        if ks.contains(item_key(c)) {
            assert(ks.to_set().contains(item_key(c)));
            assert(item_keys(items).to_set() =~= item_keys(a).to_set());
        } else {
            lemma_set_push(ks, item_key(c));
        }
    } else {
        assert(item_keys(deduplicated(items)) =~= item_keys(items));
    }
}

/// The set of a list with one more text.
proof fn lemma_set_push(s: Seq<Seq<char>>, x: Seq<char>)
    ensures
        s.push(x).to_set() == s.to_set().insert(x),
{
    assert forall|y: Seq<char>| s.push(x).to_set().contains(y) == s.to_set().insert(x).contains(y) by {
        if s.push(x).contains(y) {
            let i = choose|i: int| 0 <= i < s.push(x).len() && s.push(x)[i] == y;
            if i < s.len() {
                assert(s[i] == y);
            }
        }
        if s.contains(y) {
            let i = choose|i: int| 0 <= i < s.len() && s[i] == y;
            assert(s.push(x)[i] == y);
        }
        assert(s.push(x)[s.len() as int] == x);
    }
    assert(s.push(x).to_set() =~= s.to_set().insert(x));
}

/// The keys after one more item: they stay as they are where its key is there, and it comes to
/// them otherwise.
proof fn lemma_one_more_key(items: Seq<Tech>)
    requires
        items.len() > 0,
        words_follow_keys(items),
    ensures
        ({
            let ks = item_keys(deduplicated(items.drop_last()));
            let k = item_key(items.last());
            item_keys(deduplicated(items)) == (if ks.contains(k) {
                ks
            } else {
                ks.push(k)
            })
        }),
{
    let a = items.drop_last();
    let c = items.last();
    let d = deduplicated(a);
    let ks = item_keys(d);
    merging_invents_nothing(a);
    lemma_same_bounds(d, c, 0);
    lemma_found_is_same(d, c, 0);
    let i = same_from(d, c, 0);
    if i < d.len() {
        lemma_same_has_key(items, d[i]);
        assert(ks[i] == item_key(c));
        assert(item_keys(deduplicated(items)) =~= ks);
    } else {
        if ks.contains(item_key(c)) {
            let j = choose|j: int| 0 <= j < ks.len() && ks[j] == item_key(c);
            assert(is_same(c, d[j]));
        }
        assert(item_keys(deduplicated(items)) =~= ks.push(item_key(c)));
    }
}

/// What is the same technology as the last item and named as one before it has its key.
proof fn lemma_same_has_key(items: Seq<Tech>, e: Tech)
    requires
        items.len() > 0,
        words_follow_keys(items),
        is_named_as_one(e, items.drop_last()),
        is_same(items.last(), e),
    ensures
        item_key(items.last()) == item_key(e),
{
    let a = items.drop_last();
    let n = items.len() - 1;
    let j = choose|j: int|
        0 <= j < a.len() && (#[trigger] a[j]).name == e.name && a[j].canonical_name
            == e.canonical_name;
    assert(items[j] == a[j]);
    assert(item_key(a[j]) == item_key(e));
    if item_key(items.last()) != item_key(e) {
        assert(word_set(items[n].name) == word_set(items[j].name));
    }
}

/// What is found is the same technology, and nothing before it is.
proof fn lemma_found_is_same(kept: Seq<Tech>, c: Tech, i: int)
    requires
        0 <= i <= kept.len(),
    ensures
        same_from(kept, c, i) < kept.len() ==> is_same(c, kept[same_from(kept, c, i)]),
        forall|j: int| i <= j < same_from(kept, c, i) && j < kept.len() ==> !is_same(
            c,
            #[trigger] kept[j],
        ),
    decreases kept.len() - i,
{
    if i < kept.len() && !is_same(c, kept[i]) {
        lemma_found_is_same(kept, c, i + 1);
        assert forall|j: int| i <= j < same_from(kept, c, i) && j < kept.len() implies !is_same(
            c,
            #[trigger] kept[j],
        ) by {
            if j > i {
                assert(i + 1 <= j);
            }
        }
    }
}

/// The rings go outwards from "adopt" over "trial" and "assess" to "hold", and what is no ring
/// counts as "assess".
pub proof fn rings_go_outwards(other: Seq<char>)
    ensures
        rank("adopt"@) < rank("trial"@) < rank("assess"@) < rank("hold"@),
        !text::str_views(RINGS@).contains(other) ==> rank(other) == rank("assess"@),
{
    reveal_strlit("adopt");
    reveal_strlit("trial");
    reveal_strlit("assess");
    reveal_strlit("hold");
    assert("adopt"@.len() == 5 && "trial"@.len() == 5 && "assess"@.len() == 6 && "hold"@.len() == 4);
    assert("adopt"@[0] != "trial"@[0]);
    let v = text::str_views(RINGS@);
    assert(v[0] == "adopt"@ && v[1] == "trial"@ && v[2] == "assess"@ && v[3] == "hold"@);
}

/// A merged item is told by the one further inside, and by the one that was there where neither
/// is; its name and canonical name are those of the item with the longer name, and where both are
/// as long, of the one by which it is told.
pub proof fn merging_tells_by_the_inner_item(c: Tech, e: Tech)
    ensures
        ({
            let m = merged(c, e);
            let t = if rank(c.ring) < rank(e.ring) {
                c
            } else {
                e
            };
            let lc = text::byte_count(unicode::lowercase(unicode::alphanumerics(c.name)));
            let le = text::byte_count(unicode::lowercase(unicode::alphanumerics(e.name)));
            &&& m.ring == t.ring && m.quadrant == t.quadrant && m.kind == t.kind
            &&& m.is_open_source == t.is_open_source && m.license == t.license
            &&& m.description == t.description && m.rationale == t.rationale
            &&& m.pros == t.pros && m.cons == t.cons
            &&& m.upstream == t.upstream && m.downstream == t.downstream
            &&& m.github_repo == t.github_repo && m.github_days == t.github_days
            &&& lc > le ==> m.name == c.name && m.canonical_name == c.canonical_name
            &&& lc < le ==> m.name == e.name && m.canonical_name == e.canonical_name
            &&& lc == le ==> m.name == t.name && m.canonical_name == t.canonical_name
        }),
{
}

/// The normal form keeps all that the language model tells of an item but the white space round
/// its name; a ring and a quadrant that are known in lowercase and without white space stay, and
/// others become "assess" and "q1".
pub proof fn normal_form_keeps_what_is_told(b: Tech)
    ensures
        ({
            let n = normal(b);
            let ring = text::trimmed(unicode::lowercase(b.ring));
            let quadrant = text::trimmed(unicode::lowercase(b.quadrant));
            &&& n.name == text::trimmed(b.name)
            &&& n.is_open_source == b.is_open_source && n.license == b.license
            &&& n.description == b.description && n.rationale == b.rationale
            &&& n.pros == b.pros && n.cons == b.cons
            &&& n.upstream == b.upstream && n.downstream == b.downstream
            &&& n.github_repo == b.github_repo && n.github_days == b.github_days
            &&& ring == "adopt"@ || ring == "trial"@ || ring == "assess"@ || ring == "hold"@
                ==> n.ring == ring
            &&& ring != "adopt"@ && ring != "trial"@ && ring != "hold"@ ==> n.ring == "assess"@
            &&& quadrant == "q1"@ || quadrant == "q2"@ || quadrant == "q3"@ || quadrant == "q4"@
                ==> n.quadrant == quadrant
            &&& quadrant != "q2"@ && quadrant != "q3"@ && quadrant != "q4"@ ==> n.quadrant
                == "q1"@
        }),
{
    let v = text::str_views(RINGS@);
    assert(v[0] == "adopt"@ && v[1] == "trial"@ && v[2] == "assess"@ && v[3] == "hold"@);
    let q = text::str_views(QUADRANTS@);
    assert(q[0] == "q1"@ && q[1] == "q2"@ && q[2] == "q3"@ && q[3] == "q4"@);
    let ring = text::trimmed(unicode::lowercase(b.ring));
    let quadrant = text::trimmed(unicode::lowercase(b.quadrant));
    if v.contains(ring) {
        let i = choose|i: int| 0 <= i < v.len() && v[i] == ring;
        assert(i == 0 || i == 1 || i == 2 || i == 3);
    }
    if q.contains(quadrant) {
        let i = choose|i: int| 0 <= i < q.len() && q[i] == quadrant;
        assert(i == 0 || i == 1 || i == 2 || i == 3);
    }
}

/// An item has its key from its canonical name, and from its name where that is blank; in its
/// normal form the canonical name is the key of what it was given.
pub proof fn keys_come_from_canonical_names(a: Tech, b: Tech)
    ensures
        text::trimmed(a.canonical_name).len() > 0 && a.canonical_name == b.canonical_name
            ==> item_key(a) == item_key(b),
        text::trimmed(a.canonical_name).len() == 0 && text::trimmed(b.canonical_name).len() == 0
            && a.name == b.name ==> item_key(a) == item_key(b),
        text::trimmed(a.canonical_name).len() == 0 && text::trimmed(b.canonical_name).len() > 0
            && a.name == b.canonical_name ==> item_key(a) == item_key(b),
        text::trimmed(a.canonical_name).len() == 0 ==> normal(a).canonical_name == item_key(
            Tech { name: text::trimmed(a.name), ..a },
        ),
        text::trimmed(a.canonical_name).len() > 0 ==> normal(a).canonical_name == item_key(
            Tech { name: text::trimmed(a.canonical_name), canonical_name: Seq::empty(), ..a },
        ),
{
    assert(text::trimmed(Seq::<char>::empty()).len() == 0) by {
        assert(text::trimmed_start(Seq::<char>::empty()) =~= Seq::empty());
    }
}

/// Whether an item belongs on a radar: its kind is one that the radar shows, or it has none.
pub open spec fn belongs(b: Tech, mode: RadarMode) -> bool {
    b.kind.len() == 0 || mode.shows(b.kind)
}

/// A radar shows each item that belongs on it and no other, in order, and tells it as it was: a
/// project as it is, and a method without what a project has.
pub proof fn items_that_belong_are_shown(items: Seq<Tech>, mode: RadarMode)
    ensures
        ({
            let all = items.filter(|b: Tech| belongs(b, mode));
            let r = shown_items(items, mode);
            &&& r.len() == all.len()
            &&& forall|i: int|
                0 <= i < r.len() ==> {
                    let b = all[i];
                    &&& (#[trigger] r[i]).name == b.name && r[i].canonical_name == b.canonical_name
                    &&& r[i].ring == b.ring && r[i].quadrant == b.quadrant
                    &&& r[i].description == b.description && r[i].rationale == b.rationale
                    &&& r[i].pros == b.pros && r[i].cons == b.cons
                    &&& r[i].upstream == b.upstream && r[i].downstream == b.downstream
                    &&& b.kind.len() > 0 ==> r[i].kind == b.kind
                    &&& b.kind.len() == 0 ==> r[i].kind == mode.default_kind()
                    &&& mode == RadarMode::Project ==> r[i] == Tech { kind: r[i].kind, ..b }
                    &&& mode == RadarMode::Method ==> !r[i].is_open_source && r[i].license.len()
                        == 0 && r[i].github_repo.len() == 0 && r[i].github_days is None
                }
        }),
    decreases items.len(),
{
    reveal(Seq::filter);
    if items.len() > 0 {
        items_that_belong_are_shown(items.drop_last(), mode);
        let v = text::str_views(PROJECT_KINDS@);
        assert(v[3] == "tool"@);
        let w = text::str_views(METHOD_KINDS@);
        assert(w[1] == "method"@);
        assert(mode.shows(mode.default_kind()));
    }
}

/// Every known kind is shown by one of the two radars and not by both, and the kind of items that
/// have none is one that the radar shows.
pub proof fn kinds_are_of_one_radar(kind: Seq<char>)
    ensures
        !(RadarMode::Project.shows(kind) && RadarMode::Method.shows(kind)),
        RadarMode::Project.shows(RadarMode::Project.default_kind()),
        RadarMode::Method.shows(RadarMode::Method.default_kind()),
        usual_kind(kind).len() > 0 ==> RadarMode::Project.shows(usual_kind(kind))
            || RadarMode::Method.shows(usual_kind(kind)),
        ({
            let k = unicode::lowercase(text::trimmed(kind));
            &&& RadarMode::Project.shows(k) || RadarMode::Method.shows(k) ==> usual_kind(kind) == k
            &&& k == "algorithm"@ || k == "algorithms"@ ==> usual_kind(kind) == "method"@
        }),
{
    reveal_strlit("language");
    reveal_strlit("framework");
    reveal_strlit("library");
    reveal_strlit("tool");
    reveal_strlit("platform");
    reveal_strlit("database");
    reveal_strlit("model");
    reveal_strlit("service");
    reveal_strlit("technique");
    reveal_strlit("method");
    reveal_strlit("algorithm");
    reveal_strlit("algorithms");
    let v = text::str_views(PROJECT_KINDS@);
    let w = text::str_views(METHOD_KINDS@);
    assert(v[0] == "language"@ && v[1] == "framework"@ && v[2] == "library"@ && v[3] == "tool"@);
    assert(v[4] == "platform"@ && v[5] == "database"@ && v[6] == "model"@ && v[7] == "service"@);
    assert(w[0] == "technique"@ && w[1] == "method"@);
    assert("technique"@[0] == 't' && "method"@[0] == 'm' && "method"@.len() == 6);
    assert("framework"@[0] == 'f' && "model"@.len() == 5 && "algorithm"@[0] == 'a'
        && "algorithms"@[0] == 'a');
    assert("language"@.len() == 8 && "library"@.len() == 7 && "tool"@.len() == 4
        && "platform"@.len() == 8 && "database"@.len() == 8 && "service"@.len() == 7
        && "framework"@.len() == 9 && "technique"@.len() == 9);
    assert("language"@[0] == 'l' && "library"@[0] == 'l' && "tool"@[0] == 't' && "platform"@[0]
        == 'p' && "database"@[0] == 'd' && "model"@[0] == 'm' && "service"@[0] == 's');
    let k = unicode::lowercase(text::trimmed(kind));
    assert forall|x: Seq<char>| v.contains(x) implies !w.contains(x) && x != "algorithm"@ && x
        != "algorithms"@ by {
        let i = choose|i: int| 0 <= i < v.len() && v[i] == x;
        assert(i == 0 || i == 1 || i == 2 || i == 3 || i == 4 || i == 5 || i == 6 || i == 7);
        if w.contains(x) {
            let j = choose|j: int| 0 <= j < w.len() && w[j] == x;
            assert(j == 0 || j == 1);
        }
    }
    assert forall|x: Seq<char>| w.contains(x) implies x != "algorithm"@ && x != "algorithms"@ by {
        let j = choose|j: int| 0 <= j < w.len() && w[j] == x;
        assert(j == 0 || j == 1);
    }
}

/// Every item of a radar as it was told has a known ring and quadrant and a kind that the radar
/// shows, and none is told that the language model did not name: its name is that of an item of
/// the reply without white space round it, and its ring the normal one of such an item.
pub proof fn radars_hold_what_was_told(items: Seq<Tech>, mode: RadarMode)
    ensures
        forall|i: int|
            0 <= i < radar_items(items, mode).len() ==> {
                let b = #[trigger] radar_items(items, mode)[i];
                &&& mode.shows(b.kind)
                &&& text::str_views(RINGS@).contains(b.ring)
                &&& text::str_views(QUADRANTS@).contains(b.quadrant)
                &&& exists|j: int|
                    0 <= j < items.len() && b.name == text::trimmed((#[trigger] items[j]).name)
                &&& exists|j: int|
                    0 <= j < items.len() && b.ring == normal(#[trigger] items[j]).ring && b.quadrant
                        == normal(items[j]).quadrant && b.description == items[j].description
            },
{
    let all = items.map_values(|b: Tech| normal(b));
    let d = deduplicated(all);
    let r = radar_items(items, mode);
    merging_invents_nothing(all);
    shown_items_fit(d, mode);
    items_that_belong_are_shown(d, mode);
    let p = |b: Tech| belongs(b, mode);
    let f = d.filter(p);
    d.filter_lemma(p);
    assert forall|i: int| 0 <= i < r.len() implies {
        let b = #[trigger] r[i];
        &&& mode.shows(b.kind)
        &&& text::str_views(RINGS@).contains(b.ring)
        &&& text::str_views(QUADRANTS@).contains(b.quadrant)
        &&& exists|j: int|
            0 <= j < items.len() && b.name == text::trimmed((#[trigger] items[j]).name)
        &&& exists|j: int|
            0 <= j < items.len() && b.ring == normal(#[trigger] items[j]).ring && b.quadrant
                == normal(items[j]).quadrant && b.description == items[j].description
    } by {
        let b = r[i];
        let e = f[i];
        assert(f.contains(e));
        d.lemma_filter_contains_rev(p, e);
        let k = choose|k: int| 0 <= k < d.len() && d[k] == e;
        assert(is_named_as_one(d[k], all) && is_told_as_one(d[k], all));
        let j = choose|j: int|
            0 <= j < all.len() && (#[trigger] all[j]).name == e.name && all[j].canonical_name
                == e.canonical_name;
        let m = choose|m: int|
            0 <= m < all.len() && e == (Tech {
                name: e.name,
                canonical_name: e.canonical_name,
                ..#[trigger] all[m]
            });
        assert(all[j] == normal(items[j]) && all[m] == normal(items[m]));
        normal_items_are_regular(items[m]);
        assert(b.name == text::trimmed(items[j].name));
        assert(b.ring == normal(items[m]).ring);
    }
}

/// A review loses nothing: where none of the items that were there and of those that it adds are
/// the same technology, the items that were there are followed by the added ones, each in its
/// normal form and with a kind; what does not belong on the radar is not added.
pub proof fn reviews_add_behind_what_is_there(items: Seq<Tech>, more: Seq<Tech>, mode: RadarMode)
    requires
        forall|i: int| 0 <= i < items.len() ==> mode.shows((#[trigger] items[i]).kind),
        mode == RadarMode::Project,
        ({
            let all = items + shown_items(more.map_values(|b: Tech| normal(b)), mode);
            forall|i: int, j: int|
                0 <= i < j < all.len() ==> !is_same(#[trigger] all[j], #[trigger] all[i])
        }),
    ensures
        augmented(items, more, mode).take(items.len() as int) == items,
        augmented(items, more, mode).len() == items.len() + more.filter(
            |b: Tech| belongs(normal(b), mode),
        ).len(),
{
    let new_items = more.map_values(|b: Tech| normal(b));
    let added = shown_items(new_items, mode);
    let all = items + added;
    distinct_items_are_kept(all);
    shown_items_fit(new_items, mode);
    assert forall|i: int| 0 <= i < all.len() implies mode.shows((#[trigger] all[i]).kind) by {
        if i >= items.len() {
            assert(all[i] == added[i - items.len()]);
        } else {
            assert(all[i] == items[i]);
        }
    }
    lemma_all_shown(all, mode);
    assert(all.take(items.len() as int) =~= items);
    items_that_belong_are_shown(new_items, mode);
    lemma_filter_of_normal(more, mode);
}

/// Where all items are of kinds that the radar shows, all are shown as they are.
proof fn lemma_all_shown(items: Seq<Tech>, mode: RadarMode)
    requires
        forall|i: int| 0 <= i < items.len() ==> mode.shows((#[trigger] items[i]).kind),
        mode == RadarMode::Project,
    ensures
        shown_items(items, mode) == items,
    decreases items.len(),
{
    if items.len() > 0 {
        let a = items.drop_last();
        assert forall|i: int| 0 <= i < a.len() implies mode.shows((#[trigger] a[i]).kind) by {
            assert(mode.shows(items[i].kind));
        }
        lemma_all_shown(a, mode);
        assert(mode.shows(items[items.len() - 1].kind));
        lemma_kinds_are_named(mode, items.last().kind);
        assert(for_mode(items.last(), mode) =~~= Some(items.last()));
        assert(a.push(items.last()) =~= items);
    }
}

/// Counting items by their normal forms.
proof fn lemma_filter_of_normal(more: Seq<Tech>, mode: RadarMode)
    ensures
        more.map_values(|b: Tech| normal(b)).filter(|b: Tech| belongs(b, mode)).len()
            == more.filter(|b: Tech| belongs(normal(b), mode)).len(),
    decreases more.len(),
{
    reveal(Seq::filter);
    if more.len() > 0 {
        lemma_filter_of_normal(more.drop_last(), mode);
        let f = |b: Tech| normal(b);
        assert(more.map_values(f).drop_last() =~= more.drop_last().map_values(f));
    }
}

/// Of an item that is not open source nothing is changed by a search for repositories, and
/// neither of one for which nothing was found.
pub proof fn what_is_not_found_stays(b: Tech, l: ActivityLookup, now: Timestamp)
    ensures
        !b.is_open_source || b.name.len() == 0 ==> after_lookup(b, l, now) == b,
        l is Nothing || l is RateLimited ==> after_lookup(b, l, now) == b,
        l matches ActivityLookup::Found(repos) ==> (repos@.len() == 0 ==> after_lookup(b, l, now)
            == b),
{
}

/// An item takes the name and the idle days of one of the repositories that were found: where one
/// has a name that overlaps with its own, of such a one, and of those of the one that lies idle the
/// least; only names in letters and digits are compared.
pub proof fn the_nearest_repository_is_taken(b: Tech, repos: Vec<RepoInfo>, now: Timestamp, i: int)
    requires
        b.is_open_source && b.name.len() > 0,
        0 <= i < repos@.len(),
        forall|j: int|
            0 <= j < repos@.len() ==> (time::utc_time((#[trigger] repos@[j]).pushed_at@) matches Some(t)
                && time::days_from(now, t) matches Some(d) && 0 <= d),
    ensures
        exists|k: int|
            {
                let key = unicode::lowered_alphanumerics(b.name);
                let mine = unicode::lowered_alphanumerics((#[trigger] repos@[k]).name@);
                let its = unicode::lowered_alphanumerics(repos@[i].name@);
                let near = text::holds(mine, key) || text::holds(key, mine);
                let other = text::holds(its, key) || text::holds(key, its);
                let r = after_lookup(b, ActivityLookup::Found(repos), now);
                &&& 0 <= k < repos@.len()
                &&& r.github_repo == repos@[k].full_name@
                &&& r.github_days == time::days_from(now, time::utc_time(repos@[k].pushed_at@)->0)
                &&& other ==> near
                &&& near == other ==> r.github_days->0 <= time::days_from(
                    now,
                    time::utc_time(repos@[i].pushed_at@)->0,
                )->0
            },
{
    let key = unicode::lowered_alphanumerics(b.name);
    let scores = misfits(repos@, key, now);
    best_fit_is_first_and_least(scores);
    let k = best_of(scores);
    assert(time::utc_time(repos@[k].pushed_at@) is Some);
    assert(time::utc_time(repos@[i].pushed_at@) is Some);
    assert(!fits_better(scores[i], scores[k]));
    assert(idle_days(repos@[k], now) is Some);
    let r = after_lookup(b, ActivityLookup::Found(repos), now);
    assert(r.github_repo == repos@[k].full_name@);
}

/// Idle time changes the ring and the reasons alone: the reasons go on from what they were, and
/// stay as they are for a repository that was worked on in the last 180 days.
pub proof fn idle_time_adds_to_the_reasons(b: Tech, repo: Seq<char>, days: i64)
    ensures
        ({
            let r = adjusted(b, repo, days);
            &&& r == Tech {
                ring: r.ring,
                rationale: r.rationale,
                github_repo: repo,
                github_days: Some(days),
                ..b
            }
            &&& text::begins(r.rationale, b.rationale)
            &&& days <= 180 ==> r.rationale == b.rationale
            &&& days > 180 ==> r.rationale.len() > b.rationale.len() && text::holds(
                r.rationale.skip(b.rationale.len() as int),
                number::signed_decimal(days as int),
            ) && text::holds(
                r.rationale.skip(b.rationale.len() as int),
                unicode::uppercase(b.ring),
            )
        }),
{
    broadcast use {text::holds_in_front, text::holds_at_end};

    let r = adjusted(b, repo, days);
    if days > 180 {
        let very = days > 365;
        let a = "\n⚠️ GitHub 最後更新 "@;
        let d = number::signed_decimal(days as int);
        let m = if very {
            " 天前，活躍度極低，從 "@
        } else {
            " 天前，活躍度偏低，從 "@
        };
        let u = unicode::uppercase(b.ring);
        let w = idle_warning(days as int, b.ring, very);
        assert(r.rationale == b.rationale + w);
        assert(r.rationale.skip(b.rationale.len() as int) =~= w);
        assert(r.rationale.take(b.rationale.len() as int) =~= b.rationale);
        assert(text::holds(w, d) && text::holds(w, u));
        reveal_strlit("\n⚠️ GitHub 最後更新 ");
    } else {
        assert(r.rationale.take(b.rationale.len() as int) =~= b.rationale);
    }
}

/// The language model is shown the source, the title and the summary of each of the first ten
/// signals.
pub proof fn ten_signals_are_shown(signals: Seq<RadarSignal>, i: int)
    requires
        0 <= i < signals.len(),
        i < 10,
    ensures
        text::holds(signal_lines(signals), signals[i].source@),
        text::holds(signal_lines(signals), signals[i].title@),
        text::holds(signal_lines(signals), signals[i].summary@),
        forall|more: Seq<RadarSignal>|
            signals.len() == 10 ==> #[trigger] signal_lines(signals + more) == signal_lines(signals),
{
    broadcast use {text::holds_in_front, text::holds_at_end};

    let f = |s: RadarSignal| signal_line(s);
    let lines = order::cut(signals, 10).map_values(f);
    let s = signals[i];
    assert(lines[i] == signal_line(s));
    text::joined_holds_each(lines, "\n"@, i);
    let line = signal_line(s);
    assert(text::holds(line, s.source@) && text::holds(line, s.title@) && text::holds(line, s.summary@));
    text::holds_within(signal_lines(signals), line, s.source@);
    text::holds_within(signal_lines(signals), line, s.title@);
    text::holds_within(signal_lines(signals), line, s.summary@);
    if signals.len() == 10 {
        assert forall|more: Seq<RadarSignal>| #[trigger] signal_lines(signals + more)
            == signal_lines(signals) by {
            assert(order::cut(signals + more, 10) =~= order::cut(signals, 10));
        }
    }
}

/// The language model is shown the name, the kind, the quadrant's name and the ring of each item
/// that it reviews.
pub proof fn all_items_are_reviewed(items: Seq<Tech>, names: Seq<(String, String)>, i: int)
    requires
        0 <= i < items.len(),
    ensures
        ({
            let all = text::joined(items.map_values(|b: Tech| review_line(b, names)), "\n"@);
            let b = items[i];
            &&& text::holds(all, b.name)
            &&& text::holds(all, b.kind)
            &&& text::holds(all, b.ring)
            &&& text::holds(all, quadrant_name(names, b.quadrant))
            &&& b.is_open_source ==> text::holds(all, "開源"@)
            &&& !b.is_open_source ==> text::holds(all, "閉源"@)
        }),
{
    broadcast use {text::holds_in_front, text::holds_at_end};

    let lines = items.map_values(|b: Tech| review_line(b, names));
    let b = items[i];
    let all = text::joined(lines, "\n"@);
    let line = review_line(b, names);
    assert(lines[i] == line);
    text::joined_holds_each(lines, "\n"@, i);
    let kind = if b.kind.len() == 0 {
        "unknown"@
    } else {
        b.kind
    };
    let q = quadrant_name(names, b.quadrant);
    let source = if b.is_open_source {
        "開源"@
    } else {
        "閉源"@
    };
    assert(text::holds(line, b.name) && text::holds(line, kind) && text::holds(line, q));
    assert(text::holds(line, b.ring) && text::holds(line, source));
    text::holds_within(all, line, b.name);
    text::holds_within(all, line, kind);
    text::holds_within(all, line, q);
    text::holds_within(all, line, b.ring);
    text::holds_within(all, line, source);
    if b.kind.len() == 0 {
        assert(b.kind =~= Seq::empty());
        text::holds_nothing(all);
    }
}

/// The names that one technology goes by have one key, so that they are merged.
pub proof fn names_of_one_technology_are_merged()
    ensures
        usual_key("k8s"@) == usual_key("kubernetes"@),
        usual_key("postgresql"@) == usual_key("postgres"@),
        usual_key("postgre"@) == usual_key("postgres"@),
        usual_key("golang"@) == usual_key("go"@),
        usual_key("dotnet"@) == usual_key("net"@),
        usual_key("dotnetcore"@) == usual_key("net"@),
        usual_key("mssql"@) == usual_key("sqlserver"@),
{
    lemma_aliases_differ();
}

/// Whether a key is one that has a more usual form.
pub open spec fn is_alias(key: Seq<char>) -> bool {
    key == "k8s"@ || key == "postgresql"@ || key == "postgre"@ || key == "golang"@ || key
        == "dotnet"@ || key == "dotnetcore"@ || key == "mssql"@
}

/// The usual forms are no aliases, and aliases are told apart.
proof fn lemma_aliases_differ()
    ensures
        !is_alias("kubernetes"@) && !is_alias("postgres"@) && !is_alias("go"@) && !is_alias("net"@)
            && !is_alias("sqlserver"@),
        "k8s"@.len() == 3 && "postgresql"@.len() == 10 && "postgre"@.len() == 7 && "golang"@.len()
            == 6 && "dotnet"@.len() == 6 && "dotnetcore"@.len() == 10 && "mssql"@.len() == 5,
        "golang"@ != "dotnet"@ && "postgresql"@ != "dotnetcore"@,
{
    reveal_strlit("k8s");
    reveal_strlit("kubernetes");
    reveal_strlit("postgresql");
    reveal_strlit("postgre");
    reveal_strlit("postgres");
    reveal_strlit("golang");
    reveal_strlit("go");
    reveal_strlit("dotnet");
    reveal_strlit("dotnetcore");
    reveal_strlit("net");
    reveal_strlit("mssql");
    reveal_strlit("sqlserver");
    assert("kubernetes"@.len() == 10 && "postgres"@.len() == 8 && "go"@.len() == 2 && "net"@.len()
        == 3 && "sqlserver"@.len() == 9);
    assert("k8s"@.len() == 3 && "postgresql"@.len() == 10 && "postgre"@.len() == 7
        && "golang"@.len() == 6 && "dotnet"@.len() == 6 && "dotnetcore"@.len() == 10
        && "mssql"@.len() == 5);
    assert("net"@[0] != "k8s"@[0]);
    assert("kubernetes"@[0] != "postgresql"@[0]);
    assert("kubernetes"@[0] != "dotnetcore"@[0]);
    assert("golang"@[0] != "dotnet"@[0]);
    assert("postgresql"@[0] != "dotnetcore"@[0]);
}

/// Every other name has its own letters and digits for a key, so that items whose names differ in
/// them are told apart.
pub proof fn other_names_are_told_apart(a: Seq<char>, b: Seq<char>)
    requires
        !is_alias(unicode::lowercase(unicode::alphanumerics(a))),
        !is_alias(unicode::lowercase(unicode::alphanumerics(b))),
    ensures
        canonical(a) == unicode::lowercase(unicode::alphanumerics(a)),
        canonical(a) == canonical(b) <==> unicode::lowercase(unicode::alphanumerics(a))
            == unicode::lowercase(unicode::alphanumerics(b)),
{
}

/// The pieces of a name between spaces, dots, hyphens and underscores.
pub open spec fn name_pieces(name: Seq<char>) -> Seq<Seq<char>> {
    text::split(name, seq![' ', '.', '-', '_'])
}

/// Every word of a name between spaces, dots, hyphens and underscores counts in lowercase and in
/// its usual form, unless it is one of the words that do not; and no other word counts.
pub proof fn names_are_read_by_words(name: Seq<char>, w: Seq<char>)
    ensures
        name_words(name).contains(w) <==> exists|i: int|
            0 <= i < name_pieces(name).len() && {
                let p = unicode::lowercase(#[trigger] name_pieces(name)[i]);
                p.len() > 0 && p != "&"@ && p != "and"@ && p != "the"@ && p != "by"@ && p != "for"@
                    && w == usual_key(p)
            },
{
    let seps = seq![' ', '.', '-', '_'];
    assert(NAME_SEPARATORS@ =~= seps);
    let pieces = name_pieces(name);
    let low = |w: Seq<char>| unicode::lowercase(w);
    let p = |w: Seq<char>| counts(w);
    let usual = |w: Seq<char>| usual_key(w);
    let all = pieces.map_values(low);
    let f = all.filter(p);
    let ws = f.map_values(usual);
    assert(name_words(name) == ws);
    let stop = text::str_views(STOPWORDS@);
    assert(stop[0] == "&"@ && stop[1] == "and"@ && stop[2] == "the"@ && stop[3] == "by"@ && stop[4]
        == "for"@);
    assert forall|x: Seq<char>| counts(x) <==> x.len() > 0 && x != "&"@ && x != "and"@ && x != "the"@
        && x != "by"@ && x != "for"@ by {
        if stop.contains(x) {
            let k = choose|k: int| 0 <= k < stop.len() && stop[k] == x;
            assert(k == 0 || k == 1 || k == 2 || k == 3 || k == 4);
        }
    }
    if ws.contains(w) {
        let k = choose|k: int| 0 <= k < ws.len() && ws[k] == w;
        assert(f.contains(f[k]));
        lists::filter_holds(all, p, f[k]);
        let i = choose|i: int| 0 <= i < all.len() && all[i] == f[k];
        assert(unicode::lowercase(pieces[i]) == f[k]);
    }
    if exists|i: int|
        0 <= i < pieces.len() && {
            let p = unicode::lowercase(#[trigger] pieces[i]);
            p.len() > 0 && p != "&"@ && p != "and"@ && p != "the"@ && p != "by"@ && p != "for"@ && w
                == usual_key(p)
        } {
        let i = choose|i: int|
            0 <= i < pieces.len() && {
                let p = unicode::lowercase(#[trigger] pieces[i]);
                p.len() > 0 && p != "&"@ && p != "and"@ && p != "the"@ && p != "by"@ && p != "for"@
                    && w == usual_key(p)
            };
        assert(all[i] == unicode::lowercase(pieces[i]));
        assert(all.contains(all[i]));
        lists::filter_holds(all, p, all[i]);
        let k = choose|k: int| 0 <= k < f.len() && f[k] == all[i];
        assert(ws[k] == w);
    }
}

/// One search that was refused is enough for none to be applied, wherever it stands.
pub proof fn one_refusal_is_enough(lookups: Seq<ActivityLookup>, i: int)
    requires
        0 <= i < lookups.len(),
    ensures
        lookups[i] is RateLimited ==> any_refused(lookups),
        (forall|j: int| 0 <= j < lookups.len() ==> !((#[trigger] lookups[j]) is RateLimited))
            ==> !any_refused(lookups),
{
}

/// A signal tells its project's title, source and address, and what is said of it.
pub proof fn signals_tell_of_their_projects(s: RadarSignal, n: NewsItem)
    requires
        is_signal_of(s, n),
    ensures
        s.title@ == n.title@,
        s.source@ == n.source@,
        s.url@ == n.url@,
        s.summary@ == n.description@,
{
}

/// Items are normal before they are merged: two that differ in case and white space alone, in ring
/// or in quadrant, are one item of a radar.
pub proof fn radars_name_a_technology_once(a: Tech, b: Tech, mode: RadarMode)
    requires
        text::trimmed(a.name) == text::trimmed(b.name),
        text::trimmed(a.canonical_name).len() == 0,
        text::trimmed(b.canonical_name).len() == 0,
    ensures
        radar_items(seq![a, b], mode).len() <= 1,
{
    let f = |b: Tech| normal(b);
    let s = seq![a, b].map_values(f);
    assert(s =~= seq![normal(a), normal(b)]);
    assert(normal(a).canonical_name == normal(b).canonical_name);
    assert(item_key(normal(a)) == item_key(normal(b)));
    equal_keys_leave_one_item(normal(b), normal(a));
    items_that_belong_are_shown(deduplicated(s), mode);
    lists::filter_is_no_longer(deduplicated(s), |b: Tech| belongs(b, mode));
}

/// A repository of known age fits better than one of unknown age whose name overlaps alike, and one
/// whose name overlaps fits better than one whose name does not, whatever their ages are.
pub proof fn names_and_known_ages_fit_better(
    d: Option<i64>,
    e: Option<i64>,
    near: Seq<char>,
    far: Seq<char>,
    key: Seq<char>,
)
    requires
        text::holds(near, key) || text::holds(key, near),
        !text::holds(far, key),
        !text::holds(key, far),
    ensures
        fits_better(misfit(d, near, key), misfit(e, far, key)),
        d matches Some(n) && n >= 0 ==> fits_better(misfit(d, near, key), misfit(None, near, key)),
        d matches Some(n) && e matches Some(m) && 0 <= n < m ==> fits_better(
            misfit(d, far, key),
            misfit(e, far, key),
        ),
{
}

} // verus!
