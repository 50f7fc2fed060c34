//! Regular expressions.
use vstd::prelude::*;
use crate::text;

verus! {

/// An opening brace up to the last closing brace, with something between them.
pub const BRACED: &'static str = r"(?s)\{.+\}";

/// A markup tag.
pub const TAG: &'static str = r"<[^>]+>";

/// A run of white space.
pub const SPACES: &'static str = r"\s+";

/// A run of two or more spaces and tabs.
pub const BLANKS: &'static str = r"[ \t]{2,}";

/// A run of three or more line feeds.
pub const BLANK_LINES: &'static str = r"\n{3,}";

/// The title element of a page.
pub const TITLE: &'static str = r"(?si)<title[^>]*>(.*?)</title>";

/// The target of a link.
pub const HREF: &'static str = "(?i)href=[\"']([^\"']+)[\"']";

/// Elements of a page that hold no readable text.
pub const NOISE: &'static str = r"(?si)<(?:script|style|noscript|nav|header|footer|aside)[^>]*>.*?</(?:script|style|noscript|nav|header|footer|aside)>";

/// Tags that begin or end a block of text.
pub const BLOCK: &'static str = r"(?i)</?(?:p|div|section|article|main|h[1-6]|li|td|th|br)[^>]*>";

/// A search result: its target and its title.
pub const RESULT_LINK: &'static str = "(?is)<a[^>]+class=\"[^\"]*result__a[^\"]*\"[^>]+href=\"([^\"]+)\"[^>]*>(.*?)</a>";

/// A date with hyphens.
pub const HYPHEN_DATE: &'static str = r"\b(20\d{2}-\d{2}-\d{2})\b";

/// A date with slashes.
pub const SLASH_DATE: &'static str = r"\b(20\d{2}/\d{2}/\d{2})\b";

/// A repository on GitHub.
pub const GITHUB_REPO: &'static str = r"https://github\.com/([\w\-]+/[\w\-\.]+)";

/// A version at the end of a paper's number.
pub const VERSION_SUFFIX: &'static str = r"v\d+$";

/// The patterns of this library; every one of them compiles.
pub open spec fn is_pattern(p: Seq<char>) -> bool {
    ||| p == BRACED@
    ||| p == TAG@
    ||| p == SPACES@
    ||| p == BLANKS@
    ||| p == BLANK_LINES@
    ||| p == TITLE@
    ||| p == HREF@
    ||| p == NOISE@
    ||| p == BLOCK@
    ||| p == RESULT_LINK@
    ||| p == HYPHEN_DATE@
    ||| p == SLASH_DATE@
    ||| p == GITHUB_REPO@
    ||| p == VERSION_SUFFIX@
}

/// The leftmost match of a pattern in a text, as `Regex::find` gives it.
pub uninterp spec fn first_match(pattern: Seq<char>, text: Seq<char>) -> Option<Seq<char>>;

/// The groups of the leftmost match, as `Regex::captures` gives them; a group that takes no
/// part is empty.
pub uninterp spec fn first_groups(pattern: Seq<char>, text: Seq<char>) -> Option<Seq<Seq<char>>>;

/// The groups of all matches, one after another, as `Regex::captures_iter` gives them.
pub uninterp spec fn all_groups(pattern: Seq<char>, text: Seq<char>) -> Seq<Seq<Seq<char>>>;

/// The text with all matches replaced, as `Regex::replace_all` gives it.
pub uninterp spec fn all_replaced(pattern: Seq<char>, text: Seq<char>, by: Seq<char>) -> Seq<char>;

/// The text with the leftmost match replaced, as `Regex::replace` gives it.
pub uninterp spec fn first_replaced(pattern: Seq<char>, text: Seq<char>, by: Seq<char>) -> Seq<char>;

/// `Regex::find`: a function of the pattern and the text alone.
#[verifier::external_body]
pub(crate) fn find(pattern: &str, text: &str) -> (r: Option<String>)
    requires
        is_pattern(pattern@),
    ensures
        text::opt(r) == first_match(pattern@, text@),
{
    regex::Regex::new(pattern).unwrap().find(text).map(|m| m.as_str().to_string())
}

/// The views of an optional list of strings.
pub open spec fn opt_views(v: Option<Vec<String>>) -> Option<Seq<Seq<char>>> {
    match v {
        Some(x) => Some(text::views(x@)),
        None => None,
    }
}

/// The views of lists of strings.
pub open spec fn list_views(v: Seq<Vec<String>>) -> Seq<Seq<Seq<char>>> {
    v.map_values(|x: Vec<String>| text::views(x@))
}

/// `Regex::captures`: a function of the pattern and the text alone. The groups behind the
/// whole match are handed on, each as its text.
#[verifier::external_body]
pub(crate) fn captures(pattern: &str, text: &str) -> (r: Option<Vec<String>>)
    requires
        is_pattern(pattern@),
    ensures
        opt_views(r) == first_groups(pattern@, text@),
{
    regex::Regex::new(pattern).unwrap().captures(text).map(
        |c| c.iter().skip(1).map(|g| g.map_or("", |m| m.as_str()).to_string()).collect(),
    )
}

/// `Regex::captures_iter`: a function of the pattern and the text alone. Of each match the
/// groups behind the whole match are handed on, each as its text.
#[verifier::external_body]
pub(crate) fn captures_all(pattern: &str, text: &str) -> (r: Vec<Vec<String>>)
    requires
        is_pattern(pattern@),
    ensures
        list_views(r@) == all_groups(pattern@, text@),
{
    regex::Regex::new(pattern).unwrap().captures_iter(text).map(
        |c| c.iter().skip(1).map(|g| g.map_or("", |m| m.as_str()).to_string()).collect(),
    ).collect()
}

/// `Regex::replace_all`: a function of the pattern, the text and the replacement alone.
#[verifier::external_body]
pub(crate) fn replace_all(pattern: &str, text: &str, by: &str) -> (r: String)
    requires
        is_pattern(pattern@),
    ensures
        r@ == all_replaced(pattern@, text@, by@),
{
    regex::Regex::new(pattern).unwrap().replace_all(text, by).into_owned()
}

/// `Regex::replace`: a function of the pattern, the text and the replacement alone.
#[verifier::external_body]
pub(crate) fn replace_first(pattern: &str, text: &str, by: &str) -> (r: String)
    requires
        is_pattern(pattern@),
    ensures
        r@ == first_replaced(pattern@, text@, by@),
{
    regex::Regex::new(pattern).unwrap().replace(text, by).into_owned()
}

/// The group at an index, or nothing where there is none.
pub open spec fn group(groups: Seq<Seq<char>>, i: int) -> Seq<char> {
    if 0 <= i < groups.len() {
        groups[i]
    } else {
        Seq::empty()
    }
}

/// The group at an index, or nothing where there is none.
pub fn group_at(groups: &Vec<String>, i: usize) -> (r: String)
    ensures
        r@ == group(text::views(groups@), i as int),
{
    if i < groups.len() {
        groups[i].clone()
    } else {
        String::new()
    }
}

/// The first group of each match, in order.
pub fn first_group_of_all(pattern: &str, text: &str) -> (r: Vec<String>)
    requires
        is_pattern(pattern@),
    ensures
        text::views(r@) == all_groups(pattern@, text@).map_values(
            |g: Seq<Seq<char>>| group(g, 0),
        ),
{
    let groups = captures_all(pattern, text);
    let ghost all = list_views(groups@);
    let ghost f = |g: Seq<Seq<char>>| group(g, 0);
    let mut r: Vec<String> = Vec::new();
    let mut i: usize = 0;
    while i < groups.len()
        invariant
            i <= groups@.len(),
            all == list_views(groups@),
            f == (|g: Seq<Seq<char>>| group(g, 0)),
            text::views(r@) == all.take(i as int).map_values(f),
        decreases groups.len() - i,
    {
        broadcast use text::views_push;

        assert(all.take(i + 1).map_values(f) =~= all.take(i as int).map_values(f).push(
            f(all[i as int]),
        ));
        r.push(group_at(&groups[i], 0));
        i += 1;
    }
    assert(all.take(all.len() as int) =~= all);
    r
}

} // verus!
