//! Pages of documentation.
use vstd::prelude::*;
use crate::lists;
use crate::order;
use crate::pattern;
use crate::percent;
use crate::text;
use crate::unicode;

verus! {

/// A page.
pub struct DocPage {
    pub url: String,
    pub title: String,
    /// The text, of at most 6000 characters.
    pub text: String,
    /// At most 30 links to other pages of the site.
    pub nav_links: Vec<String>,
}

/// A text with the common HTML entities resolved, one kind after another.
pub open spec fn entities_resolved(s: Seq<char>) -> Seq<char> {
    let a = text::replaced(s, "&amp;"@, "&"@);
    let b = text::replaced(a, "&lt;"@, "<"@);
    let c = text::replaced(b, "&gt;"@, ">"@);
    let d = text::replaced(c, "&quot;"@, "\""@);
    let e = text::replaced(d, "&apos;"@, "'"@);
    let f = text::replaced(e, "&#39;"@, "'"@);
    let g = text::replaced(f, "&nbsp;"@, " "@);
    let h = text::replaced(g, "&mdash;"@, "—"@);
    let i = text::replaced(h, "&ndash;"@, "–"@);
    text::replaced(i, "&hellip;"@, "…"@)
}

/// Resolves the common HTML entities.
pub fn decode_entities(s: &str) -> (r: String)
    ensures
        r@ == entities_resolved(s@),
{
    proof {
        reveal_strlit("&amp;");
        reveal_strlit("&lt;");
        reveal_strlit("&gt;");
        reveal_strlit("&quot;");
        reveal_strlit("&apos;");
        reveal_strlit("&#39;");
        reveal_strlit("&nbsp;");
        reveal_strlit("&mdash;");
        reveal_strlit("&ndash;");
        reveal_strlit("&hellip;");
    }
    let a = text::replace(s, "&amp;", "&");
    let b = text::replace(&a, "&lt;", "<");
    let c = text::replace(&b, "&gt;", ">");
    let d = text::replace(&c, "&quot;", "\"");
    let e = text::replace(&d, "&apos;", "'");
    let f = text::replace(&e, "&#39;", "'");
    let g = text::replace(&f, "&nbsp;", " ");
    let h = text::replace(&g, "&mdash;", "—");
    let i = text::replace(&h, "&ndash;", "–");
    text::replace(&i, "&hellip;", "…")
}

/// The title of a page, given the groups of its title element.
pub open spec fn title_of(groups: Option<Seq<Seq<char>>>) -> Seq<char> {
    match groups {
        Some(g) => entities_resolved(
            text::trimmed(pattern::all_replaced(pattern::TAG@, pattern::group(g, 0), ""@)),
        ),
        None => Seq::empty(),
    }
}

/// The title of a page; empty where it has none.
pub fn extract_title(html: &str) -> (r: String)
    ensures
        r@ == title_of(pattern::first_groups(pattern::TITLE@, html@)),
{
    match pattern::captures(pattern::TITLE, html) {
        Some(g) => {
            let raw = pattern::replace_all(pattern::TAG, &pattern::group_at(&g, 0), "");
            decode_entities(&text::trim(&raw))
        },
        None => String::new(),
    }
}

/// An address without its scheme.
pub open spec fn without_scheme(url: Seq<char>) -> Seq<char> {
    text::one_prefix_off(url, seq!["https://"@, "http://"@])
}

/// The scheme and the host of an address.
pub open spec fn origin(url: Seq<char>) -> Seq<char> {
    let rest = without_scheme(url);
    match text::split_at_first(rest, '/') {
        Some(p) => url.take(url.len() - rest.len() + p.0.len()),
        None => url,
    }
}

/// The scheme and the host of an address.
pub fn url_origin(url: &str) -> (r: String)
    ensures
        r@ == origin(url@),
{
    let schemes = ["https://", "http://"];
    let rest = text::strip_one_prefix(url, &schemes);
    proof {
        assert(text::str_views(schemes@) =~= seq!["https://"@, "http://"@]);
        lemma_prefix_off_is_suffix(url@, text::str_views(schemes@));
    }
    let v = text::chars_of(url);
    let rest_len = rest.unicode_len();
    match text::split_once(&rest, '/') {
        Some(p) => {
            proof {
                text::sep_from_bounds(rest@, seq!['/'], 0);
            }
            let n = v.len() - rest_len + p.0.unicode_len();
            let r = text::string_of(&v, 0, n);
            assert(r@ =~= url@.take(n as int));
            r
        },
        None => url.to_owned(),
    }
}

/// What is left behind a prefix is no longer than the text.
proof fn lemma_prefix_off_is_suffix(s: Seq<char>, prefixes: Seq<Seq<char>>)
    ensures
        text::one_prefix_off(s, prefixes).len() <= s.len(),
    decreases prefixes.len(),
{
    if prefixes.len() > 0 {
        lemma_prefix_off_is_suffix(s, prefixes.skip(1));
    }
}

/// The endings of files that are no pages.
pub const ASSET_EXTS: [&'static str; 11] = [
    ".png",
    ".jpg",
    ".jpeg",
    ".svg",
    ".gif",
    ".webp",
    ".css",
    ".js",
    ".ico",
    ".woff",
    ".ttf",
];

/// Whether a text ends with one of some endings.
pub open spec fn ends_with_any(s: Seq<char>, endings: Seq<Seq<char>>) -> bool {
    exists|i: int| 0 <= i < endings.len() && text::ends(s, #[trigger] endings[i])
}

/// Whether a text ends with one of some endings.
fn has_any_ending(s: &str, endings: &[&str]) -> (r: bool)
    ensures
        r == ends_with_any(s@, text::str_views(endings@)),
{
    let ghost all = text::str_views(endings@);
    let mut i: usize = 0;
    while i < endings.len()
        invariant
            i <= endings@.len(),
            all == text::str_views(endings@),
            forall|j: int| 0 <= j < i ==> !text::ends(s@, #[trigger] all[j]),
        decreases endings.len() - i,
    {
        if text::ends_with(s, endings[i]) {
            assert(text::ends(s@, all[i as int]));
            return true;
        }
        i += 1;
    }
    false
}

/// Whether a link leads to another page of the site: it is no anchor, mail address, script or
/// file, and it is relative or has the same origin.
pub open spec fn leads_on(href: Seq<char>, site: Seq<char>) -> bool {
    &&& href.len() > 0
    &&& !text::begins(href, "#"@)
    &&& !text::begins(href, "mailto:"@)
    &&& !text::begins(href, "javascript:"@)
    &&& !ends_with_any(unicode::lowercase(href), text::str_views(ASSET_EXTS@))
    &&& !text::begins(href, "http"@) || text::begins(href, site)
}

/// Whether a link leads to another page of the site.
pub fn is_nav_link(href: &str, site: &str) -> (r: bool)
    ensures
        r == leads_on(href@, site@),
{
    !text::is_empty(href) && !text::starts_with(href, "#") && !text::starts_with(href, "mailto:")
        && !text::starts_with(href, "javascript:") && !has_any_ending(
        &href.to_lowercase(),
        &ASSET_EXTS,
    ) && (!text::starts_with(href, "http") || text::starts_with(href, site))
}

/// The links of a page that lead on, each once, in order, at most 30.
pub open spec fn nav_links(hrefs: Seq<Seq<char>>, site: Seq<char>) -> Seq<Seq<char>>
    decreases hrefs.len(),
{
    if hrefs.len() == 0 {
        Seq::empty()
    } else {
        let r = nav_links(hrefs.drop_last(), site);
        let href = text::trimmed(hrefs.last());
        if r.len() < 30 && leads_on(href, site) && !r.contains(href) {
            r.push(href)
        } else {
            r
        }
    }
}

/// Picks the links of a page that lead on.
pub fn pick_nav_links(hrefs: &Vec<String>, page_url: &str) -> (r: Vec<String>)
    ensures
        text::views(r@) == nav_links(text::views(hrefs@), origin(page_url@)),
{
    let site = url_origin(page_url);
    let ghost all = text::views(hrefs@);
    let mut r: Vec<String> = Vec::new();
    let mut i: usize = 0;
    assert(text::views(r@) =~= Seq::empty());
    while i < hrefs.len()
        invariant
            i <= hrefs@.len(),
            all == text::views(hrefs@),
            site@ == origin(page_url@),
            text::views(r@) == nav_links(all.take(i as int), site@),
        decreases hrefs.len() - i,
    {
        broadcast use text::views_push;

        proof {
            assert(all.take(i + 1).drop_last() =~= all.take(i as int));
            assert(all.take(i + 1).last() == hrefs@[i as int]@);
            assert(text::views(r@).len() == r@.len());
        }
        let href = text::trim(&hrefs[i]);
        if r.len() < 30 && is_nav_link(&href, &site) && !text::has_string(&r, &href) {
            r.push(href);
        }
        i += 1;
    }
    proof {
        lists::take_all(all);
    }
    r
}

/// The links of a page as they are written.
pub open spec fn hrefs_in(html: Seq<char>) -> Seq<Seq<char>> {
    pattern::all_groups(pattern::HREF@, html).map_values(
        |g: Seq<Seq<char>>| pattern::group(g, 0),
    )
}

/// The links of a page that lead to other pages of its site.
pub fn extract_nav_links(html: &str, page_url: &str) -> (r: Vec<String>)
    ensures
        text::views(r@) == nav_links(hrefs_in(html@), origin(page_url@)),
{
    let hrefs = pattern::first_group_of_all(pattern::HREF, html);
    pick_nav_links(&hrefs, page_url)
}

/// The links of a page are each there once, lead on, and are at most 30.
pub proof fn nav_links_lead_on(hrefs: Seq<Seq<char>>, site: Seq<char>)
    ensures
        nav_links(hrefs, site).no_duplicates(),
        nav_links(hrefs, site).len() <= 30,
        forall|i: int|
            0 <= i < nav_links(hrefs, site).len() ==> leads_on(
                #[trigger] nav_links(hrefs, site)[i],
                site,
            ),
    decreases hrefs.len(),
{
    if hrefs.len() > 0 {
        nav_links_lead_on(hrefs.drop_last(), site);
        let a = nav_links(hrefs.drop_last(), site);
        let r = nav_links(hrefs, site);
        assert forall|i: int| 0 <= i < r.len() implies leads_on(#[trigger] r[i], site) by {
            if i < a.len() {
                assert(leads_on(a[i], site));
            }
        }
    }
}

/// The text of a page: without scripts, navigation and tags, with a line break for each tag of
/// a block, its entities resolved, and its blanks and blank lines collapsed.
pub open spec fn page_text(html: Seq<char>) -> Seq<char> {
    let a = pattern::all_replaced(pattern::NOISE@, html, "\n"@);
    let b = pattern::all_replaced(pattern::BLOCK@, a, "\n"@);
    let c = entities_resolved(pattern::all_replaced(pattern::TAG@, b, ""@));
    let d = pattern::all_replaced(pattern::BLANKS@, c, " "@);
    text::trimmed(pattern::all_replaced(pattern::BLANK_LINES@, d, "\n\n"@))
}

/// The text of a page.
pub fn clean_text(html: &str) -> (r: String)
    ensures
        r@ == page_text(html@),
{
    let a = pattern::replace_all(pattern::NOISE, html, "\n");
    let b = pattern::replace_all(pattern::BLOCK, &a, "\n");
    let c = decode_entities(&pattern::replace_all(pattern::TAG, &b, ""));
    let d = pattern::replace_all(pattern::BLANKS, &c, " ");
    text::trim(&pattern::replace_all(pattern::BLANK_LINES, &d, "\n\n"))
}

/// How many bytes of a page are read.
pub const MAX_PAGE_BYTES: usize = 300_000;

/// A page from the bytes that were sent for it: at most 300000 bytes are read.
pub fn doc_page(url: &str, bytes: &[u8]) -> (r: DocPage)
    ensures
        ({
            let html = percent::lossy_text(order::cut(bytes@, MAX_PAGE_BYTES as nat));
            &&& r.url@ == url@
            &&& r.title@ == title_of(pattern::first_groups(pattern::TITLE@, html))
            &&& r.text@ == text::shortened(page_text(html), 6000)
            &&& text::views(r.nav_links@) == nav_links(hrefs_in(html), origin(url@))
        }),
        MAX_PAGE_BYTES == 300_000,
        r.text@.len() <= 6000,
        r.nav_links@.len() <= 30,
{
    let n: usize = if bytes.len() <= MAX_PAGE_BYTES {
        bytes.len()
    } else {
        MAX_PAGE_BYTES
    };
    let mut head: Vec<u8> = Vec::new();
    let mut i: usize = 0;
    while i < n
        invariant
            i <= n <= bytes@.len(),
            head@ == bytes@.take(i as int),
        decreases n - i,
    {
        head.push(bytes[i]);
        i += 1;
    }
    assert(head@ =~= order::cut(bytes@, MAX_PAGE_BYTES as nat));
    let html = percent::from_utf8_lossy(&head);
    proof {
        nav_links_lead_on(hrefs_in(html@), origin(url@));
    }
    let links = extract_nav_links(&html, url);
    assert(text::views(links@).len() == links@.len());
    DocPage {
        url: url.to_owned(),
        title: extract_title(&html),
        text: text::take_chars(&clean_text(&html), 6000),
        nav_links: links,
    }
}

// ── Laws ─────────────────────────────────────────────────────────────────────

/// Every link that leads on is among the links of a page, as long as there are fewer than 30, and
/// every link among them was on the page.
pub proof fn links_that_lead_on_are_kept(hrefs: Seq<Seq<char>>, site: Seq<char>)
    ensures
        forall|i: int|
            0 <= i < hrefs.len() && leads_on(text::trimmed(#[trigger] hrefs[i]), site) && nav_links(
                hrefs,
                site,
            ).len() < 30 ==> nav_links(hrefs, site).contains(text::trimmed(hrefs[i])),
        forall|k: int|
            0 <= k < nav_links(hrefs, site).len() ==> exists|i: int|
                0 <= i < hrefs.len() && text::trimmed(#[trigger] hrefs[i]) == #[trigger] nav_links(
                    hrefs,
                    site,
                )[k],
    decreases hrefs.len(),
{
    if hrefs.len() > 0 {
        let a = hrefs.drop_last();
        let n = hrefs.len() - 1;
        let r = nav_links(a, site);
        let s = nav_links(hrefs, site);
        links_that_lead_on_are_kept(a, site);
        assert(hrefs[n] == hrefs.last());
        assert forall|i: int|
            0 <= i < hrefs.len() && leads_on(text::trimmed(#[trigger] hrefs[i]), site) && s.len()
                < 30 implies s.contains(text::trimmed(hrefs[i])) by {
            let h = text::trimmed(hrefs[i]);
            if i < n {
                assert(a[i] == hrefs[i]);
                assert(r.contains(h));
                let m = choose|m: int| 0 <= m < r.len() && r[m] == h;
                assert(s[m] == h);
            } else if r.contains(h) {
                let m = choose|m: int| 0 <= m < r.len() && r[m] == h;
                assert(s[m] == h);
            } else {
                assert(s[r.len() as int] == h);
            }
        }
        assert forall|k: int| 0 <= k < s.len() implies exists|i: int|
            0 <= i < hrefs.len() && text::trimmed(#[trigger] hrefs[i]) == #[trigger] s[k] by {
            if k < r.len() {
                assert(r[k] == s[k]);
                let i = choose|i: int| 0 <= i < a.len() && text::trimmed(#[trigger] a[i]) == r[k];
                assert(hrefs[i] == a[i]);
            } else {
                assert(text::trimmed(hrefs[n]) == s[k]);
            }
        }
    }
}

/// A link leads on where it is relative or begins with the site, and is no anchor, mail address,
/// script or file; one of another site does not.
pub proof fn links_lead_on_within_the_site(href: Seq<char>, site: Seq<char>, i: int)
    requires
        0 <= i < ASSET_EXTS@.len(),
    ensures
        text::begins(href, "#"@) ==> !leads_on(href, site),
        text::begins(href, "mailto:"@) ==> !leads_on(href, site),
        text::begins(href, "javascript:"@) ==> !leads_on(href, site),
        text::begins(href, "http"@) && !text::begins(href, site) ==> !leads_on(href, site),
        text::ends(unicode::lowercase(href), ASSET_EXTS@[i]@) ==> !leads_on(href, site),
        !leads_on(Seq::empty(), site),
        href.len() > 0 && href[0] == '/' && (forall|j: int|
            0 <= j < ASSET_EXTS@.len() ==> !text::ends(
                unicode::lowercase(href),
                (#[trigger] ASSET_EXTS@[j])@,
            )) ==> leads_on(href, site),
{
    let v = text::str_views(ASSET_EXTS@);
    assert(v[i] == ASSET_EXTS@[i]@);
    if text::ends(unicode::lowercase(href), ASSET_EXTS@[i]@) {
        assert(text::ends(unicode::lowercase(href), v[i]));
    }
    if href.len() > 0 && href[0] == '/' && (forall|j: int|
        0 <= j < ASSET_EXTS@.len() ==> !text::ends(
            unicode::lowercase(href),
            (#[trigger] ASSET_EXTS@[j])@,
        )) {
        reveal_strlit("#");
        reveal_strlit("mailto:");
        reveal_strlit("javascript:");
        reveal_strlit("http");
        if text::begins(href, "#"@) {
            assert(href.subrange(0, 1)[0] == '#');
        }
        if text::begins(href, "mailto:"@) {
            assert(href.subrange(0, 7)[0] == 'm');
        }
        if text::begins(href, "javascript:"@) {
            assert(href.subrange(0, 11)[0] == 'j');
        }
        if text::begins(href, "http"@) {
            assert(href.subrange(0, 4)[0] == 'h');
        }
        if ends_with_any(unicode::lowercase(href), v) {
            let j = choose|j: int| 0 <= j < v.len() && text::ends(unicode::lowercase(href), #[trigger] v[j]);
            assert(v[j] == ASSET_EXTS@[j]@);
        }
    }
}

/// The origin of an address is its scheme and its host, whatever path follows.
pub proof fn origins_end_at_the_path(host: Seq<char>, path: Seq<char>)
    requires
        !host.contains('/'),
    ensures
        origin("https://"@ + host + seq!['/'] + path) == "https://"@ + host,
        origin("http://"@ + host + seq!['/'] + path) == "http://"@ + host,
        origin("https://"@ + host) == "https://"@ + host,
{
    let schemes = seq!["https://"@, "http://"@];
    reveal_strlit("https://");
    reveal_strlit("http://");
    let rest = host + seq!['/'] + path;
    let a = "https://"@ + host + seq!['/'] + path;
    let b = "http://"@ + host + seq!['/'] + path;
    let c = "https://"@ + host;
    assert(a.subrange(0, 8) =~= "https://"@);
    assert(a.skip(8) =~= rest);
    assert(c.subrange(0, 8) =~= "https://"@);
    assert(c.skip(8) =~= host);
    assert(b.subrange(0, 7) =~= "http://"@);
    assert(b.skip(7) =~= rest);
    assert(!text::begins(b, "https://"@)) by {
        if text::begins(b, "https://"@) {
            assert(b.subrange(0, 8)[4] == "https://"@[4]);
        }
    }
    assert(schemes.skip(1)[0] == "http://"@);
    reveal_with_fuel(text::one_prefix_off, 3);
    text::split_around(host, '/', path);
    text::no_split(host, '/');
    assert(a.take(8 + host.len() as int) =~= "https://"@ + host);
    assert(b.take(7 + host.len() as int) =~= "http://"@ + host);
}

/// A text without an ampersand has no entities, and stays as it is.
pub proof fn texts_without_entities_stay(s: Seq<char>)
    requires
        !s.contains('&'),
    ensures
        entities_resolved(s) == s,
{
    reveal_strlit("&amp;");
    reveal_strlit("&lt;");
    reveal_strlit("&gt;");
    reveal_strlit("&quot;");
    reveal_strlit("&apos;");
    reveal_strlit("&#39;");
    reveal_strlit("&nbsp;");
    reveal_strlit("&mdash;");
    reveal_strlit("&ndash;");
    reveal_strlit("&hellip;");
    text::absent_marks_are_not_held(s, "&amp;"@, '&');
    text::absent_marks_are_not_held(s, "&lt;"@, '&');
    text::absent_marks_are_not_held(s, "&gt;"@, '&');
    text::absent_marks_are_not_held(s, "&quot;"@, '&');
    text::absent_marks_are_not_held(s, "&apos;"@, '&');
    text::absent_marks_are_not_held(s, "&#39;"@, '&');
    text::absent_marks_are_not_held(s, "&nbsp;"@, '&');
    text::absent_marks_are_not_held(s, "&mdash;"@, '&');
    text::absent_marks_are_not_held(s, "&ndash;"@, '&');
    text::absent_marks_are_not_held(s, "&hellip;"@, '&');
    text::replacing_nothing(s, "&amp;"@, "&"@);
    text::replacing_nothing(s, "&lt;"@, "<"@);
    text::replacing_nothing(s, "&gt;"@, ">"@);
    text::replacing_nothing(s, "&quot;"@, "\""@);
    text::replacing_nothing(s, "&apos;"@, "'"@);
    text::replacing_nothing(s, "&#39;"@, "'"@);
    text::replacing_nothing(s, "&nbsp;"@, " "@);
    text::replacing_nothing(s, "&mdash;"@, "—"@);
    text::replacing_nothing(s, "&ndash;"@, "–"@);
    text::replacing_nothing(s, "&hellip;"@, "…"@);
}

/// The endings of files that are no pages.
pub proof fn files_have_these_endings(s: Seq<char>)
    ensures
        ends_with_any(s, text::str_views(ASSET_EXTS@)) <==> ({
            ||| text::ends(s, ".png"@)
            ||| text::ends(s, ".jpg"@)
            ||| text::ends(s, ".jpeg"@)
            ||| text::ends(s, ".svg"@)
            ||| text::ends(s, ".gif"@)
            ||| text::ends(s, ".webp"@)
            ||| text::ends(s, ".css"@)
            ||| text::ends(s, ".js"@)
            ||| text::ends(s, ".ico"@)
            ||| text::ends(s, ".woff"@)
            ||| text::ends(s, ".ttf"@)
        }),
{
    let v = text::str_views(ASSET_EXTS@);
    assert(v.len() == 11);
    assert(v[0] == ".png"@ && v[1] == ".jpg"@ && v[2] == ".jpeg"@ && v[3] == ".svg"@ && v[4]
        == ".gif"@ && v[5] == ".webp"@ && v[6] == ".css"@ && v[7] == ".js"@ && v[8] == ".ico"@
        && v[9] == ".woff"@ && v[10] == ".ttf"@);
    if ends_with_any(s, v) {
        let i = choose|i: int| 0 <= i < v.len() && text::ends(s, #[trigger] v[i]);
        assert(i == 0 || i == 1 || i == 2 || i == 3 || i == 4 || i == 5 || i == 6 || i == 7 || i == 8
            || i == 9 || i == 10);
    }
}

/// A link that is no anchor, mail address, script or file leads on where it is relative, and where
/// it is an address of the site.
pub proof fn relative_links_and_those_of_the_site_lead_on(href: Seq<char>, site: Seq<char>)
    requires
        href.len() > 0,
        !text::begins(href, "#"@),
        !text::begins(href, "mailto:"@),
        !text::begins(href, "javascript:"@),
        !ends_with_any(unicode::lowercase(href), text::str_views(ASSET_EXTS@)),
    ensures
        !text::begins(href, "http"@) ==> leads_on(href, site),
        text::begins(href, site) ==> leads_on(href, site),
{
}

} // verus!
