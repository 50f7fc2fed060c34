//! Papers of arXiv.
use vstd::prelude::*;
use vstd::utf8;
use crate::json;
use crate::lists;
use crate::number;
use crate::order;
use crate::order::Entry;
use crate::pattern;
use crate::percent;
use crate::text;
use crate::text::same;
use crate::time;
use crate::time::Timestamp;
use crate::unicode;
use crate::xml;
use crate::xml::{Attr, Xml, XmlAttr, XmlEvent};

verus! {

/// A paper.
#[derive(Debug, Clone)]
pub struct ArxivPaper {
    pub arxiv_id: String,
    pub title: String,
    pub url: String,
    pub published: Option<Timestamp>,
    pub authors: Vec<String>,
    pub abstract_text: String,
    pub categories: Vec<String>,
}

/// A paper, by its texts.
#[verifier::ext_equal]
pub struct Paper {
    pub arxiv_id: Seq<char>,
    pub title: Seq<char>,
    pub url: Seq<char>,
    pub published: Option<Timestamp>,
    pub authors: Seq<Seq<char>>,
    pub abstract_text: Seq<char>,
    pub categories: Seq<Seq<char>>,
}

impl View for ArxivPaper {
    type V = Paper;

    open spec fn view(&self) -> Paper {
        Paper {
            arxiv_id: self.arxiv_id@,
            title: self.title@,
            url: self.url@,
            published: self.published,
            authors: text::views(self.authors@),
            abstract_text: self.abstract_text@,
            categories: text::views(self.categories@),
        }
    }
}

/// Papers are told apart by their numbers and ordered by publication; one without a date comes
/// as if it were of the start of 1970.
impl Entry for ArxivPaper {
    open spec fn key(&self) -> Seq<char> {
        self.arxiv_id@
    }

    open spec fn date(&self) -> Option<Timestamp> {
        match self.published {
            Some(t) => Some(t),
            None => Some(time::epoch()),
        }
    }

    fn entry_key(&self) -> (r: String) {
        self.arxiv_id.clone()
    }

    fn entry_date(&self) -> (r: Option<Timestamp>) {
        match self.published {
            Some(t) => Some(t),
            None => Some(Timestamp { secs: 0, nanos: 0 }),
        }
    }
}

// ── Reading the reply ──────────────────────────────────────────────────────────

/// A text with each run of white space made one space, and none at its ends.
pub open spec fn collapsed(s: Seq<char>) -> Seq<char> {
    text::joined(text::words(s), " "@)
}

/// Makes each run of white space one space.
pub fn collapse_whitespace(s: &str) -> (r: String)
    ensures
        r@ == collapsed(s@),
{
    text::join(&text::split_whitespace(s), " ")
}

/// A paper of which nothing is known.
pub open spec fn blank_paper() -> Paper {
    Paper {
        arxiv_id: Seq::empty(),
        title: Seq::empty(),
        url: Seq::empty(),
        published: None,
        authors: Seq::empty(),
        abstract_text: Seq::empty(),
        categories: Seq::empty(),
    }
}

/// Whether an attribute without its prefix has a name.
pub open spec fn is_named(a: Attr, name: Seq<char>) -> bool {
    xml::local_name(a.name) == name
}

/// Whether an attribute has a name, apart from its prefix.
pub fn has_name(a: &XmlAttr, name: &str) -> (r: bool)
    ensures
        r == is_named(a@, name@),
{
    same(&xml::local_part(&a.name), name)
}

/// Whether a link is the one to the paper's own page.
pub open spec fn is_alternate(attrs: Seq<Attr>) -> bool {
    exists|i: int|
        0 <= i < attrs.len() && is_named(#[trigger] attrs[i], "rel"@) && attrs[i].value
            == "alternate"@
}

/// The value of the last attribute with a name, or nothing.
pub open spec fn last_value(attrs: Seq<Attr>, name: Seq<char>) -> Seq<char>
    decreases attrs.len(),
{
    if attrs.len() == 0 {
        Seq::empty()
    } else if is_named(attrs.last(), name) {
        attrs.last().value
    } else {
        last_value(attrs.drop_last(), name)
    }
}

/// The values of all attributes with a name.
pub open spec fn all_values(attrs: Seq<Attr>, name: Seq<char>) -> Seq<Seq<char>> {
    attrs.filter(|a: Attr| is_named(a, name)).map_values(|a: Attr| a.value)
}

/// Whether a link is the one to the paper's own page.
fn links_to_page(attrs: &Vec<XmlAttr>) -> (r: bool)
    ensures
        r == is_alternate(xml::attr_views(attrs@)),
{
    let ghost vs = xml::attr_views(attrs@);
    let mut i: usize = 0;
    while i < attrs.len()
        invariant
            i <= attrs@.len(),
            vs == xml::attr_views(attrs@),
            forall|j: int|
                0 <= j < i ==> !(is_named(#[trigger] vs[j], "rel"@) && vs[j].value
                    == "alternate"@),
        decreases attrs.len() - i,
    {
        if has_name(&attrs[i], "rel") && same(&attrs[i].value, "alternate") {
            assert(is_named(vs[i as int], "rel"@));
            return true;
        }
        i += 1;
    }
    false
}

/// The value of the last attribute with a name.
fn find_last_value(attrs: &Vec<XmlAttr>, name: &str) -> (r: String)
    ensures
        r@ == last_value(xml::attr_views(attrs@), name@),
{
    let ghost vs = xml::attr_views(attrs@);
    let mut r = String::new();
    let mut i: usize = 0;
    while i < attrs.len()
        invariant
            i <= attrs@.len(),
            vs == xml::attr_views(attrs@),
            r@ == last_value(vs.take(i as int), name@),
        decreases attrs.len() - i,
    {
        proof {
            lists::take_next(vs, i as int);
            assert(vs.take(i + 1).drop_last() =~= vs.take(i as int));
        }
        if has_name(&attrs[i], name) {
            r = attrs[i].value.clone();
        }
        i += 1;
    }
    proof {
        lists::take_all(vs);
    }
    r
}

/// Adds the values of all attributes with a name.
fn add_values(list: &mut Vec<String>, attrs: &Vec<XmlAttr>, name: &str)
    ensures
        text::views(final(list)@) == text::views(old(list)@) + all_values(
            xml::attr_views(attrs@),
            name@,
        ),
{
    let ghost vs = xml::attr_views(attrs@);
    let ghost p = |a: Attr| is_named(a, name@);
    let ghost f = |a: Attr| a.value;
    let ghost had = text::views(list@);
    let mut i: usize = 0;
    assert(had =~= had + vs.take(0).filter(p).map_values(f)) by {
        reveal(Seq::filter);
    }
    while i < attrs.len()
        invariant
            i <= attrs@.len(),
            vs == xml::attr_views(attrs@),
            p == (|a: Attr| is_named(a, name@)),
            f == (|a: Attr| a.value),
            text::views(list@) == had + vs.take(i as int).filter(p).map_values(f),
        decreases attrs.len() - i,
    {
        broadcast use text::views_push;

        proof {
            lists::take_next(vs, i as int);
            vs.take(i as int).lemma_filter_push(vs[i as int], p);
            let a = vs.take(i as int).filter(p);
            assert(a.push(vs[i as int]).map_values(f) =~= a.map_values(f).push(vs[i as int].value));
            assert(had + a.map_values(f).push(vs[i as int].value) =~= (had + a.map_values(f)).push(
                vs[i as int].value,
            ));
        }
        if has_name(&attrs[i], name) {
            list.push(attrs[i].value.clone());
        }
        i += 1;
    }
    proof {
        lists::take_all(vs);
    }
}

/// What stands behind the front of the address that identifies a paper.
pub open spec fn id_front_removed(s: Seq<char>) -> Seq<char> {
    text::without_prefixes(
        text::without_prefixes(s, "http://arxiv.org/abs/"@),
        "https://arxiv.org/abs/"@,
    )
}

/// The number of a paper in the address that identifies it.
pub open spec fn paper_number(s: Seq<char>) -> Seq<char> {
    text::trimmed(pattern::first_replaced(pattern::VERSION_SUFFIX@, id_front_removed(s), ""@))
}

/// The number of a paper in the address that identifies it.
pub fn paper_id(s: &str) -> (r: String)
    ensures
        r@ == paper_number(s@),
{
    proof {
        reveal_strlit("http://arxiv.org/abs/");
        reveal_strlit("https://arxiv.org/abs/");
    }
    let a = text::trim_start_matches(s, "http://arxiv.org/abs/");
    let b = text::trim_start_matches(&a, "https://arxiv.org/abs/");
    text::trim(&pattern::replace_first(pattern::VERSION_SUFFIX, &b, ""))
}

/// How far the reading of a reply has come.
#[verifier::ext_equal]
pub struct Atom {
    /// The paper that is open.
    pub paper: Option<Paper>,
    /// The element that was opened last and not followed by an end tag.
    pub tag: Seq<char>,
    pub in_author: bool,
    pub author: Seq<char>,
    /// The papers that are complete.
    pub papers: Seq<Paper>,
}

/// The beginning of a reply.
pub open spec fn new_atom() -> Atom {
    Atom {
        paper: None,
        tag: Seq::empty(),
        in_author: false,
        author: Seq::empty(),
        papers: Seq::empty(),
    }
}

/// A paper after a link.
pub open spec fn with_link(p: Paper, attrs: Seq<Attr>) -> Paper {
    let href = last_value(attrs, "href"@);
    if is_alternate(attrs) && href.len() > 0 {
        Paper { url: href, ..p }
    } else {
        p
    }
}

/// A reply after a start tag.
pub open spec fn after_start(a: Atom, name: Seq<char>, attrs: Seq<Attr>) -> Atom {
    let b = Atom { tag: name, ..a };
    if name == "entry"@ {
        Atom { paper: Some(blank_paper()), ..b }
    } else {
        match a.paper {
            None => b,
            Some(p) => if name == "author"@ {
                Atom { in_author: true, author: Seq::empty(), ..b }
            } else if name == "link"@ {
                Atom { paper: Some(with_link(p, attrs)), ..b }
            } else if name == "category"@ {
                Atom {
                    paper: Some(
                        Paper { categories: p.categories + all_values(attrs, "term"@), ..p },
                    ),
                    ..b
                }
            } else {
                b
            },
        }
    }
}

/// A paper after text in one of its elements.
pub open spec fn with_paper_text(p: Paper, tag: Seq<char>, t: Seq<char>) -> Paper {
    if tag == "id"@ {
        Paper {
            arxiv_id: paper_number(t),
            url: if p.url.len() == 0 {
                "https://arxiv.org/abs/"@ + paper_number(t)
            } else {
                p.url
            },
            ..p
        }
    } else if tag == "title"@ {
        Paper { title: collapsed(t), ..p }
    } else if tag == "summary"@ {
        Paper { abstract_text: text::shortened(collapsed(t), 500), ..p }
    } else if tag == "published"@ {
        match time::utc_time(t) {
            Some(d) => Paper { published: Some(d), ..p },
            None => p,
        }
    } else {
        p
    }
}

/// A reply after text.
pub open spec fn after_text(a: Atom, s: Seq<char>) -> Atom {
    let t = text::trimmed(s);
    match a.paper {
        Some(p) => if t.len() == 0 {
            a
        } else if a.tag == "name"@ && a.in_author {
            Atom { author: t, ..a }
        } else {
            Atom { paper: Some(with_paper_text(p, a.tag, t)), ..a }
        },
        None => a,
    }
}

/// At most three authors, and a mark where there are more.
pub open spec fn few_authors(authors: Seq<Seq<char>>) -> Seq<Seq<char>> {
    if authors.len() > 3 {
        authors.take(3).push("et al."@)
    } else {
        authors
    }
}

/// A reply after an end tag.
pub open spec fn after_end(a: Atom, name: Seq<char>) -> Atom {
    let b = Atom { tag: Seq::empty(), ..a };
    match a.paper {
        None => b,
        Some(p) => if name == "entry"@ {
            Atom {
                paper: None,
                papers: a.papers.push(Paper { authors: few_authors(p.authors), ..p }),
                ..b
            }
        } else if name == "author"@ {
            let authors = if a.author.len() > 0 {
                p.authors.push(a.author)
            } else {
                p.authors
            };
            Atom {
                paper: Some(Paper { authors, ..p }),
                in_author: false,
                author: Seq::empty(),
                ..b
            }
        } else {
            b
        },
    }
}

/// A reply after one more event.
pub open spec fn atom_step(a: Atom, e: Xml) -> Atom {
    match e {
        Xml::Start { name, attrs } => after_start(a, name, attrs),
        Xml::Text(t) => after_text(a, t),
        Xml::End { name } => after_end(a, name),
        _ => a,
    }
}

/// A reply after events.
pub open spec fn atom_after(events: Seq<Xml>) -> Atom
    decreases events.len(),
{
    if events.len() == 0 {
        new_atom()
    } else {
        atom_step(atom_after(events.drop_last()), events.last())
    }
}

/// A reader of replies.
pub struct AtomReader {
    pub paper: Option<ArxivPaper>,
    pub tag: String,
    pub in_author: bool,
    pub author: String,
    pub papers: Vec<ArxivPaper>,
}

impl View for AtomReader {
    type V = Atom;

    open spec fn view(&self) -> Atom {
        Atom {
            paper: match self.paper {
                Some(p) => Some(p@),
                None => None,
            },
            tag: self.tag@,
            in_author: self.in_author,
            author: self.author@,
            papers: lists::views(self.papers@),
        }
    }
}

/// Takes text in an element of a paper.
fn take_paper_text(p: ArxivPaper, tag: &str, t: &str) -> (r: ArxivPaper)
    ensures
        r@ == with_paper_text(p@, tag@, t@),
{
    let mut p = p;
    if same(tag, "id") {
        p.arxiv_id = paper_id(t);
        if text::is_empty(&p.url) {
            let mut url = "https://arxiv.org/abs/".to_owned();
            url.append(&p.arxiv_id);
            p.url = url;
        }
    } else if same(tag, "title") {
        p.title = collapse_whitespace(t);
    } else if same(tag, "summary") {
        p.abstract_text = text::take_chars(&collapse_whitespace(t), 500);
    } else if same(tag, "published") {
        if let Some(d) = time::parse_utc(t) {
            p.published = Some(d);
        }
    }
    p
}

impl AtomReader {
    /// A reader at the beginning of a reply.
    pub fn new() -> (r: AtomReader)
        ensures
            r@ == new_atom(),
    {
        AtomReader {
            paper: None,
            tag: String::new(),
            in_author: false,
            author: String::new(),
            papers: Vec::new(),
        }
    }

    /// Takes a start tag.
    fn start(&mut self, name: &str, attrs: &Vec<XmlAttr>)
        ensures
            final(self)@ == after_start(old(self)@, name@, xml::attr_views(attrs@)),
    {
        self.tag = name.to_owned();
        if same(name, "entry") {
            let blank = ArxivPaper {
                arxiv_id: String::new(),
                title: String::new(),
                url: String::new(),
                published: None,
                authors: Vec::new(),
                abstract_text: String::new(),
                categories: Vec::new(),
            };
            assert(blank@ == blank_paper());
            self.paper = Some(blank);
            return ;
        }
        let paper = self.paper.take();
        match paper {
            None => {},
            Some(p) => {
                let mut p = p;
                if same(name, "author") {
                    self.in_author = true;
                    self.author = String::new();
                } else if same(name, "link") {
                    let href = find_last_value(attrs, "href");
                    if links_to_page(attrs) && !text::is_empty(&href) {
                        p.url = href;
                    }
                } else if same(name, "category") {
                    add_values(&mut p.categories, attrs, "term");
                }
                self.paper = Some(p);
            },
        }
    }

    /// Takes text.
    fn take_text(&mut self, s: &str)
        ensures
            final(self)@ == after_text(old(self)@, s@),
    {
        let t = text::trim(s);
        if text::is_empty(&t) {
            return ;
        }
        let paper = self.paper.take();
        match paper {
            None => {},
            Some(p) => {
                if same(&self.tag, "name") && self.in_author {
                    self.author = t;
                    self.paper = Some(p);
                } else {
                    self.paper = Some(take_paper_text(p, &self.tag, &t));
                }
            },
        }
    }

    /// Takes an end tag.
    fn end(&mut self, name: &str)
        ensures
            final(self)@ == after_end(old(self)@, name@),
    {
        let paper = self.paper.take();
        match paper {
            None => {},
            Some(p) => {
                let mut p = p;
                if same(name, "entry") {
                    if p.authors.len() > 3 {
                        let ghost all = p.authors@;
                        p.authors.truncate(3);
                        p.authors.push("et al.".to_owned());
                        assert(text::views(p.authors@) =~= text::views(all).take(3).push(
                            "et al."@,
                        ));
                    }
                    proof {
                        lists::views_push(self.papers@, p);
                    }
                    self.papers.push(p);
                } else if same(name, "author") {
                    if !text::is_empty(&self.author) {
                        proof {
                            text::views_push(p.authors@, self.author);
                        }
                        p.authors.push(self.author.clone());
                    }
                    self.in_author = false;
                    self.author = String::new();
                    self.paper = Some(p);
                } else {
                    self.paper = Some(p);
                }
            },
        }
        self.tag = String::new();
    }

    /// Takes one more event.
    pub fn step(&mut self, e: &XmlEvent)
        ensures
            final(self)@ == atom_step(old(self)@, e@),
    {
        match e {
            XmlEvent::Start { name, attrs } => self.start(name, attrs),
            XmlEvent::Text(t) => self.take_text(t),
            XmlEvent::End { name } => self.end(name),
            _ => {},
        }
    }
}

/// The papers of a reply, by its events.
pub fn papers_from_events(events: &Vec<XmlEvent>) -> (r: Vec<ArxivPaper>)
    ensures
        lists::views(r@) == atom_after(xml::event_views(events@)).papers,
{
    let ghost vs = xml::event_views(events@);
    let mut reader = AtomReader::new();
    let mut i: usize = 0;
    while i < events.len()
        invariant
            i <= events@.len(),
            vs == xml::event_views(events@),
            reader@ == atom_after(vs.take(i as int)),
        decreases events.len() - i,
    {
        proof {
            assert(vs.take(i + 1).drop_last() =~= vs.take(i as int));
        }
        reader.step(&events[i]);
        i += 1;
    }
    proof {
        lists::take_all(vs);
    }
    reader.papers
}

/// The papers of a reply.
pub fn parse_arxiv_atom(xml: &str) -> (r: Vec<ArxivPaper>)
    ensures
        lists::views(r@) == atom_after(xml::events_in(xml@)).papers,
{
    let events = xml::read_events(xml);
    papers_from_events(&events)
}

// ── Terms ──────────────────────────────────────────────────────────────────────

/// What the language model is asked for terms.
pub const EXPAND_PROMPT: &'static str = r#"你是一位熟悉軟體工程、資料工程、AI/ML 與雲端技術的研究員。
使用者正在搜尋與「軟體/技術領域」相關的 arXiv 學術論文。

請根據以下關鍵字，判斷其在**軟體與資訊技術**脈絡下的含義，列出 5–8 個適合在 arXiv 上搜尋的英文技術術語。

⚠️ 重要規則：
- 每個術語最多 3 個英文單字，越短越好（arXiv 搜尋引擎對長短語支援不佳）
- 關鍵字可能是工具名稱（如 Airflow = Apache Airflow 工作流程排程器，而非流體力學）
- 請優先考慮軟體/CS 領域的解讀
- 術語應為該領域的核心技術概念，而非重複關鍵字本身
- 不要包含括號、縮寫或特殊符號

關鍵字：{keyword}

只回傳 JSON 字串陣列，不加任何其他文字，範例：
["workflow scheduling", "DAG execution", "task orchestration", "pipeline automation"]"#;

/// What the language model is asked for the terms of a keyword.
pub fn expand_prompt(kw: &str) -> (r: String)
    ensures
        r@ == text::replaced(EXPAND_PROMPT@, "{keyword}"@, kw@),
{
    proof {
        reveal_strlit("{keyword}");
    }
    text::replace(EXPAND_PROMPT, "{keyword}", kw)
}

/// The terms that were read, or the keyword alone where none were.
pub open spec fn terms_or(kw: Seq<char>, parsed: Option<Seq<Seq<char>>>) -> Seq<Seq<char>> {
    match parsed {
        Some(terms) if terms.len() > 0 => terms,
        _ => seq![kw],
    }
}

/// The terms that were read, or the keyword alone where none were.
pub fn terms_or_keyword(kw: &str, parsed: Option<Vec<String>>) -> (r: Vec<String>)
    ensures
        text::views(r@) == terms_or(kw@, pattern::opt_views(parsed)),
{
    if let Some(terms) = parsed {
        assert(text::views(terms@).len() == terms@.len());
        if terms.len() > 0 {
            return terms;
        }
    }
    let r = vec![kw.to_owned()];
    assert(text::views(r@) =~= seq![kw@]);
    r
}

/// The part of a reply that is read as a list of terms.
pub open spec fn terms_part(reply: Seq<char>) -> Seq<char> {
    text::from_first(json::unfenced(reply), "["@)
}

/// The terms for a keyword; `reply` is what the language model said, if it said anything.
pub fn terms_from_reply(kw: &str, reply: Option<&str>) -> (r: Vec<String>)
    ensures
        text::views(r@) == terms_or(
            kw@,
            match reply {
                Some(s) => json::json_strings(terms_part(s@)),
                None => None,
            },
        ),
{
    match reply {
        Some(s) => {
            let part = text::skip_to(&json::strip_code_fences(s), "[");
            terms_or_keyword(kw, json::parse_strings(&part))
        },
        None => terms_or_keyword(kw, None),
    }
}

// ── Queries ────────────────────────────────────────────────────────────────────

/// How a character stands in a query: letters, digits and `-_.` as they are, a space as a
/// plus, and any other as a percent sign and two hexadecimal digits for each of its UTF-8 bytes.
pub open spec fn encoded_char(c: char) -> Seq<char> {
    if percent::unreserved(c) && c != '~' {
        seq![c]
    } else if c == ' ' {
        seq!['+']
    } else {
        percent::percent_bytes(utf8::encode_utf8(seq![c]))
    }
}

/// How a text stands in a query.
pub open spec fn encoded(s: Seq<char>) -> Seq<char>
    decreases s.len(),
{
    if s.len() == 0 {
        s
    } else {
        encoded(s.drop_last()) + encoded_char(s.last())
    }
}

/// Encodes a text for a query.
pub fn arxiv_encode(s: &str) -> (r: String)
    ensures
        r@ == encoded(s@),
{
    let mut r = String::new();
    for c in it: s.chars()
        invariant
            it.seq() == s@,
            r@ == encoded(s@.take(it.index() as int)),
    {
        let ghost before = r@;
        proof {
            let i = it.index() as int;
            assert(s@.take(i + 1).drop_last() =~= s@.take(i));
            assert(s@.take(i + 1).last() == c);
        }
        if ('A' <= c && c <= 'Z') || ('a' <= c && c <= 'z') || ('0' <= c && c <= '9') || c == '-'
            || c == '_' || c == '.' {
            r.push(c);
            assert(r@ =~= before + seq![c]);
        } else if c == ' ' {
            r.push('+');
            assert(r@ =~= before + seq!['+']);
        } else {
            percent::push_percent_char(&mut r, c);
        }
    }
    assert(s@.take(s@.len() as int) =~= s@);
    r
}

/// Whether a text speaks of a term: the term has a word of more than two bytes, and all such
/// words stand in the text.
pub open spec fn term_in(term: Seq<char>, t: Seq<char>) -> bool {
    text::long_words(term, 2).len() > 0 && text::holds_all(t, text::long_words(term, 2))
}

/// Whether a text speaks of a term.
pub fn term_matches(term: &str, t: &str) -> (r: bool)
    ensures
        r == term_in(term@, t@),
{
    let words = text::split_long_words(term, 2);
    assert(text::views(words@).len() == words@.len());
    words.len() > 0 && text::contains_all(t, &words)
}

/// The query for a text in titles and abstracts.
pub open spec fn field_query(enc: Seq<char>) -> Seq<char> {
    "ti:"@ + enc + "+OR+abs:"@ + enc
}

/// The query for an encoded text in titles and abstracts.
fn in_fields(enc: &str) -> (r: String)
    ensures
        r@ == field_query(enc@),
{
    let mut r = "ti:".to_owned();
    r.append(enc);
    r.append("+OR+abs:");
    r.append(enc);
    r
}

/// The clause that ties a query to the words of a keyword of more than three bytes; empty where
/// there are none.
pub open spec fn anchor(kw: Seq<char>) -> Seq<char> {
    let parts = text::long_words(kw, 3).map_values(|w: Seq<char>| field_query(encoded(w)));
    if parts.len() == 0 {
        Seq::empty()
    } else {
        "+AND+("@ + text::joined(parts, "+OR+"@) + ")"@
    }
}

/// The clause that ties a query to the words of a keyword.
pub fn anchor_clause(kw: &str) -> (r: String)
    ensures
        r@ == anchor(kw@),
{
    let words = text::split_long_words(kw, 3);
    let ghost ws = text::views(words@);
    let ghost f = |w: Seq<char>| field_query(encoded(w));
    let mut parts: Vec<String> = Vec::new();
    let mut i: usize = 0;
    while i < words.len()
        invariant
            i <= words@.len(),
            ws == text::views(words@),
            f == (|w: Seq<char>| field_query(encoded(w))),
            parts@.len() == i,
            text::views(parts@) == ws.take(i as int).map_values(f),
        decreases words.len() - i,
    {
        broadcast use text::views_push;

        assert(ws.take(i + 1).map_values(f) =~= ws.take(i as int).map_values(f).push(
            f(ws[i as int]),
        ));
        parts.push(in_fields(&arxiv_encode(&words[i])));
        i += 1;
    }
    proof {
        lists::take_all(ws);
    }
    if parts.len() == 0 {
        String::new()
    } else {
        let mut r = "+AND+(".to_owned();
        r.append(&text::join(&parts, "+OR+"));
        r.append(")");
        r
    }
}

/// The query for a term, tied to the keyword by its clause.
pub fn term_query(term: &str, anchor: &str) -> (r: String)
    ensures
        r@ == "("@ + field_query(encoded(term@)) + ")"@ + anchor@,
{
    let mut r = "(".to_owned();
    r.append(&in_fields(&arxiv_encode(term)));
    r.append(")");
    r.append(anchor);
    r
}

/// How many papers are asked for with each term.
pub fn papers_per_term(max: usize) -> (r: usize)
    requires
        max * 2 <= usize::MAX,
    ensures
        r == (if max * 2 < 10 {
            10
        } else {
            max * 2
        }),
{
    if max * 2 < 10 {
        10
    } else {
        max * 2
    }
}

/// The address of a search.
pub fn search_url(query: &str, max: usize) -> (r: String)
    requires
        max * 3 <= usize::MAX,
    ensures
        r@ == "https://export.arxiv.org/api/query?search_query="@ + query@
            + "&start=0&max_results="@ + number::decimal((max * 3) as nat)
            + "&sortBy=submittedDate&sortOrder=descending"@,
{
    let mut r = "https://export.arxiv.org/api/query?search_query=".to_owned();
    r.append(query);
    r.append("&start=0&max_results=");
    r.append(&number::usize_text(max * 3));
    r.append("&sortBy=submittedDate&sortOrder=descending");
    r
}

/// The windows of days that are searched one after another; zero is no limit.
pub const DATE_WINDOWS: [u32; 3] = [90, 365, 0];

/// The window to search next, after `done` windows of which the last gave `found` papers.
pub fn next_window(done: usize, found: usize) -> (r: Option<u32>)
    ensures
        r == (if found > 0 || done >= 3 {
            None
        } else {
            Some(DATE_WINDOWS[done as int])
        }),
{
    if found > 0 || done >= 3 {
        None
    } else {
        Some(DATE_WINDOWS[done])
    }
}

// ── Choosing papers ────────────────────────────────────────────────────────────

/// The papers that are not older than the cutoff, at most `max`.
pub open spec fn recent_papers(papers: Seq<ArxivPaper>, cutoff: Option<Timestamp>, max: nat) -> Seq<
    ArxivPaper,
> {
    order::cut(papers.filter(|p: ArxivPaper| time::recent(p.published, cutoff)), max)
}

/// Keeps the papers that are not older than the cutoff, at most `max`.
pub fn keep_recent(papers: Vec<ArxivPaper>, cutoff: Option<Timestamp>, max: usize) -> (r: Vec<
    ArxivPaper,
>)
    ensures
        r@ == recent_papers(papers@, cutoff, max as nat),
{
    let mut flags: Vec<bool> = Vec::new();
    let mut i: usize = 0;
    while i < papers.len()
        invariant
            i <= papers@.len(),
            flags@.len() == i,
            forall|j: int|
                0 <= j < i ==> #[trigger] flags@[j] == time::recent(papers@[j].published, cutoff),
        decreases papers.len() - i,
    {
        flags.push(time::is_recent(papers[i].published, cutoff));
        i += 1;
    }
    proof {
        order::kept_is_filter(
            papers@,
            flags@,
            |p: ArxivPaper| time::recent(p.published, cutoff),
        );
    }
    order::truncated(order::keep(papers, &flags), max)
}

/// The papers of a reply that are not older than the cutoff, at most `max`.
pub fn papers_in_reply(xml: &str, cutoff: Option<Timestamp>, max: usize) -> (r: Vec<ArxivPaper>)
    ensures
        lists::views(r@) == order::cut(
            atom_after(xml::events_in(xml@)).papers.filter(
                |p: Paper| time::recent(p.published, cutoff),
            ),
            max as nat,
        ),
{
    let all = parse_arxiv_atom(xml);
    let ghost raw = all@;
    let r = keep_recent(all, cutoff, max);
    proof {
        let p = |p: Paper| time::recent(p.published, cutoff);
        let q = |x: ArxivPaper| time::recent(x.published, cutoff);
        lists::views_of_filtered(raw, p);
        assert(raw.filter(|x: ArxivPaper| p(x@)) == raw.filter(q)) by {
            assert((|x: ArxivPaper| p(x@)) =~= q);
        }
        assert(lists::views(r@) =~= order::cut(lists::views(raw.filter(q)), max as nat));
    }
    r
}

/// Whether a paper is told briefly: it has at most three authors and a mark, and an abstract of at
/// most 500 characters.
pub open spec fn is_brief(p: Paper) -> bool {
    p.authors.len() <= 4 && p.abstract_text.len() <= 500 && (p.authors.len() == 4 ==> p.authors[3]
        == "et al."@)
}

/// Every paper of a reply is told briefly.
pub proof fn papers_are_brief(events: Seq<Xml>)
    ensures
        forall|i: int|
            0 <= i < atom_after(events).papers.len() ==> is_brief(
                #[trigger] atom_after(events).papers[i],
            ),
        atom_after(events).paper matches Some(p) ==> p.abstract_text.len() <= 500,
    decreases events.len(),
{
    if events.len() > 0 {
        papers_are_brief(events.drop_last());
        let a = atom_after(events.drop_last());
        let b = atom_after(events);
        assert forall|i: int| 0 <= i < b.papers.len() implies is_brief(#[trigger] b.papers[i]) by {
            if i < a.papers.len() {
                assert(b.papers[i] == a.papers[i]);
            }
        }
    }
}

/// Whether a paper speaks of one of the terms.
pub open spec fn on_topic(p: ArxivPaper, terms: Seq<Seq<char>>) -> bool {
    exists|i: int|
        0 <= i < terms.len() && term_in(
            unicode::lowercase(#[trigger] terms[i]),
            unicode::lowercase(p.title@) + " "@ + unicode::lowercase(p.abstract_text@),
        )
}

/// Whether a paper speaks of one of the terms.
pub fn is_on_topic(p: &ArxivPaper, terms: &Vec<String>) -> (r: bool)
    ensures
        r == on_topic(*p, text::views(terms@)),
{
    let mut t = p.title.to_lowercase();
    t.append(" ");
    t.append(&p.abstract_text.to_lowercase());
    let ghost ts = text::views(terms@);
    let mut i: usize = 0;
    while i < terms.len()
        invariant
            i <= terms@.len(),
            ts == text::views(terms@),
            t@ == unicode::lowercase(p.title@) + " "@ + unicode::lowercase(p.abstract_text@),
            forall|j: int| 0 <= j < i ==> !term_in(unicode::lowercase(#[trigger] ts[j]), t@),
        decreases terms.len() - i,
    {
        if term_matches(&terms[i].to_lowercase(), &t) {
            assert(term_in(unicode::lowercase(ts[i as int]), t@));
            return true;
        }
        i += 1;
    }
    false
}

/// The papers of all searches: each once, those that speak of a term, newest first, at most
/// `max`.
pub open spec fn chosen_papers(
    results: Seq<Vec<ArxivPaper>>,
    terms: Seq<Seq<char>>,
    max: nat,
) -> Seq<ArxivPaper> {
    order::cut(
        order::by_date(
            order::distinct(order::flat(results)).filter(|p: ArxivPaper| on_topic(p, terms)),
        ),
        max,
    )
}

/// Chooses among the papers of all searches.
pub fn choose_papers(results: Vec<Vec<ArxivPaper>>, terms: &Vec<String>, max: usize) -> (r: Vec<
    ArxivPaper,
>)
    ensures
        r@ == chosen_papers(results@, text::views(terms@), max as nat),
{
    let all = order::distinct_entries(order::flatten(results));
    let mut flags: Vec<bool> = Vec::new();
    let mut i: usize = 0;
    while i < all.len()
        invariant
            i <= all@.len(),
            flags@.len() == i,
            forall|j: int|
                0 <= j < i ==> #[trigger] flags@[j] == on_topic(all@[j], text::views(terms@)),
        decreases all.len() - i,
    {
        flags.push(is_on_topic(&all[i], terms));
        i += 1;
    }
    proof {
        order::kept_is_filter(all@, flags@, |p: ArxivPaper| on_topic(p, text::views(terms@)));
    }
    order::truncated(order::sort_entries(order::keep(all, &flags)), max)
}

// ── Laws ─────────────────────────────────────────────────────────────────────

/// Papers are told apart by their numbers alone, and one without a date is ordered as if it were
/// of the start of 1970.
pub proof fn papers_are_told_apart_by_number(a: ArxivPaper, b: ArxivPaper)
    ensures
        a.key() == b.key() <==> a.arxiv_id@ == b.arxiv_id@,
        a.published matches Some(t) ==> a.date() == Some(t),
        a.published is None ==> (a.date() matches Some(t) && t.secs == 0 && t.nanos == 0),
{
}

/// Whether all words of a term that are longer than two bytes stand in a text, and there is one.
pub open spec fn words_stand_in(term: Seq<char>, t: Seq<char>) -> bool {
    &&& exists|w: Seq<char>| #[trigger] text::words(term).contains(w) && text::byte_count(w) > 2
    &&& forall|w: Seq<char>|
        #[trigger] text::words(term).contains(w) && text::byte_count(w) > 2 ==> text::holds(t, w)
}

/// A paper is on topic where all long words of a term stand in its abstract, whatever its title
/// is, and where they stand in its title, whatever its abstract is.
pub proof fn titles_and_abstracts_count(p: ArxivPaper, terms: Seq<Seq<char>>, i: int)
    requires
        0 <= i < terms.len(),
        words_stand_in(unicode::lowercase(terms[i]), unicode::lowercase(p.abstract_text@))
            || words_stand_in(unicode::lowercase(terms[i]), unicode::lowercase(p.title@)),
    ensures
        on_topic(p, terms),
{
    let term = unicode::lowercase(terms[i]);
    let a = unicode::lowercase(p.title@);
    let b = unicode::lowercase(p.abstract_text@);
    let t = a + " "@ + b;
    let ws = text::long_words(term, 2);
    let w = choose|w: Seq<char>| #[trigger] text::words(term).contains(w) && text::byte_count(w) > 2;
    text::long_words_are_words(term, 2, w);
    assert(ws.contains(w));
    assert forall|j: int| 0 <= j < ws.len() implies text::holds(t, #[trigger] ws[j]) by {
        assert(ws.contains(ws[j]));
        text::long_words_are_words(term, 2, ws[j]);
        if text::holds(a, ws[j]) {
            text::holds_in_either(a, " "@, ws[j]);
        }
        text::holds_in_either(a + " "@, b, ws[j]);
    }
    assert(term_in(unicode::lowercase(terms[i]), t));
}

/// A paper is on topic only where all long words of one of the terms stand in its title and its
/// abstract.
pub proof fn papers_on_topic_speak_of_a_term(p: ArxivPaper, terms: Seq<Seq<char>>)
    requires
        on_topic(p, terms),
    ensures
        exists|i: int|
            0 <= i < terms.len() && words_stand_in(
                unicode::lowercase(#[trigger] terms[i]),
                unicode::lowercase(p.title@) + " "@ + unicode::lowercase(p.abstract_text@),
            ),
{
    let t = unicode::lowercase(p.title@) + " "@ + unicode::lowercase(p.abstract_text@);
    let i = choose|i: int|
        0 <= i < terms.len() && term_in(unicode::lowercase(#[trigger] terms[i]), t);
    let term = unicode::lowercase(terms[i]);
    let ws = text::long_words(term, 2);
    assert(ws.contains(ws[0]));
    text::long_words_are_words(term, 2, ws[0]);
    assert forall|w: Seq<char>|
        #[trigger] text::words(term).contains(w) && text::byte_count(w) > 2 implies text::holds(t, w) by {
        text::long_words_are_words(term, 2, w);
        let j = choose|j: int| 0 <= j < ws.len() && ws[j] == w;
        assert(text::holds(t, ws[j]));
    }
    assert(words_stand_in(term, t));
}

/// Every paper of a search that is on topic is chosen where enough papers are asked for, unless an
/// earlier one has its number; and only papers of the searches that are on topic are chosen, each
/// number once, none older than one behind it, and no more than are asked for.
pub proof fn papers_on_topic_are_chosen(
    results: Seq<Vec<ArxivPaper>>,
    terms: Seq<Seq<char>>,
    max: nat,
    i: int,
)
    ensures
        ({
            let all = order::flat(results);
            let r = chosen_papers(results, terms, max);
            &&& r.len() <= max
            &&& order::keys(r).no_duplicates()
            &&& forall|k: int|
                0 <= k < r.len() ==> all.contains(#[trigger] r[k]) && on_topic(r[k], terms)
            &&& forall|k: int, m: int|
                0 <= k < m < r.len() ==> !order::older(
                    #[trigger] r[k].date(),
                    #[trigger] r[m].date(),
                )
            &&& max >= all.len() && 0 <= i < all.len() && on_topic(all[i], terms) && (forall|j: int|
                0 <= j < i ==> (#[trigger] all[j]).arxiv_id@ != all[i].arxiv_id@) ==> r.contains(
                all[i],
            )
        }),
{
    let all = order::flat(results);
    let p = |p: ArxivPaper| on_topic(p, terms);
    let d = order::distinct(all);
    let f = d.filter(p);
    let b = order::by_date(f);
    let r = chosen_papers(results, terms, max);
    broadcast use vstd::seq_lib::group_filter_ensures;

    order::distinct_has_each_key_once(all);
    order::filter_keeps_keys_apart(d, p);
    order::by_date_is_ordered(f);
    order::permuting_keeps_keys_apart(b, f);
    order::kept_are_items(all, order::firsts(order::keys(all)));
    order::distinct_is_no_longer(all);
    assert forall|k: int, m: int| 0 <= k < r.len() && 0 <= m < r.len() && k != m implies order::keys(
        r,
    )[k] != order::keys(r)[m] by {
        assert(order::keys(b)[k] == order::keys(r)[k] && order::keys(b)[m] == order::keys(r)[m]);
    }
    assert forall|k: int| 0 <= k < r.len() implies all.contains(#[trigger] r[k]) && on_topic(
        r[k],
        terms,
    ) by {
        assert(b.contains(b[k]));
        order::by_date_holds_the_same(f, b[k]);
        d.lemma_filter_contains_rev(p, b[k]);
        let m = choose|m: int| 0 <= m < f.len() && f[m] == b[k];
        assert(p(f[m]));
        assert(d.contains(b[k]));
    }
    assert forall|k: int, m: int| 0 <= k < m < r.len() implies !order::older(
        #[trigger] r[k].date(),
        #[trigger] r[m].date(),
    ) by {
        assert(!order::older(b[k].date(), b[m].date()));
    }
    if max >= all.len() && 0 <= i < all.len() && on_topic(all[i], terms) && (forall|j: int|
        0 <= j < i ==> (#[trigger] all[j]).arxiv_id@ != all[i].arxiv_id@) {
        assert forall|j: int| 0 <= j < i implies (#[trigger] all[j]).key() != all[i].key() by {
            assert(all[j].arxiv_id@ != all[i].arxiv_id@);
        }
        order::distinct_keeps_the_first(all, i);
        let k = choose|k: int| 0 <= k < d.len() && d[k] == all[i];
        assert(p(d[k]));
        assert(f.contains(d[k]));
        order::by_date_holds_the_same(f, all[i]);
        assert(f.len() <= d.len());
        assert(r == b);
    }
}

/// The elements of an entry have different names.
proof fn lemma_entry_elements_differ()
    ensures
        "id"@ != "title"@ && "id"@ != "summary"@ && "id"@ != "published"@ && "id"@ != "name"@,
        "title"@ != "summary"@ && "title"@ != "published"@ && "title"@ != "name"@,
        "summary"@ != "published"@ && "summary"@ != "name"@ && "published"@ != "name"@,
        "entry"@ != "author"@ && "entry"@ != "link"@ && "entry"@ != "category"@,
        "author"@ != "link"@ && "author"@ != "category"@ && "link"@ != "category"@,
        "entry"@ != "id"@ && "entry"@ != "title"@ && "entry"@ != "summary"@ && "entry"@
            != "published"@ && "entry"@ != "name"@,
        "author"@ != "id"@ && "author"@ != "title"@ && "author"@ != "summary"@ && "author"@
            != "published"@ && "author"@ != "name"@,
        "link"@ != "id"@ && "link"@ != "title"@ && "link"@ != "summary"@ && "link"@
            != "published"@ && "link"@ != "name"@,
        "category"@ != "id"@ && "category"@ != "title"@ && "category"@ != "summary"@
            && "category"@ != "published"@ && "category"@ != "name"@,
{
    reveal_strlit("id");
    reveal_strlit("title");
    reveal_strlit("summary");
    reveal_strlit("published");
    reveal_strlit("name");
    reveal_strlit("entry");
    reveal_strlit("author");
    reveal_strlit("link");
    reveal_strlit("category");
    assert("id"@.len() == 2 && "title"@.len() == 5 && "summary"@.len() == 7 && "published"@.len()
        == 9 && "name"@.len() == 4 && "entry"@.len() == 5 && "author"@.len() == 6
        && "link"@.len() == 4 && "category"@.len() == 8);
    assert("title"@[0] == 't' && "entry"@[0] == 'e' && "name"@[0] == 'n' && "link"@[0] == 'l');
}

/// Text fills the element of the open paper that it stands in: its title and its abstract without
/// further white space, its number, its date, or the name of an author; and nothing else.
pub proof fn texts_fill_a_paper(a: Atom, p: Paper, s: Seq<char>)
    requires
        a.paper == Some(p),
        text::trimmed(s).len() > 0,
    ensures
        ({
            let t = text::trimmed(s);
            let b = atom_step(a, Xml::Text(s));
            &&& b.paper is Some && b.papers == a.papers
            &&& a.tag == "title"@ ==> b.paper->0 == Paper { title: collapsed(t), ..p }
            &&& a.tag == "summary"@ && collapsed(t).len() <= 500 ==> b.paper->0 == Paper {
                abstract_text: collapsed(t),
                ..p
            }
            &&& a.tag == "summary"@ && collapsed(t).len() > 500 ==> b.paper->0 == Paper {
                abstract_text: collapsed(t).take(500),
                ..p
            }
            &&& a.tag == "published"@ && time::utc_time(t) is Some ==> b.paper->0 == Paper {
                published: time::utc_time(t),
                ..p
            }
            &&& a.tag == "published"@ && time::utc_time(t) is None ==> b.paper->0 == p
            &&& a.tag == "id"@ ==> b.paper->0.arxiv_id == paper_number(t) && b.paper->0.title
                == p.title && b.paper->0.abstract_text == p.abstract_text && b.paper->0.authors
                == p.authors
            &&& a.tag == "id"@ && p.url.len() > 0 ==> b.paper->0.url == p.url
            &&& a.tag == "id"@ && p.url.len() == 0 ==> text::ends(b.paper->0.url, paper_number(t))
            &&& a.tag == "name"@ && a.in_author ==> b.author == t && b.paper->0 == p
        }),
{
    lemma_entry_elements_differ();
    let t = text::trimmed(s);
    let u = "https://arxiv.org/abs/"@ + paper_number(t);
    assert(u.subrange(u.len() - paper_number(t).len(), u.len() as int) =~= paper_number(t));
}

/// An entry element with an author.
pub open spec fn entry_element(
    id: Seq<char>,
    title: Seq<char>,
    summary: Seq<char>,
    author: Seq<char>,
) -> Seq<Xml> {
    let none = Seq::<Attr>::empty();
    seq![
        Xml::Start { name: "entry"@, attrs: none },
        Xml::Start { name: "id"@, attrs: none },
        Xml::Text(id),
        Xml::End { name: "id"@ },
        Xml::Start { name: "title"@, attrs: none },
        Xml::Text(title),
        Xml::End { name: "title"@ },
        Xml::Start { name: "summary"@, attrs: none },
        Xml::Text(summary),
        Xml::End { name: "summary"@ },
        Xml::Start { name: "author"@, attrs: none },
        Xml::Start { name: "name"@, attrs: none },
        Xml::Text(author),
        Xml::End { name: "name"@ },
        Xml::End { name: "author"@ },
        Xml::End { name: "entry"@ },
    ]
}

/// Every entry of a reply is a paper behind those before it, with its title, its abstract, its
/// number and its author.
pub proof fn entries_are_papers(
    before: Seq<Xml>,
    id: Seq<char>,
    title: Seq<char>,
    summary: Seq<char>,
    author: Seq<char>,
)
    requires
        text::trimmed(id).len() > 0,
        text::trimmed(title).len() > 0,
        text::trimmed(summary).len() > 0,
        text::trimmed(author).len() > 0,
    ensures
        ({
            let had = atom_after(before).papers;
            let got = atom_after(before + entry_element(id, title, summary, author)).papers;
            &&& got.len() == had.len() + 1
            &&& got.take(had.len() as int) == had
            &&& got.last().title == collapsed(text::trimmed(title))
            &&& got.last().arxiv_id == paper_number(text::trimmed(id))
            &&& got.last().authors == seq![text::trimmed(author)]
            &&& got.last().abstract_text == text::shortened(collapsed(text::trimmed(summary)), 500)
            &&& got.last().published is None
            &&& text::ends(got.last().url, got.last().arxiv_id)
        }),
{
    lemma_entry_elements_differ();
    let e = entry_element(id, title, summary, author);
    let a0 = atom_after(before);
    let a1 = atom_step(a0, e[0]);
    let a2 = atom_step(a1, e[1]);
    let a3 = atom_step(a2, e[2]);
    let a4 = atom_step(a3, e[3]);
    let a5 = atom_step(a4, e[4]);
    let a6 = atom_step(a5, e[5]);
    let a7 = atom_step(a6, e[6]);
    let a8 = atom_step(a7, e[7]);
    let a9 = atom_step(a8, e[8]);
    let a10 = atom_step(a9, e[9]);
    let a11 = atom_step(a10, e[10]);
    let a12 = atom_step(a11, e[11]);
    let a13 = atom_step(a12, e[12]);
    let a14 = atom_step(a13, e[13]);
    let a15 = atom_step(a14, e[14]);
    let a16 = atom_step(a15, e[15]);
    assert(a1.paper == Some(blank_paper()));
    assert(a2.tag == "id"@);
    texts_fill_a_paper(a2, blank_paper(), id);
    assert(a4.paper == a3.paper && a5.tag == "title"@ && a5.paper == a3.paper);
    texts_fill_a_paper(a5, a5.paper->0, title);
    assert(a8.tag == "summary"@ && a8.paper == a6.paper);
    texts_fill_a_paper(a8, a8.paper->0, summary);
    assert(a11.in_author && a11.paper == a9.paper);
    assert(a12.tag == "name"@ && a12.in_author && a12.paper == a9.paper);
    texts_fill_a_paper(a12, a12.paper->0, author);
    assert(a14.author == text::trimmed(author) && a14.paper == a9.paper);
    assert(a15.paper->0.authors =~= seq![text::trimmed(author)]);
    assert(a16.papers == a0.papers.push(
        Paper { authors: few_authors(a15.paper->0.authors), ..a15.paper->0 },
    ));
    lemma_atom_steps(before, e, 1);
    lemma_atom_steps(before, e, 2);
    lemma_atom_steps(before, e, 3);
    lemma_atom_steps(before, e, 4);
    lemma_atom_steps(before, e, 5);
    lemma_atom_steps(before, e, 6);
    lemma_atom_steps(before, e, 7);
    lemma_atom_steps(before, e, 8);
    lemma_atom_steps(before, e, 9);
    lemma_atom_steps(before, e, 10);
    lemma_atom_steps(before, e, 11);
    lemma_atom_steps(before, e, 12);
    lemma_atom_steps(before, e, 13);
    lemma_atom_steps(before, e, 14);
    lemma_atom_steps(before, e, 15);
    lemma_atom_steps(before, e, 16);
    assert(before + e.take(0) =~= before);
    assert(before + e.take(16) =~= before + e);
    assert(a16.papers.take(a0.papers.len() as int) =~= a0.papers);
}

/// A reply after one more event of a list.
proof fn lemma_atom_steps(before: Seq<Xml>, e: Seq<Xml>, k: int)
    requires
        0 < k <= e.len(),
    ensures
        atom_after(before + e.take(k)) == atom_step(atom_after(before + e.take(k - 1)), e[k - 1]),
{
    let s = before + e.take(k);
    assert(s.drop_last() =~= before + e.take(k - 1));
    assert(s.last() == e[k - 1]);
}

/// A paper's address is that of its alternate link, and links of other kinds do not change it; a
/// category comes behind those before it, and an author too.
pub proof fn links_and_categories_are_taken(
    a: Atom,
    p: Paper,
    rel: Attr,
    href: Attr,
    term: Attr,
)
    requires
        a.paper == Some(p),
        xml::local_name(rel.name) == "rel"@,
        xml::local_name(href.name) == "href"@,
        xml::local_name(term.name) == "term"@,
        href.value.len() > 0,
    ensures
        rel.value == "alternate"@ ==> atom_step(
            a,
            Xml::Start { name: "link"@, attrs: seq![rel, href] },
        ).paper == Some(Paper { url: href.value, ..p }),
        rel.value != "alternate"@ ==> atom_step(
            a,
            Xml::Start { name: "link"@, attrs: seq![rel, href] },
        ).paper == Some(p),
        atom_step(a, Xml::Start { name: "category"@, attrs: seq![term] }).paper == Some(
            Paper { categories: p.categories.push(term.value), ..p },
        ),
        a.author.len() > 0 ==> atom_step(a, Xml::End { name: "author"@ }).paper == Some(
            Paper { authors: p.authors.push(a.author), ..p },
        ),
        a.author.len() == 0 ==> atom_step(a, Xml::End { name: "author"@ }).paper == Some(p),
{
    lemma_entry_elements_differ();
    reveal_strlit("rel");
    reveal_strlit("href");
    reveal_strlit("term");
    assert("rel"@.len() == 3 && "href"@.len() == 4);
    let attrs = seq![rel, href];
    assert(attrs.last() == href);
    assert(attrs[0] == rel && attrs[1] == href);
    if rel.value == "alternate"@ {
        assert(is_named(attrs[0], "rel"@));
    } else {
        assert(!is_alternate(attrs)) by {
            if is_alternate(attrs) {
                let i = choose|i: int|
                    0 <= i < attrs.len() && is_named(#[trigger] attrs[i], "rel"@)
                        && attrs[i].value == "alternate"@;
                assert(i == 0 || i == 1);
            }
        }
    }
    let f = |x: Attr| is_named(x, "term"@);
    let v = |x: Attr| x.value;
    reveal(Seq::filter);
    let one = seq![term];
    assert(one.drop_last() =~= Seq::<Attr>::empty());
    assert(one.drop_last().filter(f) =~= Seq::<Attr>::empty());
    assert(one.filter(f) =~= one);
    assert(one.map_values(v) =~= seq![term.value]);
    assert(p.categories + seq![term.value] =~= p.categories.push(term.value));
}

/// Up to three authors are all told; of more the first three are, and a mark behind them.
pub proof fn three_authors_are_told(authors: Seq<Seq<char>>)
    ensures
        authors.len() <= 3 ==> few_authors(authors) == authors,
        authors.len() > 3 ==> few_authors(authors).len() == 4 && few_authors(authors).take(3)
            == authors.take(3) && few_authors(authors)[3] == "et al."@,
{
    if authors.len() > 3 {
        assert(few_authors(authors).take(3) =~= authors.take(3));
    }
}

/// A term without a tilde is encoded as in any other address.
pub proof fn terms_are_encoded_as_queries(s: Seq<char>)
    requires
        !s.contains('~'),
    ensures
        encoded(s) == percent::query_text(s),
    decreases s.len(),
{
    if s.len() > 0 {
        let a = s.drop_last();
        assert(!a.contains('~')) by {
            if a.contains('~') {
                let i = choose|i: int| 0 <= i < a.len() && a[i] == '~';
                assert(s[i] == '~');
            }
        }
        terms_are_encoded_as_queries(a);
        assert(s[s.len() - 1] != '~');
        assert(s =~= a + seq![s.last()]);
        percent::query_text_of_both(a, seq![s.last()]);
        let one = seq![s.last()];
        assert(one.skip(1) =~= Seq::<char>::empty());
        assert(percent::query_text(one.skip(1)) =~= Seq::<char>::empty());
        assert(percent::query_text(one) =~= percent::query_char(s.last()));
    }
}

/// A query is tied to every word of the keyword that is longer than three bytes, in the title and
/// in the abstract, and to nothing where there is no such word.
pub proof fn queries_are_tied_to_the_keyword(kw: Seq<char>, w: Seq<char>)
    ensures
        text::words(kw).contains(w) && text::byte_count(w) > 3 ==> text::holds(
            anchor(kw),
            "ti:"@ + encoded(w),
        ) && text::holds(anchor(kw), "+OR+abs:"@ + encoded(w)) && text::begins(
            anchor(kw),
            "+AND+("@,
        ),
        (forall|x: Seq<char>| #[trigger] text::words(kw).contains(x) ==> text::byte_count(x) <= 3)
            ==> anchor(kw).len() == 0,
{
    broadcast use {text::holds_in_front, text::holds_at_end};

    let f = |w: Seq<char>| field_query(encoded(w));
    let ws = text::long_words(kw, 3);
    let parts = ws.map_values(f);
    if text::words(kw).contains(w) && text::byte_count(w) > 3 {
        text::long_words_are_words(kw, 3, w);
        let i = choose|i: int| 0 <= i < ws.len() && ws[i] == w;
        assert(parts[i] == field_query(encoded(w)));
        let all = text::joined(parts, "+OR+"@);
        text::joined_holds_each(parts, "+OR+"@, i);
        assert(anchor(kw) == "+AND+("@ + all + ")"@);
        assert(text::holds(anchor(kw), all));
        text::holds_within(anchor(kw), all, parts[i]);
        let a = "ti:"@ + encoded(w);
        let b = "+OR+abs:"@ + encoded(w);
        assert(parts[i] =~= a + b);
        text::holds_at_end(a, b);
        text::holds_itself(a);
        text::holds_in_front(a, b, a);
        text::holds_within(anchor(kw), parts[i], a);
        text::holds_within(anchor(kw), parts[i], b);
        assert(anchor(kw).subrange(0, "+AND+("@.len() as int) =~= "+AND+("@);
    }
    if forall|x: Seq<char>| #[trigger] text::words(kw).contains(x) ==> text::byte_count(x) <= 3 {
        if ws.len() > 0 {
            assert(ws.contains(ws[0]));
            text::long_words_are_words(kw, 3, ws[0]);
        }
        assert(ws.len() == 0);
    }
}

/// The papers of a reply that are kept are not older than the cutoff; one without a date is kept
/// too, and all are where there is no cutoff and enough are asked for.
pub proof fn recent_papers_are_kept(papers: Seq<ArxivPaper>, cutoff: Timestamp, max: nat, i: int)
    requires
        0 <= i < papers.len(),
        max >= papers.len(),
    ensures
        recent_papers(papers, None, max) == papers,
        papers[i].published is None ==> recent_papers(papers, Some(cutoff), max).contains(papers[i]),
        papers[i].published matches Some(t) ==> (!t.is_before(cutoff) ==> recent_papers(
            papers,
            Some(cutoff),
            max,
        ).contains(papers[i])),
        papers[i].published matches Some(t) ==> (t.is_before(cutoff) ==> !recent_papers(
            papers,
            Some(cutoff),
            max,
        ).contains(papers[i])),
{
    broadcast use vstd::seq_lib::group_filter_ensures;

    let q = |p: ArxivPaper| time::recent(p.published, None);
    assert forall|j: int| 0 <= j < papers.len() implies q(#[trigger] papers[j]) by {}
    lists::filter_of_all(papers, q);
    let p = |p: ArxivPaper| time::recent(p.published, Some(cutoff));
    let f = papers.filter(p);
    assert(f.len() <= papers.len());
    assert(recent_papers(papers, Some(cutoff), max) == f);
    if p(papers[i]) {
        assert(f.contains(papers[i]));
    }
    if f.contains(papers[i]) {
        let k = choose|k: int| 0 <= k < f.len() && f[k] == papers[i];
        assert(p(f[k]));
    }
}

/// The number of a paper is what stands behind the front of its address, without its version.
pub proof fn numbers_stand_behind_the_address(x: Seq<char>)
    requires
        !text::begins(x, "http://arxiv.org/abs/"@),
        !text::begins(x, "https://arxiv.org/abs/"@),
    ensures
        paper_number("http://arxiv.org/abs/"@ + x) == paper_number(x),
        paper_number("https://arxiv.org/abs/"@ + x) == paper_number(x),
        paper_number(x) == text::trimmed(pattern::first_replaced(r"v\d+$"@, x, ""@)),
{
    let a = "http://arxiv.org/abs/"@;
    let b = "https://arxiv.org/abs/"@;
    assert(a.len() == 21 && b.len() == 22 && a[4] == ':' && b[4] == 's') by {
        reveal_strlit("http://arxiv.org/abs/");
        reveal_strlit("https://arxiv.org/abs/");
    }
    let s = a + x;
    assert(s.subrange(0, 21) =~= a);
    assert(s.skip(21) =~= x);
    assert(text::without_prefixes(s, a) == text::without_prefixes(x, a));
    assert(text::without_prefixes(x, a) == x);
    assert(text::without_prefixes(x, b) == x);
    let t = b + x;
    assert(t.subrange(0, 22) =~= b);
    assert(t.skip(22) =~= x);
    assert(!text::begins(t, a)) by {
        if text::begins(t, a) {
            assert(t.subrange(0, 21)[4] == a[4]);
        }
    }
    assert(text::without_prefixes(t, a) == t);
    assert(text::without_prefixes(t, b) == text::without_prefixes(x, b));
}

/// The terms that were read are searched, all and in order, and the keyword alone where there are
/// none.
pub proof fn terms_are_searched(kw: Seq<char>, terms: Seq<Seq<char>>)
    ensures
        terms.len() > 0 ==> terms_or(kw, Some(terms)) == terms,
        terms.len() == 0 ==> terms_or(kw, Some(terms)) == seq![kw],
        terms_or(kw, None) == seq![kw],
        terms_or(kw, Some(terms)).len() > 0,
{
}

/// The words of a text are all there in it with single spaces between them, and nothing else.
pub proof fn collapsing_keeps_the_words(s: Seq<char>, i: int)
    requires
        0 <= i < text::words(s).len(),
    ensures
        text::holds(collapsed(s), text::words(s)[i]),
        text::words(s).len() == 1 ==> collapsed(s) == text::words(s)[0],
        text::words(s).len() == 2 ==> collapsed(s) == text::words(s)[0] + seq![' '] + text::words(
            s,
        )[1],
{
    text::joined_holds_each(text::words(s), " "@, i);
    reveal_strlit(" ");
    assert(" "@ =~= seq![' ']);
    let ws = text::words(s);
    if ws.len() == 2 {
        assert(ws.drop_last().len() == 1);
        assert(text::joined(ws.drop_last(), " "@) == ws[0]);
    }
}

/// Papers are searched in wider and wider windows, and in the end without a limit.
pub proof fn windows_become_wider()
    ensures
        0 < DATE_WINDOWS@[0] < DATE_WINDOWS@[1],
        DATE_WINDOWS@[2] == 0,
{
}

/// Papers begin blank, and what stands outside of entries is passed over.
pub proof fn papers_begin_blank(a: Atom, t: Seq<char>, name: Seq<char>, attrs: Seq<Attr>)
    ensures
        ({
            let p = atom_step(a, Xml::Start { name: "entry"@, attrs }).paper;
            p matches Some(b) && b.title.len() == 0 && b.arxiv_id.len() == 0 && b.url.len() == 0
                && b.published is None && b.authors.len() == 0 && b.abstract_text.len() == 0
                && b.categories.len() == 0
        }),
        a.paper is None ==> atom_step(a, Xml::Text(t)) == a,
        a.paper is None && name != "entry"@ ==> atom_step(a, Xml::Start { name, attrs }).paper is None,
        a.paper is None ==> atom_step(a, Xml::End { name }).papers == a.papers,
{
}

/// Where fewer papers are asked for, the first of those are chosen that would be otherwise, as many
/// as are asked for.
pub proof fn fewer_papers_are_the_first(
    results: Seq<Vec<ArxivPaper>>,
    terms: Seq<Seq<char>>,
    max: nat,
    more: nat,
)
    requires
        max <= more,
    ensures
        chosen_papers(results, terms, max) == order::cut(chosen_papers(results, terms, more), max),
        chosen_papers(results, terms, more).len() >= max ==> chosen_papers(results, terms, max).len()
            == max,
{
    order::cutting_twice(
        order::by_date(
            order::distinct(order::flat(results)).filter(|p: ArxivPaper| on_topic(p, terms)),
        ),
        more,
        max,
    );
}

/// Where fewer papers of a reply are asked for, the first of them are kept.
pub proof fn fewer_recent_papers_are_the_first(
    papers: Seq<ArxivPaper>,
    cutoff: Option<Timestamp>,
    max: nat,
    more: nat,
)
    requires
        max <= more,
    ensures
        recent_papers(papers, cutoff, max) == order::cut(recent_papers(papers, cutoff, more), max),
        recent_papers(papers, cutoff, more).len() >= max ==> recent_papers(papers, cutoff, max).len()
            == max,
{
    order::cutting_twice(
        papers.filter(|p: ArxivPaper| time::recent(p.published, cutoff)),
        more,
        max,
    );
}

} // verus!
