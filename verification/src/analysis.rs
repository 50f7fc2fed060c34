//! The sections of an analysis.
use vstd::prelude::*;
use crate::json;
use crate::lists;
use crate::percent;
use crate::text;
use crate::text::same;

verus! {

// ── Sections ───────────────────────────────────────────────────────────────────

/// Whether a line begins a section: a digit and a dot stand at its front.
pub open spec fn is_heading(line: Seq<char>) -> bool {
    let t = text::trimmed(line);
    t.len() >= 2 && '0' <= t[0] <= '9' && t[1] == '.'
}

/// The number of a section by the line that begins it.
pub open spec fn heading_number(line: Seq<char>) -> nat {
    (text::trimmed(line)[0] as nat - '0' as nat) as nat
}

/// How far the reading of an analysis has come: the sections that are complete, the number of the
/// one that is open, and its lines. Zero is no section.
#[verifier::ext_equal]
pub struct Sections {
    pub done: Seq<(nat, Seq<Seq<char>>)>,
    pub number: nat,
    pub lines: Seq<Seq<char>>,
}

/// The sections after lines.
pub open spec fn sections_after(lines: Seq<Seq<char>>) -> Sections
    decreases lines.len(),
{
    if lines.len() == 0 {
        Sections { done: Seq::empty(), number: 0, lines: Seq::empty() }
    } else {
        let s = sections_after(lines.drop_last());
        let l = lines.last();
        if is_heading(l) {
            Sections { done: completed(s), number: heading_number(l), lines: Seq::empty() }
        } else {
            Sections { lines: s.lines.push(l), ..s }
        }
    }
}

/// The sections with the open one complete.
pub open spec fn completed(s: Sections) -> Seq<(nat, Seq<Seq<char>>)> {
    if s.number > 0 {
        s.done.push((s.number, s.lines))
    } else {
        s.done
    }
}

/// The sections of an analysis: those with a number but zero, each with the lines below it.
pub open spec fn sections_of(s: Seq<char>) -> Seq<(nat, Seq<Seq<char>>)> {
    completed(sections_after(text::line_seq(s)))
}

/// A section: its number and the lines below it.
pub struct Section {
    pub number: u32,
    pub lines: Vec<String>,
}

impl View for Section {
    type V = (nat, Seq<Seq<char>>);

    open spec fn view(&self) -> (nat, Seq<Seq<char>>) {
        (self.number as nat, text::views(self.lines@))
    }
}

/// The number of the section that a line begins, if it begins one.
fn read_heading(line: &str) -> (r: Option<u32>)
    ensures
        match r {
            Some(n) => is_heading(line@) && n == heading_number(line@),
            None => !is_heading(line@),
        },
{
    let v = text::chars_of(&text::trim(line));
    if v.len() >= 2 && '0' <= v[0] && v[0] <= '9' && v[1] == '.' {
        Some(v[0] as u32 - '0' as u32)
    } else {
        None
    }
}

/// The sections of an analysis.
pub fn parse_sections(s: &str) -> (r: Vec<Section>)
    ensures
        lists::views(r@) == sections_of(s@),
{
    let all = text::lines(s);
    let ghost vs = text::views(all@);
    let mut done: Vec<Section> = Vec::new();
    let mut number: u32 = 0;
    let mut lines: Vec<String> = Vec::new();
    let mut i: usize = 0;
    assert(lists::views(done@) =~= Seq::empty());
    assert(text::views(lines@) =~= Seq::empty());
    while i < all.len()
        invariant
            i <= all@.len(),
            vs == text::views(all@),
            sections_after(vs.take(i as int)) == (Sections {
                done: lists::views(done@),
                number: number as nat,
                lines: text::views(lines@),
            }),
        decreases all.len() - i,
    {
        broadcast use {text::views_push, lists::views_push};

        proof {
            assert(vs.take(i + 1).drop_last() =~= vs.take(i as int));
            assert(vs.take(i + 1).last() == all@[i as int]@);
        }
        match read_heading(&all[i]) {
            Some(n) => {
                let below = lines;
                lines = Vec::new();
                assert(text::views(lines@) =~= Seq::empty());
                if number > 0 {
                    done.push(Section { number, lines: below });
                }
                number = n;
            },
            None => {
                lines.push(all[i].clone());
            },
        }
        i += 1;
    }
    proof {
        lists::take_all(vs);
    }
    if number > 0 {
        let last = Section { number, lines };
        proof {
            lists::views_push(done@, last);
        }
        done.push(last);
    }
    done
}

/// Every section has a number from one to nine, and none of its lines begins a section.
pub proof fn sections_are_split_at_headings(lines: Seq<Seq<char>>)
    ensures
        sections_after(lines).number <= 9,
        forall|k: int|
            0 <= k < sections_after(lines).lines.len() ==> !is_heading(
                #[trigger] sections_after(lines).lines[k],
            ),
        forall|i: int| #![trigger sections_after(lines).done[i]]
            0 <= i < sections_after(lines).done.len() ==> 1 <= sections_after(lines).done[i].0 <= 9
                && forall|k: int|
                0 <= k < sections_after(lines).done[i].1.len() ==> !is_heading(
                    #[trigger] sections_after(lines).done[i].1[k],
                ),
    decreases lines.len(),
{
    if lines.len() > 0 {
        sections_are_split_at_headings(lines.drop_last());
    }
}

/// The colour and the title of a section.
pub open spec fn section_style(number: nat) -> (Seq<char>, Seq<char>) {
    if number == 2 {
        ("green"@, "核心競爭優勢"@)
    } else if number == 3 {
        ("red"@, "主要劣勢與風險"@)
    } else if number == 4 {
        ("cyan"@, "選型建議"@)
    } else if number == 5 {
        ("yellow"@, "總結"@)
    } else {
        ("white"@, ""@)
    }
}

/// The colour and the title of a section.
pub fn style_of_section(number: u32) -> (r: (&'static str, &'static str))
    ensures
        (r.0@, r.1@) == section_style(number as nat),
{
    if number == 2 {
        ("green", "核心競爭優勢")
    } else if number == 3 {
        ("red", "主要劣勢與風險")
    } else if number == 4 {
        ("cyan", "選型建議")
    } else if number == 5 {
        ("yellow", "總結")
    } else {
        ("white", "")
    }
}

// ── Lines of a section ─────────────────────────────────────────────────────────

/// A line of a section as it is shown.
pub enum Piece {
    /// A point with a key before its text; `gap` says whether a blank line comes first.
    Keyed { gap: bool, head: String, pad: &'static str, text: String },
    /// A point with its text.
    Marked { gap: bool, mark: &'static str, text: String },
    /// A text without a mark.
    Plain(String),
}

/// A line of a section as it is shown, by its texts.
pub enum Shown {
    Keyed { gap: bool, head: Seq<char>, pad: Seq<char>, text: Seq<char> },
    Marked { gap: bool, mark: Seq<char>, text: Seq<char> },
    Plain(Seq<char>),
}

impl View for Piece {
    type V = Shown;

    open spec fn view(&self) -> Shown {
        match self {
            Piece::Keyed { gap, head, pad, text } => Shown::Keyed {
                gap: *gap,
                head: head@,
                pad: pad@,
                text: text@,
            },
            Piece::Marked { gap, mark, text } => Shown::Marked {
                gap: *gap,
                mark: mark@,
                text: text@,
            },
            Piece::Plain(t) => Shown::Plain(t@),
        }
    }
}

/// The mark of a point; a point below another is indented.
pub open spec fn mark_text(sub: bool) -> Seq<char> {
    if sub {
        "  ›"@
    } else {
        "•"@
    }
}

/// A point as it is shown: what stands before the first full-width colon is its key.
pub open spec fn point(gap: bool, sub: bool, content: Seq<char>) -> Shown {
    match text::split_at_first(content, '：') {
        Some(p) => Shown::Keyed {
            gap,
            head: mark_text(sub) + " "@ + text::trimmed(p.0) + "："@,
            pad: if sub {
                "      "@
            } else {
                "    "@
            },
            text: text::trimmed(p.1),
        },
        None => Shown::Marked { gap, mark: mark_text(sub), text: content },
    }
}

/// How far the lines of a section have come: what is shown, whether a dash alone awaits its text
/// (and whether it is indented), and whether a point was shown.
#[verifier::ext_equal]
pub struct Lines {
    pub shown: Seq<Shown>,
    pub pending: Option<bool>,
    pub pointed: bool,
}

/// A line without marks of emphasis.
pub open spec fn clean_line(raw: Seq<char>) -> Seq<char> {
    text::replaced(raw, "**"@, ""@)
}

/// Whether a line is indented by two bytes or more.
pub open spec fn is_indented(clean: Seq<char>) -> bool {
    text::byte_count(clean) - text::byte_count(text::trimmed_start(clean)) >= 2
}

/// The lines of a section after one more.
pub open spec fn with_line(s: Lines, raw: Seq<char>) -> Lines {
    let clean = clean_line(raw);
    let t = text::trimmed(clean);
    let sub = is_indented(clean);
    if t == "-"@ {
        Lines { pending: Some(sub), ..s }
    } else if t.len() == 0 {
        s
    } else {
        match text::after_prefix(t, "- "@) {
            Some(rest) => Lines {
                shown: s.shown.push(point(s.pointed, sub, rest)),
                pointed: true,
                ..s
            },
            None => match s.pending {
                Some(p) => Lines {
                    shown: s.shown.push(point(s.pointed, p, t)),
                    pending: None,
                    pointed: true,
                },
                None => Lines { shown: s.shown.push(Shown::Plain(t)), ..s },
            },
        }
    }
}

/// The lines of a section.
pub open spec fn lines_after(raw: Seq<Seq<char>>) -> Lines
    decreases raw.len(),
{
    if raw.len() == 0 {
        Lines { shown: Seq::empty(), pending: None, pointed: false }
    } else {
        with_line(lines_after(raw.drop_last()), raw.last())
    }
}

/// A point as it is shown.
fn make_point(gap: bool, sub: bool, content: &str) -> (r: Piece)
    ensures
        r@ == point(gap, sub, content@),
{
    let mark = if sub {
        "  ›"
    } else {
        "•"
    };
    match text::split_once(content, '：') {
        Some(p) => {
            let pad = if sub {
                "      "
            } else {
                "    "
            };
            Piece::Keyed {
                gap,
                head: text::concat4(mark, " ", &text::trim(&p.0), "："),
                pad,
                text: text::trim(&p.1),
            }
        },
        None => Piece::Marked { gap, mark, text: content.to_owned() },
    }
}

/// A start of a text takes no more bytes than the text.
proof fn lemma_trim_shortens(s: Seq<char>)
    ensures
        text::byte_count(text::trimmed_start(s)) <= text::byte_count(s),
{
    text::trimmed_start_shape(s);
    let k = s.len() - text::trimmed_start(s).len();
    assert(s =~= s.take(k) + s.skip(k));
    percent::encode_utf8_concat(s.take(k), s.skip(k));
}

/// The lines of a section as they are shown: points under their marks, a dash alone joined with
/// the line behind it, and blank lines left out.
pub fn section_pieces(raw: &Vec<String>) -> (r: Vec<Piece>)
    ensures
        lists::views(r@) == lines_after(text::views(raw@)).shown,
{
    let ghost vs = text::views(raw@);
    let mut r: Vec<Piece> = Vec::new();
    let mut pending: Option<bool> = None;
    let mut pointed = false;
    let mut i: usize = 0;
    assert(lists::views(r@) =~= Seq::empty());
    proof {
        reveal_strlit("**");
    }
    while i < raw.len()
        invariant
            i <= raw@.len(),
            vs == text::views(raw@),
            "**"@.len() > 0,
            lines_after(vs.take(i as int)) == (Lines {
                shown: lists::views(r@),
                pending,
                pointed,
            }),
        decreases raw.len() - i,
    {
        broadcast use lists::views_push;

        proof {
            assert(vs.take(i + 1).drop_last() =~= vs.take(i as int));
            assert(vs.take(i + 1).last() == raw@[i as int]@);
        }
        let clean = text::replace(&raw[i], "**", "");
        let t = text::trim(&clean);
        proof {
            lemma_trim_shortens(clean@);
        }
        let sub = text::byte_len(&clean) - text::byte_len(&text::trim_start(&clean)) >= 2;
        if same(&t, "-") {
            pending = Some(sub);
        } else if !text::is_empty(&t) {
            match text::strip_prefix(&t, "- ") {
                Some(rest) => {
                    r.push(make_point(pointed, sub, &rest));
                    pointed = true;
                },
                None => match pending {
                    Some(p) => {
                        r.push(make_point(pointed, p, &t));
                        pending = None;
                        pointed = true;
                    },
                    None => {
                        r.push(Piece::Plain(t));
                    },
                },
            }
        }
        i += 1;
    }
    proof {
        lists::take_all(vs);
    }
    r
}

// ── Rivals ─────────────────────────────────────────────────────────────────────

/// A product among its rivals.
pub struct CompetitorRow {
    pub type_: String,
    pub name: String,
    pub positioning: String,
    pub pros: String,
    pub cons: String,
}

/// The name of a product in the table of rivals: the one that is analysed is marked.
pub fn rival_name(row: &CompetitorRow, target: &str) -> (r: String)
    ensures
        r@ == (if row.name@ == target@ {
            "▶ "@ + row.name@
        } else {
            row.name@
        }),
{
    if same(&row.name, target) {
        text::concat2("▶ ", &row.name)
    } else {
        row.name.clone()
    }
}

/// A text up to the last of its characters that is `c`.
pub open spec fn up_to_last(s: Seq<char>, c: char) -> Option<Seq<char>>
    decreases s.len(),
{
    if s.len() == 0 {
        None
    } else if s.last() == c {
        Some(s)
    } else {
        up_to_last(s.drop_last(), c)
    }
}

/// The part of a reply that is read as a list of rivals: from the first opening bracket of the
/// text in its code fence to the last closing one.
pub open spec fn rivals_part(reply: Seq<char>) -> Seq<char> {
    let s = text::from_first(json::unfenced(reply), "["@);
    match up_to_last(s, ']') {
        Some(x) => x,
        None => s,
    }
}

/// The part of a reply that is read as a list of rivals.
pub fn rivals_json(reply: &str) -> (r: String)
    ensures
        r@ == rivals_part(reply@),
{
    let s = text::skip_to(&json::strip_code_fences(reply), "[");
    let v = text::chars_of(&s);
    let mut i: usize = v.len();
    assert(s@.take(i as int) =~= s@);
    while i > 0
        invariant
            i <= v@.len(),
            v@ == s@,
            s@ == text::from_first(json::unfenced(reply@), "["@),
            up_to_last(s@, ']') == up_to_last(s@.take(i as int), ']'),
        decreases i,
    {
        if v[i - 1] == ']' {
            let r = text::string_of(&v, 0, i);
            assert(r@ =~= s@.take(i as int));
            return r;
        }
        assert(s@.take(i as int).drop_last() =~= s@.take(i - 1));
        i -= 1;
    }
    s
}

// ── Laws ─────────────────────────────────────────────────────────────────────

/// The lines below a heading are those of its section, up to the next heading.
pub proof fn lines_stand_below_their_heading(
    before: Seq<Seq<char>>,
    heading: Seq<char>,
    below: Seq<Seq<char>>,
)
    requires
        is_heading(heading),
        forall|i: int| 0 <= i < below.len() ==> !is_heading(#[trigger] below[i]),
    ensures
        sections_after(before + seq![heading] + below).number == heading_number(heading),
        sections_after(before + seq![heading] + below).lines == below,
        sections_after(before + seq![heading] + below).done == completed(sections_after(before)),
        heading_number(heading) > 0 ==> completed(sections_after(before + seq![heading] + below))
            == completed(sections_after(before)).push((heading_number(heading), below)),
    decreases below.len(),
{
    let s = before + seq![heading] + below;
    if below.len() == 0 {
        assert(s.drop_last() =~= before);
        assert(s.last() == heading);
        assert(sections_after(s).lines =~= below);
    } else {
        let b = below.drop_last();
        assert(s.drop_last() =~= before + seq![heading] + b);
        assert(s.last() == below.last());
        assert forall|i: int| 0 <= i < b.len() implies !is_heading(#[trigger] b[i]) by {
            assert(!is_heading(below[i]));
        }
        lines_stand_below_their_heading(before, heading, b);
        assert(!is_heading(below[below.len() - 1]));
        assert(b.push(below.last()) =~= below);
    }
}

/// A line with a digit and a dot at its front is a heading with that digit for its number, whatever
/// follows and whatever white space stands before it.
pub proof fn headings_begin_with_a_number(line: Seq<char>)
    ensures
        is_heading(line) <==> text::trimmed(line).len() >= 2 && '0' <= text::trimmed(line)[0] <= '9'
            && text::trimmed(line)[1] == '.',
        is_heading(line) ==> heading_number(line) <= 9,
        is_heading(line) && text::trimmed(line)[0] == '2' ==> heading_number(line) == 2,
        is_heading(line) && text::trimmed(line)[0] == '5' ==> heading_number(line) == 5,
{
}

/// A line with a dash is shown as a point with its text, one without is shown plainly, and a blank
/// line is not shown; a dash alone waits for the line behind it. Nothing that was shown changes.
pub proof fn lines_are_shown(s: Lines, raw: Seq<char>, rest: Seq<char>)
    ensures
        ({
            let t = text::trimmed(clean_line(raw));
            let r = with_line(s, raw);
            &&& t.len() == 0 ==> r.shown == s.shown
            &&& t == "-"@ ==> r.shown == s.shown && r.pending is Some
            &&& t.len() > 0 && t != "-"@ ==> r.shown.len() == s.shown.len() + 1 && r.shown.take(
                s.shown.len() as int,
            ) == s.shown
            &&& t == "- "@ + rest && t != "-"@ ==> (r.shown.last() is Keyed || r.shown.last() is Marked)
                && shown_text(r.shown.last(), rest)
            &&& t.len() > 0 && t != "-"@ && !text::begins(t, "- "@) && s.pending is None ==> r.shown.last()
                == Shown::Plain(t)
            &&& t.len() > 0 && t != "-"@ && !text::begins(t, "- "@) && s.pending is Some
                ==> r.pending is None && shown_text(r.shown.last(), t)
        }),
{
    let t = text::trimmed(clean_line(raw));
    let r = with_line(s, raw);
    let sub = is_indented(clean_line(raw));
    reveal_strlit("-");
    reveal_strlit("- ");
    if t.len() > 0 && t != "-"@ {
        assert(r.shown.take(s.shown.len() as int) =~= s.shown);
    }
    if t == "- "@ + rest && t != "-"@ {
        assert(t.subrange(0, 2) =~= "- "@);
        assert(t.skip(2) =~= rest);
        lemma_point_shows(s.pointed, sub, rest);
    }
    if t.len() > 0 && t != "-"@ && !text::begins(t, "- "@) && s.pending is Some {
        lemma_point_shows(s.pointed, s.pending->0, t);
    }
}

/// Whether a point shows a text: all of it, or its key in the head and what follows the colon
/// below it.
pub open spec fn shown_text(p: Shown, content: Seq<char>) -> bool {
    match p {
        Shown::Marked { text, .. } => text == content && !content.contains('：'),
        Shown::Keyed { head, text: below, .. } => exists|key: Seq<char>, rest: Seq<char>|
            #![trigger text::trimmed(key), text::trimmed(rest)]
            content == key + seq!['：'] + rest && text::holds(head, text::trimmed(key)) && below
                == text::trimmed(rest),
        Shown::Plain(_) => false,
    }
}

/// A point shows its text.
proof fn lemma_point_shows(gap: bool, sub: bool, content: Seq<char>)
    ensures
        shown_text(point(gap, sub, content), content),
{
    broadcast use {text::holds_in_front, text::holds_at_end};

    let seps = seq!['：'];
    text::sep_from_bounds(content, seps, 0);
    let k = text::sep_from(content, seps, 0);
    match text::split_at_first(content, '：') {
        Some(p) => {
            assert(seps.contains(content[k]));
            assert(content[k] == '：');
            assert(content =~= p.0 + seq!['：'] + p.1);
            let head = mark_text(sub) + " "@ + text::trimmed(p.0) + "："@;
            assert(text::holds(head, text::trimmed(p.0)));
            assert(text::trimmed(p.1) == text::trimmed(p.1));
        },
        None => {
            assert(!content.contains('：')) by {
                if content.contains('：') {
                    let i = choose|i: int| 0 <= i < content.len() && content[i] == '：';
                    assert(seps[0] == content[i]);
                    assert(seps.contains(content[i]));
                }
            }
        },
    }
}

/// The part that is read as a list of rivals ends with the last closing bracket, and what stands
/// behind it plays no part.
pub proof fn lists_end_at_the_last_bracket(s: Seq<char>, tail: Seq<char>)
    requires
        s.len() > 0,
        s.last() == ']',
        !tail.contains(']'),
    ensures
        up_to_last(s + tail, ']') == Some(s),
        up_to_last(tail, ']') is None,
    decreases tail.len(),
{
    if tail.len() == 0 {
        assert(s + tail =~= s);
    } else {
        let t = tail.drop_last();
        assert(!t.contains(']')) by {
            if t.contains(']') {
                let i = choose|i: int| 0 <= i < t.len() && t[i] == ']';
                assert(tail[i] == ']');
            }
        }
        assert(tail[tail.len() - 1] != ']');
        assert((s + tail).drop_last() =~= s + t);
        assert((s + tail).last() == tail.last());
        lists_end_at_the_last_bracket(s, t);
    }
}

} // verus!
