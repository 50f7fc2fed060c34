//! Panels on a terminal.
use vstd::prelude::*;
use crate::lists;
use crate::text;
use crate::text::same;

verus! {

/// The width of a panel in columns.
pub const WIDTH: usize = 76;

/// The width between the borders of a panel.
pub const INNER: usize = 74;

/// The width of the text in a panel.
pub const AVAIL: usize = 72;

/// How many columns a text takes, as `UnicodeWidthStr::width` of unicode-width counts them.
pub uninterp spec fn columns(s: Seq<char>) -> usize;

/// How many columns a character takes, as `UnicodeWidthChar::width` of unicode-width counts
/// them; `None` for a control character.
pub uninterp spec fn char_columns(c: char) -> Option<usize>;

/// `UnicodeWidthStr::width`: a function of the text alone.
#[verifier::external_body]
pub(crate) fn display_width(s: &str) -> (r: usize)
    ensures
        r == columns(s@),
{
    unicode_width::UnicodeWidthStr::width(s)
}

/// `UnicodeWidthChar::width`: a function of the character alone.
#[verifier::external_body]
pub(crate) fn char_width(c: char) -> (r: Option<usize>)
    ensures
        r == char_columns(c),
{
    unicode_width::UnicodeWidthChar::width(c)
}

/// How many columns a character counts for: a control character counts for one.
pub open spec fn cell(c: char) -> nat {
    match char_columns(c) {
        Some(n) => n as nat,
        None => 1,
    }
}

// ── Wrapping ───────────────────────────────────────────────────────────────────

/// How far the wrapping of a text has come.
#[verifier::ext_equal]
pub struct Wrap {
    /// The lines that are complete.
    pub lines: Seq<Seq<char>>,
    /// The line that is open.
    pub current: Seq<char>,
    /// How many columns the open line takes.
    pub col: nat,
}

/// The open line is complete.
pub open spec fn broken(w: Wrap) -> Wrap {
    Wrap { lines: w.lines.push(w.current), current: Seq::empty(), col: 0 }
}

/// One more character of a word that is wider than a line.
pub open spec fn with_char(w: Wrap, c: char, max_w: nat) -> Wrap {
    let v = if w.col + cell(c) > max_w && w.col > 0 {
        broken(w)
    } else {
        w
    };
    Wrap { current: v.current.push(c), col: v.col + cell(c), ..v }
}

/// The characters of a word that is wider than a line.
pub open spec fn with_chars(w: Wrap, s: Seq<char>, max_w: nat) -> Wrap
    decreases s.len(),
{
    if s.len() == 0 {
        w
    } else {
        with_char(with_chars(w, s.drop_last(), max_w), s.last(), max_w)
    }
}

/// One more word: it stands behind a space on the open line where it fits there, or else on the
/// next line; a word that is wider than a line is broken between characters.
pub open spec fn with_word(w: Wrap, word: Seq<char>, max_w: nat) -> Wrap {
    if columns(word) > max_w {
        with_chars(
            if w.col > 0 {
                broken(w)
            } else {
                w
            },
            word,
            max_w,
        )
    } else if w.col == 0 {
        Wrap { current: w.current + word, col: columns(word) as nat, ..w }
    } else if w.col + 1 + columns(word) <= max_w {
        Wrap { current: w.current.push(' ') + word, col: w.col + 1 + columns(word) as nat, ..w }
    } else {
        Wrap { current: word, col: columns(word) as nat, ..broken(w) }
    }
}

/// The words of a text.
pub open spec fn with_words(words: Seq<Seq<char>>, max_w: nat) -> Wrap
    decreases words.len(),
{
    if words.len() == 0 {
        Wrap { lines: Seq::empty(), current: Seq::empty(), col: 0 }
    } else {
        with_word(with_words(words.drop_last(), max_w), words.last(), max_w)
    }
}

/// The lines of a wrapped text; there is at least one.
pub open spec fn wrapped(s: Seq<char>, max_w: nat) -> Seq<Seq<char>> {
    let w = with_words(text::words(s), max_w);
    let lines = if w.current.len() > 0 {
        w.lines.push(w.current)
    } else {
        w.lines
    };
    if lines.len() == 0 {
        seq![Seq::empty()]
    } else {
        lines
    }
}

/// A wrapper of texts.
struct Wrapper {
    lines: Vec<String>,
    current: String,
    col: usize,
}

impl Wrapper {
    /// How far the wrapping has come.
    spec fn state(&self) -> Wrap {
        Wrap { lines: text::views(self.lines@), current: self.current@, col: self.col as nat }
    }

    /// Completes the open line.
    fn push_line(&mut self)
        ensures
            final(self).state() == broken(old(self).state()),
    {
        let line = self.current.clone();
        proof {
            text::views_push(self.lines@, line);
        }
        self.lines.push(line);
        self.current = String::new();
        self.col = 0;
    }

    /// Takes a character of a word that is wider than a line.
    fn push_char(&mut self, c: char, max_w: usize)
        ensures
            final(self).state() == with_char(old(self).state(), c, max_w as nat),
    {
        let cw: usize = match char_width(c) {
            Some(n) => n,
            None => 1,
        };
        if self.col > 0 && (cw > max_w || self.col > max_w - cw) {
            self.push_line();
        }
        self.current.push(c);
        self.col = self.col + cw;
    }

    /// Takes a word.
    fn push_word(&mut self, word: &str, max_w: usize)
        ensures
            final(self).state() == with_word(old(self).state(), word@, max_w as nat),
    {
        let ww = display_width(word);
        if ww > max_w {
            if self.col > 0 {
                self.push_line();
            }
            let ghost begun = self.state();
            for c in it: word.chars()
                invariant
                    it.seq() == word@,
                    self.state() == with_chars(begun, word@.take(it.index() as int), max_w as nat),
            {
                proof {
                    let i = it.index() as int;
                    assert(word@.take(i + 1).drop_last() =~= word@.take(i));
                    assert(word@.take(i + 1).last() == c);
                }
                self.push_char(c, max_w);
            }
            assert(word@.take(word@.len() as int) =~= word@);
        } else if self.col == 0 {
            self.current.append(word);
            self.col = ww;
        } else if self.col < max_w && ww <= max_w - self.col - 1 {
            self.current.push(' ');
            self.current.append(word);
            self.col = self.col + 1 + ww;
        } else {
            self.push_line();
            self.current = word.to_owned();
            self.col = ww;
        }
    }
}

/// Wraps a text at words, and words that are too wide between characters.
pub fn wrap_display(s: &str, max_w: usize) -> (r: Vec<String>)
    ensures
        text::views(r@) == wrapped(s@, max_w as nat),
{
    let words = text::split_whitespace(s);
    let ghost all = text::views(words@);
    let mut w = Wrapper { lines: Vec::new(), current: String::new(), col: 0 };
    let mut i: usize = 0;
    assert(w.state() =~= with_words(all.take(0), max_w as nat));
    while i < words.len()
        invariant
            i <= words@.len(),
            all == text::views(words@),
            w.state() == with_words(all.take(i as int), max_w as nat),
        decreases words.len() - i,
    {
        proof {
            assert(all.take(i + 1).drop_last() =~= all.take(i as int));
            assert(all.take(i + 1).last() == words@[i as int]@);
        }
        w.push_word(&words[i], max_w);
        i += 1;
    }
    proof {
        lists::take_all(all);
    }
    let mut lines = w.lines;
    if !text::is_empty(&w.current) {
        proof {
            text::views_push(lines@, w.current);
        }
        lines.push(w.current);
    }
    assert(text::views(lines@).len() == lines@.len());
    if lines.len() == 0 {
        lines.push(String::new());
        assert(text::views(lines@) =~= seq![Seq::empty()]);
    }
    lines
}

/// The characters of lines that are not white space, in order.
pub open spec fn ink(lines: Seq<Seq<char>>) -> Seq<char>
    decreases lines.len(),
{
    if lines.len() == 0 {
        Seq::empty()
    } else {
        ink(lines.drop_last()) + visible(lines.last())
    }
}

/// The characters of a text that are not white space, in order.
pub open spec fn visible(s: Seq<char>) -> Seq<char> {
    s.filter(|c: char| !text::is_space(c))
}

/// The characters of a wrapping that are not white space.
spec fn wrap_ink(w: Wrap) -> Seq<char> {
    ink(w.lines) + visible(w.current)
}

/// Completing a line loses no character.
proof fn lemma_broken_ink(w: Wrap)
    ensures
        wrap_ink(broken(w)) == wrap_ink(w),
{
    assert(broken(w).lines.drop_last() =~= w.lines);
    reveal(Seq::filter);
    assert(visible(Seq::<char>::empty()) =~= Seq::empty());
    assert(wrap_ink(broken(w)) =~= wrap_ink(w));
}

/// The visible characters of two texts one after another.
proof fn lemma_visible_add(a: Seq<char>, b: Seq<char>)
    ensures
        visible(a + b) == visible(a) + visible(b),
{
    Seq::filter_distributes_over_add(a, b, |c: char| !text::is_space(c));
}

/// The visible characters of a text with one more character.
proof fn lemma_visible_push(a: Seq<char>, c: char)
    ensures
        visible(a.push(c)) == (if text::is_space(c) {
            visible(a)
        } else {
            visible(a).push(c)
        }),
{
    a.lemma_filter_push(c, |c: char| !text::is_space(c));
}

/// A word broken between characters is all there.
proof fn lemma_chars_ink(w: Wrap, s: Seq<char>, max_w: nat)
    ensures
        wrap_ink(with_chars(w, s, max_w)) == wrap_ink(w) + visible(s),
    decreases s.len(),
{
    if s.len() == 0 {
        assert(visible(s) =~= Seq::empty()) by {
            reveal(Seq::filter);
        }
        assert(wrap_ink(w) + visible(s) =~= wrap_ink(w));
    } else {
        let a = s.drop_last();
        lemma_chars_ink(w, a, max_w);
        let u = with_chars(w, a, max_w);
        lemma_broken_ink(u);
        let v = if u.col + cell(s.last()) > max_w && u.col > 0 {
            broken(u)
        } else {
            u
        };
        lemma_visible_push(v.current, s.last());
        lemma_visible_push(a, s.last());
        assert(a.push(s.last()) =~= s);
        let f = with_chars(w, s, max_w);
        assert(f == with_char(u, s.last(), max_w));
        assert(f.lines == v.lines && f.current == v.current.push(s.last()));
        assert(wrap_ink(v) == wrap_ink(w) + visible(a));
        if text::is_space(s.last()) {
            assert(wrap_ink(f) == wrap_ink(v));
        } else {
            assert(wrap_ink(f) =~= wrap_ink(v).push(s.last()));
            assert(wrap_ink(w) + visible(s) =~= (wrap_ink(w) + visible(a)).push(s.last()));
        }
    }
}

/// A word is all there.
proof fn lemma_word_ink(w: Wrap, word: Seq<char>, max_w: nat)
    ensures
        wrap_ink(with_word(w, word, max_w)) == wrap_ink(w) + visible(word),
{
    lemma_broken_ink(w);
    lemma_chars_ink(w, word, max_w);
    lemma_chars_ink(broken(w), word, max_w);
    lemma_visible_add(w.current, word);
    lemma_visible_push(w.current, ' ');
    lemma_visible_add(w.current.push(' '), word);
    let b = broken(w);
    reveal(Seq::filter);
    assert(visible(Seq::<char>::empty()) =~= Seq::empty());
    assert(wrap_ink(with_word(w, word, max_w)) =~= wrap_ink(w) + visible(word));
}

/// Words are all there.
proof fn lemma_words_ink(words: Seq<Seq<char>>, max_w: nat)
    ensures
        wrap_ink(with_words(words, max_w)) == ink(words),
    decreases words.len(),
{
    if words.len() == 0 {
        reveal(Seq::filter);
        assert(wrap_ink(with_words(words, max_w)) =~= Seq::empty());
    } else {
        lemma_words_ink(words.drop_last(), max_w);
        lemma_word_ink(with_words(words.drop_last(), max_w), words.last(), max_w);
    }
}

/// The words of a text hold its visible characters.
proof fn lemma_words_visible(s: Seq<char>)
    ensures
        ink(text::words(s)) == visible(s),
    decreases s.len(),
{
    let t = text::trimmed_start(s);
    text::trimmed_start_shape(s);
    lemma_trim_visible(s);
    if t.len() == 0 {
        reveal(Seq::filter);
        assert(visible(t) =~= Seq::empty());
    } else {
        let k = text::space_from(t, 0);
        text::space_from_bounds(t, 0);
        lemma_words_visible(t.skip(k));
        assert(t =~= t.take(k) + t.skip(k));
        lemma_visible_add(t.take(k), t.skip(k));
        lemma_ink_front(t.take(k), text::words(t.skip(k)));
    }
}

/// White space at the front is not visible.
proof fn lemma_trim_visible(s: Seq<char>)
    ensures
        visible(text::trimmed_start(s)) == visible(s),
    decreases s.len(),
{
    if s.len() > 0 && text::is_space(s[0]) {
        let rest = s.drop_first();
        lemma_trim_visible(rest);
        assert(s =~= seq![s[0]] + rest);
        lemma_visible_add(seq![s[0]], rest);
        lemma_visible_push(Seq::empty(), s[0]);
        assert(Seq::<char>::empty().push(s[0]) =~= seq![s[0]]);
        reveal(Seq::filter);
        assert(visible(seq![s[0]]) =~= Seq::empty());
        assert(visible(s) =~= visible(rest));
        assert(text::trimmed_start(s) == text::trimmed_start(rest));
    }
}

/// The visible characters of lines with one more in front.
proof fn lemma_ink_front(line: Seq<char>, lines: Seq<Seq<char>>)
    ensures
        ink(seq![line] + lines) == visible(line) + ink(lines),
    decreases lines.len(),
{
    let all = seq![line] + lines;
    if lines.len() == 0 {
        assert(all.drop_last() =~= Seq::<Seq<char>>::empty());
        assert(ink(all.drop_last()) =~= Seq::empty());
        assert(all.last() == line);
        assert(ink(all) =~= visible(line) + ink(lines));
    } else {
        lemma_ink_front(line, lines.drop_last());
        assert(all.drop_last() =~= seq![line] + lines.drop_last());
        assert(ink(all) =~= visible(line) + ink(lines));
    }
}

/// Wrapping loses no character but white space and keeps their order, and there is at least one
/// line.
pub proof fn wrapping_keeps_the_text(s: Seq<char>, max_w: nat)
    ensures
        ink(wrapped(s, max_w)) == visible(s),
        wrapped(s, max_w).len() >= 1,
{
    lemma_words_ink(text::words(s), max_w);
    lemma_words_visible(s);
    let w = with_words(text::words(s), max_w);
    reveal(Seq::filter);
    assert(visible(Seq::<char>::empty()) =~= Seq::empty());
    if w.current.len() > 0 {
        assert(w.lines.push(w.current).drop_last() =~= w.lines);
    } else {
        assert(w.current =~= Seq::empty());
        assert(wrap_ink(w) =~= ink(w.lines));
        if w.lines.len() == 0 {
            let one = seq![Seq::<char>::empty()];
            assert(one.drop_last() =~= Seq::<Seq<char>>::empty());
            assert(ink(one.drop_last()) =~= Seq::empty());
            assert(one.last() =~= Seq::empty());
            assert(ink(one) =~= Seq::empty());
        }
    }
}

/// What a line is made of.
pub enum LinePiece {
    /// A character of a word that is wider than a line.
    Single(char),
    /// A word that is not.
    Word(Seq<char>),
    /// The space before a word.
    Gap,
}

/// The text of a piece.
pub open spec fn piece_text(p: LinePiece) -> Seq<char> {
    match p {
        LinePiece::Single(c) => seq![c],
        LinePiece::Word(w) => w,
        LinePiece::Gap => seq![' '],
    }
}

/// How many columns a piece takes.
pub open spec fn piece_columns(p: LinePiece) -> nat {
    match p {
        LinePiece::Single(c) => cell(c),
        LinePiece::Word(w) => columns(w) as nat,
        LinePiece::Gap => 1,
    }
}

/// The text of pieces.
pub open spec fn pieces_text(ps: Seq<LinePiece>) -> Seq<char>
    decreases ps.len(),
{
    if ps.len() == 0 {
        Seq::empty()
    } else {
        pieces_text(ps.drop_last()) + piece_text(ps.last())
    }
}

/// How many columns pieces take.
pub open spec fn pieces_columns(ps: Seq<LinePiece>) -> nat
    decreases ps.len(),
{
    if ps.len() == 0 {
        0
    } else {
        pieces_columns(ps.drop_last()) + piece_columns(ps.last())
    }
}

/// Whether a piece can come of words: a word only where it is not wider than a line, and a
/// character only of a word that is.
pub open spec fn is_piece_of(p: LinePiece, words: Seq<Seq<char>>, max_w: nat) -> bool {
    match p {
        LinePiece::Single(c) => exists|i: int|
            0 <= i < words.len() && columns(#[trigger] words[i]) > max_w && words[i].contains(c),
        LinePiece::Word(w) => words.contains(w) && columns(w) <= max_w,
        LinePiece::Gap => true,
    }
}

/// Whether a line is made of pieces of words that take `n` columns.
pub open spec fn takes(line: Seq<char>, n: nat, words: Seq<Seq<char>>, max_w: nat) -> bool {
    exists|ps: Seq<LinePiece>|
        {
            &&& #[trigger] pieces_text(ps) == line
            &&& pieces_columns(ps) == n
            &&& forall|k: int| 0 <= k < ps.len() ==> is_piece_of(#[trigger] ps[k], words, max_w)
        }
}

/// Whether a line is made of pieces of words that take no more columns than a line has.
pub open spec fn line_fits(line: Seq<char>, words: Seq<Seq<char>>, max_w: nat) -> bool {
    exists|n: nat| n <= max_w && #[trigger] takes(line, n, words, max_w)
}

/// Whether all lines of a wrapping fit.
spec fn wrap_fits(w: Wrap, words: Seq<Seq<char>>, max_w: nat) -> bool {
    &&& w.col <= max_w
    &&& takes(w.current, w.col, words, max_w)
    &&& forall|k: int| 0 <= k < w.lines.len() ==> line_fits(#[trigger] w.lines[k], words, max_w)
}

/// An empty line takes no column.
proof fn lemma_takes_nothing(words: Seq<Seq<char>>, max_w: nat)
    ensures
        takes(Seq::empty(), 0, words, max_w),
{
    let ps = Seq::<LinePiece>::empty();
    assert(pieces_text(ps) == Seq::<char>::empty());
}

/// A line with one more piece takes the columns of both.
proof fn lemma_takes_more(
    line: Seq<char>,
    n: nat,
    p: LinePiece,
    words: Seq<Seq<char>>,
    max_w: nat,
)
    requires
        takes(line, n, words, max_w),
        is_piece_of(p, words, max_w),
    ensures
        takes(line + piece_text(p), n + piece_columns(p), words, max_w),
{
    let ps = choose|ps: Seq<LinePiece>|
        {
            &&& #[trigger] pieces_text(ps) == line
            &&& pieces_columns(ps) == n
            &&& forall|k: int| 0 <= k < ps.len() ==> is_piece_of(#[trigger] ps[k], words, max_w)
        };
    let qs = ps.push(p);
    assert(qs.drop_last() =~= ps);
    assert(pieces_text(qs) == line + piece_text(p));
}

/// Completing a line keeps all lines fitting.
proof fn lemma_broken_fits(w: Wrap, words: Seq<Seq<char>>, max_w: nat)
    requires
        wrap_fits(w, words, max_w),
    ensures
        wrap_fits(broken(w), words, max_w),
{
    lemma_takes_nothing(words, max_w);
    assert(line_fits(w.current, words, max_w));
}

/// A word broken between characters keeps all lines fitting.
proof fn lemma_chars_fit(w: Wrap, s: Seq<char>, i: int, words: Seq<Seq<char>>, max_w: nat)
    requires
        wrap_fits(w, words, max_w),
        0 <= i < words.len(),
        columns(words[i]) > max_w,
        forall|j: int| 0 <= j < s.len() ==> words[i].contains(#[trigger] s[j]),
        forall|j: int| 0 <= j < words[i].len() ==> cell(#[trigger] words[i][j]) <= max_w,
    ensures
        wrap_fits(with_chars(w, s, max_w), words, max_w),
    decreases s.len(),
{
    if s.len() > 0 {
        let a = s.drop_last();
        let c = s.last();
        assert forall|j: int| 0 <= j < a.len() implies words[i].contains(#[trigger] a[j]) by {
            assert(words[i].contains(s[j]));
        }
        lemma_chars_fit(w, a, i, words, max_w);
        let u = with_chars(w, a, max_w);
        lemma_broken_fits(u, words, max_w);
        assert(words[i].contains(s[s.len() - 1]));
        let j = choose|j: int| 0 <= j < words[i].len() && words[i][j] == c;
        assert(cell(words[i][j]) <= max_w);
        let v = if u.col + cell(c) > max_w && u.col > 0 {
            broken(u)
        } else {
            u
        };
        assert(is_piece_of(LinePiece::Single(c), words, max_w));
        lemma_takes_more(v.current, v.col, LinePiece::Single(c), words, max_w);
        assert(v.current + seq![c] =~= v.current.push(c));
    }
}

/// One more word keeps all lines fitting.
proof fn lemma_word_fits(w: Wrap, i: int, words: Seq<Seq<char>>, max_w: nat)
    requires
        wrap_fits(w, words, max_w),
        0 <= i < words.len(),
        columns(words[i]) > max_w ==> forall|j: int|
            0 <= j < words[i].len() ==> cell(#[trigger] words[i][j]) <= max_w,
    ensures
        wrap_fits(with_word(w, words[i], max_w), words, max_w),
{
    let word = words[i];
    lemma_broken_fits(w, words, max_w);
    if columns(word) > max_w {
        lemma_chars_fit(broken(w), word, i, words, max_w);
        lemma_chars_fit(w, word, i, words, max_w);
    } else {
        let p = LinePiece::Word(word);
        assert(words.contains(word));
        lemma_takes_more(w.current, w.col, p, words, max_w);
        lemma_takes_more(w.current, w.col, LinePiece::Gap, words, max_w);
        assert(w.current + seq![' '] =~= w.current.push(' '));
        lemma_takes_more(w.current.push(' '), w.col + 1, p, words, max_w);
        lemma_takes_more(Seq::empty(), 0, p, words, max_w);
        assert(Seq::<char>::empty() + word =~= word);
    }
}

/// Words keep all lines fitting.
proof fn lemma_words_fit(words: Seq<Seq<char>>, k: int, max_w: nat)
    requires
        0 <= k <= words.len(),
        forall|i: int, j: int|
            0 <= i < words.len() && columns(words[i]) > max_w && 0 <= j < words[i].len()
                ==> cell(#[trigger] words[i][j]) <= max_w,
    ensures
        wrap_fits(with_words(words.take(k), max_w), words, max_w),
    decreases k,
{
    if k == 0 {
        lemma_takes_nothing(words, max_w);
    } else {
        lemma_words_fit(words, k - 1, max_w);
        assert(words.take(k).drop_last() =~= words.take(k - 1));
        assert(words.take(k).last() == words[k - 1]);
        lemma_word_fits(with_words(words.take(k - 1), max_w), k - 1, words, max_w);
    }
}

/// Every line of a wrapped text is made of words, of spaces before words and of characters of
/// words that are wider than a line, and these take no more columns than a line has, where no
/// character of such a word is wider by itself.
pub proof fn wrapped_lines_fit(s: Seq<char>, max_w: nat)
    requires
        forall|i: int, j: int|
            0 <= i < text::words(s).len() && columns(text::words(s)[i]) > max_w && 0 <= j
                < text::words(s)[i].len() ==> cell(#[trigger] text::words(s)[i][j]) <= max_w,
    ensures
        forall|k: int|
            0 <= k < wrapped(s, max_w).len() ==> line_fits(
                #[trigger] wrapped(s, max_w)[k],
                text::words(s),
                max_w,
            ),
{
    let words = text::words(s);
    lemma_words_fit(words, words.len() as int, max_w);
    lists::take_all(words);
    lemma_takes_nothing(words, max_w);
    let w = with_words(words, max_w);
    assert(line_fits(w.current, words, max_w));
    assert(line_fits(Seq::empty(), words, max_w));
}

/// How many columns the characters of a text take one by one.
pub open spec fn cells(s: Seq<char>) -> nat
    decreases s.len(),
{
    if s.len() == 0 {
        0
    } else {
        cells(s.drop_last()) + cell(s.last())
    }
}

/// The characters of two texts one after another take the columns of both.
proof fn lemma_cells_add(a: Seq<char>, b: Seq<char>)
    ensures
        cells(a + b) == cells(a) + cells(b),
    decreases b.len(),
{
    if b.len() == 0 {
        assert(a + b =~= a);
    } else {
        lemma_cells_add(a, b.drop_last());
        assert((a + b).drop_last() =~= a + b.drop_last());
    }
}

/// Pieces take the columns of their characters where words and the space do.
proof fn lemma_pieces_cells(ps: Seq<LinePiece>, words: Seq<Seq<char>>, max_w: nat)
    requires
        cell(' ') == 1,
        forall|i: int| 0 <= i < words.len() ==> columns(#[trigger] words[i]) == cells(words[i]),
        forall|k: int| 0 <= k < ps.len() ==> is_piece_of(#[trigger] ps[k], words, max_w),
    ensures
        cells(pieces_text(ps)) == pieces_columns(ps),
    decreases ps.len(),
{
    if ps.len() > 0 {
        let a = ps.drop_last();
        let p = ps.last();
        assert forall|k: int| 0 <= k < a.len() implies is_piece_of(
            #[trigger] a[k],
            words,
            max_w,
        ) by {
            assert(is_piece_of(ps[k], words, max_w));
        }
        lemma_pieces_cells(a, words, max_w);
        assert(is_piece_of(ps[ps.len() - 1], words, max_w));
        lemma_cells_add(pieces_text(a), piece_text(p));
        assert(cells(piece_text(p)) == piece_columns(p)) by {
            match p {
                LinePiece::Single(c) => {
                    reveal_with_fuel(cells, 2);
                },
                LinePiece::Word(w) => {
                    let i = choose|i: int| 0 <= i < words.len() && words[i] == w;
                    assert(columns(words[i]) == cells(words[i]));
                },
                LinePiece::Gap => {
                    reveal_with_fuel(cells, 2);
                },
            }
        }
    }
}

/// The characters of every line of a wrapped text take no more columns than a line has, where
/// each word is as wide as its characters, the space takes one column, and no character is wider
/// than a line.
pub proof fn wrapped_characters_fit(s: Seq<char>, max_w: nat)
    requires
        cell(' ') == 1,
        forall|i: int|
            0 <= i < text::words(s).len() ==> columns(#[trigger] text::words(s)[i]) == cells(
                text::words(s)[i],
            ),
        forall|i: int, j: int|
            0 <= i < text::words(s).len() && columns(text::words(s)[i]) > max_w && 0 <= j
                < text::words(s)[i].len() ==> cell(#[trigger] text::words(s)[i][j]) <= max_w,
    ensures
        forall|k: int|
            0 <= k < wrapped(s, max_w).len() ==> cells(#[trigger] wrapped(s, max_w)[k]) <= max_w,
{
    let words = text::words(s);
    wrapped_lines_fit(s, max_w);
    assert forall|k: int| 0 <= k < wrapped(s, max_w).len() implies cells(
        #[trigger] wrapped(s, max_w)[k],
    ) <= max_w by {
        let line = wrapped(s, max_w)[k];
        assert(line_fits(line, words, max_w));
        let n = choose|n: nat| n <= max_w && #[trigger] takes(line, n, words, max_w);
        let ps = choose|ps: Seq<LinePiece>|
            {
                &&& #[trigger] pieces_text(ps) == line
                &&& pieces_columns(ps) == n
                &&& forall|q: int|
                    0 <= q < ps.len() ==> is_piece_of(#[trigger] ps[q], words, max_w)
            };
        lemma_pieces_cells(ps, words, max_w);
    }
}

// ── Panels ─────────────────────────────────────────────────────────────────────

/// A border of a panel.
pub open spec fn border_text(left: char, right: char) -> Seq<char> {
    seq![left] + Seq::new(INNER as nat, |i: int| '─') + seq![right]
}

/// A border of a panel.
pub fn border(left: char, right: char) -> (r: String)
    ensures
        r@ == border_text(left, right),
{
    let mut r = String::new();
    r.push(left);
    r.append(&text::repeat_char('─', INNER));
    r.push(right);
    assert(r@ =~= border_text(left, right));
    r
}

/// What is left of a width beside a text.
pub open spec fn room(s: Seq<char>, width: nat) -> nat {
    if columns(s) <= width {
        (width - columns(s)) as nat
    } else {
        0
    }
}

/// What is left of a width beside a text.
pub fn padding(s: &str, width: usize) -> (r: usize)
    ensures
        r == room(s@, width as nat),
{
    let w = display_width(s);
    if w <= width {
        width - w
    } else {
        0
    }
}

/// A line of a panel's title and the spaces behind it; the lines behind the first are indented
/// by two columns.
pub struct TitleLine {
    pub text: String,
    pub pad: usize,
}

/// The spaces behind a line of a title.
pub open spec fn title_pad(line: Seq<char>, first: bool) -> nat {
    let n = room(line, AVAIL as nat);
    if first {
        n
    } else if n >= 2 {
        (n - 2) as nat
    } else {
        0
    }
}

/// The lines of a panel's title.
pub fn title_lines(title: &str) -> (r: Vec<TitleLine>)
    ensures
        r@.len() == wrapped(title@, AVAIL as nat).len(),
        forall|i: int|
            0 <= i < r@.len() ==> (#[trigger] r@[i]).text@ == wrapped(title@, AVAIL as nat)[i]
                && r@[i].pad == title_pad(r@[i].text@, i == 0),
{
    let lines = wrap_display(title, AVAIL);
    let ghost all = wrapped(title@, AVAIL as nat);
    assert(text::views(lines@).len() == lines@.len());
    let mut r: Vec<TitleLine> = Vec::new();
    let mut i: usize = 0;
    while i < lines.len()
        invariant
            i <= lines@.len(),
            all == text::views(lines@),
            r@.len() == i,
            forall|j: int|
                0 <= j < i ==> (#[trigger] r@[j]).text@ == all[j] && r@[j].pad == title_pad(
                    r@[j].text@,
                    j == 0,
                ),
        decreases lines.len() - i,
    {
        let n = padding(&lines[i], AVAIL);
        let pad: usize = if i == 0 {
            n
        } else if n >= 2 {
            n - 2
        } else {
            0
        };
        assert(all[i as int] == lines@[i as int]@);
        r.push(TitleLine { text: lines[i].clone(), pad });
        i += 1;
    }
    r
}

/// A row of a panel's content.
pub open spec fn row_text(line: Seq<char>) -> Seq<char> {
    "│ "@ + line + Seq::new(room(line, AVAIL as nat), |i: int| ' ') + " │"@
}

/// The rows of a panel's content, by its lines.
pub open spec fn rows_of(lines: Seq<Seq<char>>) -> Seq<Seq<char>>
    decreases lines.len(),
{
    if lines.len() == 0 {
        Seq::empty()
    } else {
        rows_of(lines.drop_last()) + wrapped(lines.last(), AVAIL as nat).map_values(
            |l: Seq<char>| row_text(l),
        )
    }
}

/// A row of a panel's content.
fn row(line: &str) -> (r: String)
    ensures
        r@ == row_text(line@),
{
    text::concat4("│ ", line, &text::repeat_char(' ', padding(line, AVAIL)), " │")
}

/// The rows of a panel's content.
pub fn content_rows(content: &str) -> (r: Vec<String>)
    ensures
        text::views(r@) == rows_of(text::line_seq(content@)),
{
    let lines = text::lines(content);
    let ghost all = text::views(lines@);
    let ghost f = |l: Seq<char>| row_text(l);
    let mut r: Vec<String> = Vec::new();
    let mut i: usize = 0;
    assert(text::views(r@) =~= Seq::empty());
    while i < lines.len()
        invariant
            i <= lines@.len(),
            all == text::views(lines@),
            f == (|l: Seq<char>| row_text(l)),
            text::views(r@) == rows_of(all.take(i as int)),
        decreases lines.len() - i,
    {
        let chunks = wrap_display(&lines[i], AVAIL);
        let ghost cs = text::views(chunks@);
        let ghost before = text::views(r@);
        let mut j: usize = 0;
        assert(before + cs.take(0).map_values(f) =~= before);
        while j < chunks.len()
            invariant
                j <= chunks@.len(),
                cs == text::views(chunks@),
                f == (|l: Seq<char>| row_text(l)),
                text::views(r@) == before + cs.take(j as int).map_values(f),
            decreases chunks.len() - j,
        {
            broadcast use text::views_push;

            proof {
                assert(cs.take(j + 1).map_values(f) =~= cs.take(j as int).map_values(f).push(
                    f(cs[j as int]),
                ));
                let a = cs.take(j as int).map_values(f);
                assert(before + a.push(f(cs[j as int])) =~= (before + a).push(f(cs[j as int])));
            }
            r.push(row(&chunks[j]));
            j += 1;
        }
        proof {
            lists::take_all(cs);
            assert(all.take(i + 1).drop_last() =~= all.take(i as int));
            assert(all.take(i + 1).last() == lines@[i as int]@);
        }
        i += 1;
    }
    proof {
        lists::take_all(all);
    }
    r
}

/// The colours of a panel.
#[derive(Debug, Clone, Copy, PartialEq, Eq, Structural)]
pub enum PanelColor {
    Cyan,
    Green,
    Yellow,
    Blue,
    Magenta,
    White,
}

/// The colour of a name; an unknown name is white.
pub open spec fn color_named(name: Seq<char>) -> PanelColor {
    if name == "cyan"@ {
        PanelColor::Cyan
    } else if name == "green"@ {
        PanelColor::Green
    } else if name == "yellow"@ {
        PanelColor::Yellow
    } else if name == "blue"@ {
        PanelColor::Blue
    } else if name == "magenta"@ {
        PanelColor::Magenta
    } else {
        PanelColor::White
    }
}

/// The colour of a name.
pub fn panel_color(name: &str) -> (r: PanelColor)
    ensures
        r == color_named(name@),
{
    if same(name, "cyan") {
        PanelColor::Cyan
    } else if same(name, "green") {
        PanelColor::Green
    } else if same(name, "yellow") {
        PanelColor::Yellow
    } else if same(name, "blue") {
        PanelColor::Blue
    } else if same(name, "magenta") {
        PanelColor::Magenta
    } else {
        PanelColor::White
    }
}

/// An address as a link that a terminal opens.
pub fn clickable(url: &str) -> (r: String)
    ensures
        r@ == "\x1b]8;;"@ + url@ + "\x1b\\"@ + url@ + "\x1b]8;;\x1b\\"@,
{
    text::concat5("\x1b]8;;", url, "\x1b\\", url, "\x1b]8;;\x1b\\")
}

/// A line across a panel.
pub fn separator_line() -> (r: String)
    ensures
        r@ == Seq::new(WIDTH as nat, |i: int| '─'),
{
    text::repeat_char('─', WIDTH)
}

// ── Laws ─────────────────────────────────────────────────────────────────────

/// A row shows its line between two borders, with as many spaces behind it as are left of the
/// width.
pub proof fn rows_show_their_lines(line: Seq<char>)
    ensures
        text::begins(row_text(line), "│ "@),
        text::ends(row_text(line), " │"@),
        text::holds(row_text(line), line),
        columns(line) <= AVAIL ==> row_text(line).len() == line.len() + (AVAIL - columns(line)) + 4,
        columns(line) > AVAIL ==> row_text(line).len() == line.len() + 4,
{
    broadcast use {text::holds_in_front, text::holds_at_end};

    let r = row_text(line);
    reveal_strlit("│ ");
    reveal_strlit(" │");
    assert(r.subrange(0, 2) =~= "│ "@);
    assert(r.subrange(r.len() - 2, r.len() as int) =~= " │"@);
}

/// Every line of a content is shown in rows, each of which holds a piece of it, and none is left
/// out.
pub proof fn every_line_has_rows(lines: Seq<Seq<char>>, i: int, k: int)
    requires
        0 <= i < lines.len(),
        0 <= k < wrapped(lines[i], AVAIL as nat).len(),
    ensures
        exists|j: int|
            0 <= j < rows_of(lines).len() && #[trigger] rows_of(lines)[j] == row_text(
                wrapped(lines[i], AVAIL as nat)[k],
            ),
        rows_of(lines).len() >= lines.len(),
    decreases lines.len(),
{
    let a = lines.drop_last();
    let x = rows_of(a);
    let w = wrapped(lines.last(), AVAIL as nat);
    let y = w.map_values(|l: Seq<char>| row_text(l));
    wrapping_keeps_the_text(lines.last(), AVAIL as nat);
    lemma_rows_len(a);
    if i < lines.len() - 1 {
        assert(a[i] == lines[i]);
        every_line_has_rows(a, i, k);
        let j = choose|j: int|
            0 <= j < x.len() && #[trigger] x[j] == row_text(wrapped(a[i], AVAIL as nat)[k]);
        assert(rows_of(lines)[j] == x[j]);
    } else {
        assert(y[k] == row_text(w[k]));
        assert(rows_of(lines)[x.len() + k] == y[k]);
    }
}

/// There are at least as many rows as lines.
proof fn lemma_rows_len(lines: Seq<Seq<char>>)
    ensures
        rows_of(lines).len() >= lines.len(),
    decreases lines.len(),
{
    if lines.len() > 0 {
        lemma_rows_len(lines.drop_last());
        wrapping_keeps_the_text(lines.last(), AVAIL as nat);
    }
}

/// A text that fits on a line stays on one, and a word that fits is not broken.
pub proof fn short_texts_stay_on_a_line(word: Seq<char>, max_w: nat)
    requires
        word.len() > 0,
        forall|i: int| 0 <= i < word.len() ==> !text::is_space(#[trigger] word[i]),
        columns(word) <= max_w,
    ensures
        wrapped(word, max_w) == seq![word],
{
    text::single_word(word);
    let ws = seq![word];
    assert(ws.drop_last() =~= Seq::<Seq<char>>::empty());
    let none = with_words(ws.drop_last(), max_w);
    assert(none.col == 0 && none.current.len() == 0 && none.lines.len() == 0);
    let w = with_words(ws, max_w);
    assert(w == with_word(none, word, max_w));
    assert(w.current =~= word);
    assert(w.lines =~= Seq::<Seq<char>>::empty());
    assert(w.lines.push(w.current) =~= seq![word]);
}

/// What is left of a width is nothing where a text is as wide or wider.
pub proof fn room_is_what_is_left(s: Seq<char>, width: nat)
    ensures
        columns(s) <= width ==> room(s, width) + columns(s) == width,
        columns(s) > width ==> room(s, width) == 0,
        title_pad(s, true) == room(s, AVAIL as nat),
        columns(s) + 2 <= AVAIL ==> title_pad(s, false) + 2 + columns(s) == AVAIL,
{
}

/// Two words that fit on a line together share it, with one space between them; two that do not
/// stand on lines of their own.
pub proof fn words_share_a_line(a: Seq<char>, b: Seq<char>, max_w: nat)
    requires
        a.len() > 0 && b.len() > 0,
        forall|i: int| 0 <= i < a.len() ==> !text::is_space(#[trigger] a[i]),
        forall|i: int| 0 <= i < b.len() ==> !text::is_space(#[trigger] b[i]),
        0 < columns(a) <= max_w,
        columns(b) <= max_w,
    ensures
        columns(a) + 1 + columns(b) <= max_w ==> wrapped(a + seq![' '] + b, max_w) == seq![
            a + seq![' '] + b,
        ],
        columns(a) + 1 + columns(b) > max_w ==> wrapped(a + seq![' '] + b, max_w) == seq![a, b],
{
    text::two_words(a, b);
    let ws = seq![a, b];
    let one = seq![a];
    assert(ws.drop_last() =~= one);
    assert(one.drop_last() =~= Seq::<Seq<char>>::empty());
    let w0 = with_words(one.drop_last(), max_w);
    assert(w0.col == 0 && w0.current.len() == 0 && w0.lines.len() == 0);
    let w1 = with_words(one, max_w);
    assert(w1 == with_word(w0, a, max_w));
    assert(w1.current =~= a && w1.col == columns(a));
    let w2 = with_words(ws, max_w);
    assert(w2 == with_word(w1, b, max_w));
    if columns(a) + 1 + columns(b) <= max_w {
        assert(w2.current =~= a + seq![' '] + b);
        assert(w2.lines.push(w2.current) =~= seq![a + seq![' '] + b]);
    } else {
        assert(w2.current == b);
        assert(w2.lines.push(w2.current) =~= seq![a, b]);
    }
}

/// A panel is 76 columns wide, and its text has 72 of them.
pub proof fn panels_have_their_width(left: char, right: char)
    ensures
        border_text(left, right).len() == 76,
        border_text(left, right)[0] == left,
        border_text(left, right).last() == right,
        AVAIL == 72,
        WIDTH == 76,
{
}

} // verus!
