//! Letter case and character classes, as the Unicode tables of the standard library give them.
use vstd::prelude::*;
use vstd::utf8;

verus! {

/// The lowercase form of a text, as `str::to_lowercase` gives it.
pub uninterp spec fn lowercase(s: Seq<char>) -> Seq<char>;

/// The uppercase form of a text, as `str::to_uppercase` gives it.
pub uninterp spec fn uppercase(s: Seq<char>) -> Seq<char>;

/// Whether a character is alphabetic or numeric, as `char::is_alphanumeric` tells.
pub uninterp spec fn alphanumeric(c: char) -> bool;

/// The ASCII lowercase letter of an ASCII uppercase letter; every other character is kept.
pub open spec fn ascii_lower(c: char) -> char {
    if 'A' <= c <= 'Z' {
        ((c as u32 + 32) as u32) as char
    } else {
        c
    }
}

/// The ASCII uppercase letter of an ASCII lowercase letter; every other character is kept.
pub open spec fn ascii_upper(c: char) -> char {
    if 'a' <= c <= 'z' {
        ((c as u32 - 32) as u32) as char
    } else {
        c
    }
}

/// Whether `c` is an ASCII letter or digit.
pub open spec fn ascii_alphanumeric(c: char) -> bool {
    'A' <= c <= 'Z' || 'a' <= c <= 'z' || '0' <= c <= '9'
}

/// `str::to_lowercase`: a function of the text alone. On ASCII text it lowers the ASCII
/// letters and keeps everything else.
pub assume_specification[ str::to_lowercase ](s: &str) -> (r: String)
    ensures
        r@ == lowercase(s@),
        utf8::is_ascii_chars(s@) ==> r@ == s@.map_values(|c: char| ascii_lower(c)),
;

/// `str::to_uppercase`: a function of the text alone. On ASCII text it raises the ASCII
/// letters and keeps everything else.
pub assume_specification[ str::to_uppercase ](s: &str) -> (r: String)
    ensures
        r@ == uppercase(s@),
        utf8::is_ascii_chars(s@) ==> r@ == s@.map_values(|c: char| ascii_upper(c)),
;

/// `char::is_alphanumeric`: a function of the character alone. Among the ASCII characters
/// it holds of the letters and the digits.
pub assume_specification[ char::is_alphanumeric ](c: char) -> (r: bool)
    ensures
        r == alphanumeric(c),
        c <= '\u{7f}' ==> r == ascii_alphanumeric(c),
;

/// The alphanumeric characters of `s`.
pub open spec fn alphanumerics(s: Seq<char>) -> Seq<char> {
    s.filter(|c: char| alphanumeric(c))
}

/// Keeps the alphanumeric characters.
pub fn keep_alphanumeric(s: &str) -> (r: String)
    ensures
        r@ == alphanumerics(s@),
{
    let mut r = String::new();
    let ghost p = |c: char| alphanumeric(c);
    for c in it: s.chars()
        invariant
            it.seq() == s@,
            p == (|c: char| alphanumeric(c)),
            r@ == s@.take(it.index() as int).filter(p),
    {
        proof {
            let i = it.index() as int;
            assert(s@.take(i + 1).drop_last() =~= s@.take(i));
            assert(s@.take(i + 1).last() == c);
            reveal(Seq::filter);
        }
        if c.is_alphanumeric() {
            r.push(c);
        }
    }
    assert(s@.take(s@.len() as int) =~= s@);
    r
}

/// The ASCII lowercase form of a text.
pub open spec fn ascii_lowercase(s: Seq<char>) -> Seq<char> {
    s.map_values(|c: char| ascii_lower(c))
}

/// Lowers the ASCII letters.
pub fn to_ascii_lowercase(s: &str) -> (r: String)
    ensures
        r@ == ascii_lowercase(s@),
{
    let mut r = String::new();
    for c in it: s.chars()
        invariant
            it.seq() == s@,
            r@ == ascii_lowercase(s@.take(it.index() as int)),
    {
        let l = lower_char(c);
        proof {
            let i = it.index() as int;
            assert(ascii_lowercase(s@.take(i + 1)) =~= ascii_lowercase(s@.take(i)).push(l));
        }
        r.push(l);
    }
    assert(s@.take(s@.len() as int) =~= s@);
    r
}

/// Lowers one ASCII letter.
fn lower_char(c: char) -> (r: char)
    ensures
        r == ascii_lower(c),
{
    if 'A' <= c && c <= 'Z' {
        (c as u8 + 32) as char
    } else {
        c
    }
}

/// The lowercase form of the alphanumeric characters of a text.
pub open spec fn lowered_alphanumerics(s: Seq<char>) -> Seq<char> {
    alphanumerics(lowercase(s))
}

/// Lowers a text, then keeps its alphanumeric characters.
pub fn normalize_text(s: &str) -> (r: String)
    ensures
        r@ == lowered_alphanumerics(s@),
{
    let lowered = s.to_lowercase();
    keep_alphanumeric(lowered.as_str())
}

} // verus!
