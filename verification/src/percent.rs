//! Percent-encoding of query strings.
use vstd::prelude::*;
use vstd::utf8;
use crate::text::chars_of;

verus! {

/// The characters that a query string holds as they are.
pub open spec fn unreserved(c: char) -> bool {
    'A' <= c <= 'Z' || 'a' <= c <= 'z' || '0' <= c <= '9' || c == '-' || c == '_' || c == '.' || c
        == '~'
}

/// The uppercase hexadecimal digit of a number below sixteen.
pub open spec fn hex_upper(d: int) -> char {
    if d < 10 {
        ((48 + d) as u32) as char
    } else {
        ((55 + d) as u32) as char
    }
}

/// `%` and two hexadecimal digits for each byte.
pub open spec fn percent_bytes(b: Seq<u8>) -> Seq<char>
    decreases b.len(),
{
    if b.len() == 0 {
        Seq::empty()
    } else {
        seq!['%', hex_upper(b[0] as int / 16), hex_upper(b[0] as int % 16)] + percent_bytes(
            b.skip(1),
        )
    }
}

/// One character in a query string: itself, `+` for a space, or its UTF-8 bytes.
pub open spec fn query_char(c: char) -> Seq<char> {
    if unreserved(c) {
        seq![c]
    } else if c == ' ' {
        seq!['+']
    } else {
        percent_bytes(utf8::encode_utf8(seq![c]))
    }
}

/// A text in a query string.
pub open spec fn query_text(s: Seq<char>) -> Seq<char>
    decreases s.len(),
{
    if s.len() == 0 {
        Seq::empty()
    } else {
        query_char(s[0]) + query_text(s.skip(1))
    }
}

/// The digit of a number below sixteen.
pub fn hex_upper_char(d: u32) -> (c: char)
    requires
        d < 16,
    ensures
        c == hex_upper(d as int),
{
    if d < 10 {
        (48u8 + d as u8) as char
    } else {
        (55u8 + d as u8) as char
    }
}

/// Appends `%` and two hexadecimal digits for each byte.
fn push_percent_bytes(out: &mut String, b: &[u8])
    ensures
        final(out)@ == old(out)@ + percent_bytes(b@),
{
    let mut i: usize = 0;
    let ghost start = out@;
    assert(b@.skip(0) =~= b@);
    while i < b.len()
        invariant
            i <= b@.len(),
            start + percent_bytes(b@) == out@ + percent_bytes(b@.skip(i as int)),
        decreases b.len() - i,
    {
        let ghost before = out@;
        let x = b[i];
        out.push('%');
        out.push(hex_upper_char((x / 16) as u32));
        out.push(hex_upper_char((x % 16) as u32));
        proof {
            assert(b@.skip(i as int).skip(1) =~= b@.skip(i + 1));
            assert(out@ + percent_bytes(b@.skip(i + 1)) =~= before + percent_bytes(
                b@.skip(i as int),
            ));
        }
        i += 1;
    }
    assert(out@ + percent_bytes(b@.skip(i as int)) =~= out@);
}

/// Appends `%` and two hexadecimal digits for each UTF-8 byte of a character.
pub fn push_percent_char(out: &mut String, c: char)
    ensures
        final(out)@ == old(out)@ + percent_bytes(utf8::encode_utf8(seq![c])),
{
    let mut one = String::new();
    one.push(c);
    assert(one@ =~= seq![c]);
    push_percent_bytes(out, one.as_str().as_bytes());
}

/// Encodes a text for a query string.
pub fn urlencoding(s: &str) -> (r: String)
    ensures
        r@ == query_text(s@),
{
    let v = chars_of(s);
    let mut r = String::new();
    let mut i: usize = 0;
    assert(v@.skip(0) =~= v@);
    assert(r@ + query_text(v@) =~= query_text(v@));
    while i < v.len()
        invariant
            i <= v@.len(),
            v@ == s@,
            query_text(v@) == r@ + query_text(v@.skip(i as int)),
        decreases v.len() - i,
    {
        let c = v[i];
        let ghost before = r@;
        let ghost rest = v@.skip(i as int);
        if ('A' <= c && c <= 'Z') || ('a' <= c && c <= 'z') || ('0' <= c && c <= '9') || c == '-'
            || c == '_' || c == '.' || c == '~' {
            r.push(c);
            assert(r@ =~= before + query_char(c));
        } else if c == ' ' {
            r.push('+');
            assert(r@ =~= before + query_char(c));
        } else {
            push_percent_char(&mut r, c);
        }
        proof {
            assert(rest.skip(1) =~= v@.skip(i + 1));
            assert(rest[0] == c);
            assert(r@ + query_text(v@.skip(i + 1)) =~= before + (query_char(c) + query_text(
                v@.skip(i + 1),
            )));
        }
        i += 1;
    }
    assert(r@ + query_text(v@.skip(i as int)) =~= r@);
    r
}

// ── Decoding ───────────────────────────────────────────────────────────────────

/// The value of a hexadecimal digit of either case.
pub open spec fn hex_value(b: u8) -> Option<int> {
    if 48 <= b <= 57 {
        Some(b - 48)
    } else if 65 <= b <= 70 {
        Some(b - 55)
    } else if 97 <= b <= 102 {
        Some(b - 87)
    } else {
        None
    }
}

/// The byte written in two characters: two hexadecimal digits, or `+` and one.
pub open spec fn hex_byte(a: u8, b: u8) -> Option<u8> {
    match (hex_value(a), hex_value(b)) {
        (Some(x), Some(y)) => Some((x * 16 + y) as u8),
        (None, Some(y)) => if a == 43 {
            Some(y as u8)
        } else {
            None
        },
        _ => None,
    }
}

/// The bytes that percent-encoded bytes stand for. A `%` without two hexadecimal
/// digits behind it stands for itself.
pub open spec fn percent_decoded(b: Seq<u8>) -> Seq<u8>
    decreases b.len(),
{
    if b.len() == 0 {
        Seq::empty()
    } else if b[0] == 37 && b.len() > 2 && hex_byte(b[1], b[2]) is Some {
        seq![hex_byte(b[1], b[2])->0] + percent_decoded(b.skip(3))
    } else if b[0] == 43 {
        seq![32u8] + percent_decoded(b.skip(1))
    } else {
        seq![b[0]] + percent_decoded(b.skip(1))
    }
}

/// Whether the two bytes behind every `%` end where a character ends.
pub open spec fn decodable(b: Seq<u8>) -> bool {
    forall|i: int|
        0 <= i && i + 3 < b.len() && #[trigger] b[i] == 37 ==> !utf8::is_continuation_byte(b[i + 3])
}

/// The text of bytes, as `String::from_utf8_lossy` gives it.
pub uninterp spec fn lossy_text(b: Seq<u8>) -> Seq<char>;

/// `String::from_utf8_lossy`: a function of the bytes alone. Valid UTF-8 is decoded as it
/// stands; of other bytes nothing more is said than that the result depends on them alone.
#[verifier::external_body]
pub(crate) fn from_utf8_lossy(b: &[u8]) -> (r: String)
    ensures
        r@ == lossy_text(b@),
        utf8::valid_utf8(b@) ==> r@ == utf8::decode_utf8(b@),
{
    String::from_utf8_lossy(b).into_owned()
}

/// The value of a hexadecimal digit.
fn hex_digit(b: u8) -> (r: Option<u8>)
    ensures
        r matches Some(x) ==> hex_value(b) == Some(x as int) && x < 16,
        r is None ==> hex_value(b) is None,
{
    if 48 <= b && b <= 57 {
        Some(b - 48)
    } else if 65 <= b && b <= 70 {
        Some(b - 55)
    } else if 97 <= b && b <= 102 {
        Some(b - 87)
    } else {
        None
    }
}

/// The byte written in two characters.
fn hex_pair(a: u8, b: u8) -> (r: Option<u8>)
    ensures
        r == hex_byte(a, b),
{
    match (hex_digit(a), hex_digit(b)) {
        (Some(x), Some(y)) => Some(x * 16 + y),
        (None, Some(y)) => if a == 43 {
            Some(y)
        } else {
            None
        },
        _ => None,
    }
}

/// Whether `percent_decode` takes these bytes.
pub fn is_decodable(s: &str) -> (r: bool)
    ensures
        r == decodable(utf8::encode_utf8(s@)),
{
    let b = s.as_bytes();
    let mut i: usize = 0;
    while i < b.len()
        invariant
            i <= b@.len(),
            b@ == utf8::encode_utf8(s@),
            forall|j: int|
                0 <= j < i && j + 3 < b@.len() && #[trigger] b@[j] == 37 ==> !utf8::is_continuation_byte(
                    b@[j + 3],
                ),
        decreases b.len() - i,
    {
        if b[i] == 37 && b.len() - i > 3 && 0x80 <= b[i + 3] && b[i + 3] <= 0xBF {
            return false;
        }
        i += 1;
    }
    true
}

/// Decodes a percent-encoded text.
pub fn percent_decode(s: &str) -> (r: String)
    requires
        decodable(utf8::encode_utf8(s@)),
    ensures
        r@ == lossy_text(percent_decoded(utf8::encode_utf8(s@))),
        utf8::valid_utf8(percent_decoded(utf8::encode_utf8(s@))) ==> r@ == utf8::decode_utf8(
            percent_decoded(utf8::encode_utf8(s@)),
        ),
{
    let b = s.as_bytes();
    let mut out: Vec<u8> = Vec::new();
    let mut i: usize = 0;
    assert(b@.skip(0) =~= b@);
    assert(out@ + percent_decoded(b@) =~= percent_decoded(b@));
    while i < b.len()
        invariant
            i <= b@.len(),
            percent_decoded(b@) == out@ + percent_decoded(b@.skip(i as int)),
        decreases b.len() - i,
    {
        let ghost rest = b@.skip(i as int);
        let ghost before = out@;
        let x = b[i];
        if x == 37 && b.len() - i > 2 {
            if let Some(y) = hex_pair(b[i + 1], b[i + 2]) {
                out.push(y);
                proof {
                    assert(rest.skip(3) =~= b@.skip(i + 3));
                    assert(out@ + percent_decoded(b@.skip(i + 3)) =~= before + (seq![y]
                        + percent_decoded(b@.skip(i + 3))));
                }
                i += 3;
                continue;
            }
        }
        let y: u8 = if x == 43 {
            32
        } else {
            x
        };
        out.push(y);
        proof {
            assert(rest.skip(1) =~= b@.skip(i + 1));
            assert(out@ + percent_decoded(b@.skip(i + 1)) =~= before + (seq![y] + percent_decoded(
                b@.skip(i + 1),
            )));
        }
        i += 1;
    }
    assert(out@ + percent_decoded(b@.skip(i as int)) =~= out@);
    from_utf8_lossy(out.as_slice())
}

// ── Laws ───────────────────────────────────────────────────────────────────────

/// The bytes of a concatenation are the concatenation of the bytes.
pub proof fn encode_utf8_concat(a: Seq<char>, b: Seq<char>)
    ensures
        utf8::encode_utf8(a + b) == utf8::encode_utf8(a) + utf8::encode_utf8(b),
    decreases a.len(),
{
    if a.len() == 0 {
        assert(a + b =~= b);
        assert(utf8::encode_utf8(a) + utf8::encode_utf8(b) =~= utf8::encode_utf8(b));
    } else {
        encode_utf8_concat(a.drop_first(), b);
        assert((a + b).drop_first() =~= a.drop_first() + b);
        assert(utf8::encode_utf8(a + b) =~= utf8::encode_utf8(a) + utf8::encode_utf8(b));
    }
}

/// Encoded bytes decode to themselves, whatever follows them.
proof fn lemma_percent_bytes_decode(x: Seq<u8>, rest: Seq<u8>)
    ensures
        utf8::is_ascii_chars(percent_bytes(x)),
        percent_decoded(utf8::encode_utf8(percent_bytes(x)) + rest) == x + percent_decoded(rest),
    decreases x.len(),
{
    if x.len() == 0 {
        assert(utf8::encode_utf8(percent_bytes(x)) + rest =~= rest);
        assert(x + percent_decoded(rest) =~= percent_decoded(rest));
    } else {
        let y = x[0];
        let head = seq!['%', hex_upper(y as int / 16), hex_upper(y as int % 16)];
        let tail = percent_bytes(x.skip(1));
        lemma_percent_bytes_decode(x.skip(1), rest);
        assert(utf8::is_ascii_chars(head));
        utf8::is_ascii_chars_encode_utf8(head);
        encode_utf8_concat(head, tail);
        let b = utf8::encode_utf8(percent_bytes(x)) + rest;
        let hb = utf8::encode_utf8(head);
        assert(hb[0] == head[0] as u8 && hb[1] == head[1] as u8 && hb[2] == head[2] as u8);
        assert(b =~= hb + (utf8::encode_utf8(tail) + rest));
        assert(b.skip(3) =~= utf8::encode_utf8(tail) + rest);
        assert(hex_byte(b[1], b[2]) == Some(y));
        assert(x =~= seq![y] + x.skip(1));
        assert(percent_decoded(b) =~= x + percent_decoded(rest));
    }
}

/// Decoding undoes encoding: the bytes of an encoded text decode to the bytes of the text,
/// and every encoded text can be decoded.
pub proof fn encoding_is_undone(s: Seq<char>)
    ensures
        utf8::is_ascii_chars(query_text(s)),
        decodable(utf8::encode_utf8(query_text(s))),
        percent_decoded(utf8::encode_utf8(query_text(s))) == utf8::encode_utf8(s),
        utf8::valid_utf8(percent_decoded(utf8::encode_utf8(query_text(s)))),
        utf8::decode_utf8(percent_decoded(utf8::encode_utf8(query_text(s)))) == s,
    decreases s.len(),
{
    broadcast use vstd::utf8::encode_utf8_valid_utf8;
    broadcast use vstd::utf8::encode_utf8_decode_utf8;

    if s.len() > 0 {
        let c = s[0];
        let rest = s.skip(1);
        encoding_is_undone(rest);
        let qb = utf8::encode_utf8(query_text(rest));
        encode_utf8_concat(query_char(c), query_text(rest));
        encode_utf8_concat(seq![c], rest);
        assert(seq![c] + rest =~= s);
        if unreserved(c) || c == ' ' {
            utf8::is_ascii_chars_encode_utf8(query_char(c));
            assert(utf8::is_ascii_chars(seq![c]));
            utf8::is_ascii_chars_encode_utf8(seq![c]);
            let b = utf8::encode_utf8(query_char(c)) + qb;
            assert(utf8::encode_utf8(query_char(c)).len() == 1);
            assert(utf8::encode_utf8(query_char(c))[0] == query_char(c)[0] as u8);
            assert(b.skip(1) =~= qb);
            assert(utf8::encode_utf8(seq![c]).len() == 1);
            assert(utf8::encode_utf8(seq![c])[0] == seq![c][0] as u8);
            assert(utf8::encode_utf8(seq![c]) =~= seq![c as u8]);
            assert(percent_decoded(b) =~= utf8::encode_utf8(seq![c]) + percent_decoded(qb));
        } else {
            lemma_percent_bytes_decode(utf8::encode_utf8(seq![c]), qb);
        }
    }
    utf8::is_ascii_chars_encode_utf8(query_text(s));
}

/// Two texts one after the other are encoded one after the other.
pub proof fn query_text_of_both(a: Seq<char>, b: Seq<char>)
    ensures
        query_text(a + b) == query_text(a) + query_text(b),
    decreases a.len(),
{
    if a.len() == 0 {
        assert(a + b =~= b);
        assert(query_text(a) + query_text(b) =~= query_text(b));
    } else {
        query_text_of_both(a.skip(1), b);
        assert((a + b).skip(1) =~= a.skip(1) + b);
        assert((a + b)[0] == a[0]);
        assert(query_text(a + b) =~= query_text(a) + query_text(b));
    }
}

/// An encoded text has letters, digits, `-_.~`, plus and percent signs alone, so that it ends no
/// part of an address.
pub proof fn encoded_text_is_plain(s: Seq<char>)
    ensures
        forall|i: int|
            0 <= i < query_text(s).len() ==> unreserved(#[trigger] query_text(s)[i])
                || query_text(s)[i] == '+' || query_text(s)[i] == '%',
    decreases s.len(),
{
    if s.len() > 0 {
        encoded_text_is_plain(s.skip(1));
        let c = s[0];
        lemma_percent_bytes_plain(utf8::encode_utf8(seq![c]));
        let q = query_char(c);
        assert forall|i: int| 0 <= i < query_text(s).len() implies unreserved(
            #[trigger] query_text(s)[i],
        ) || query_text(s)[i] == '+' || query_text(s)[i] == '%' by {
            if i < q.len() {
                assert(query_text(s)[i] == q[i]);
            } else {
                assert(query_text(s)[i] == query_text(s.skip(1))[i - q.len()]);
            }
        }
    }
}

/// Encoded bytes are percent signs and digits.
proof fn lemma_percent_bytes_plain(b: Seq<u8>)
    ensures
        forall|i: int|
            0 <= i < percent_bytes(b).len() ==> unreserved(#[trigger] percent_bytes(b)[i])
                || percent_bytes(b)[i] == '%',
    decreases b.len(),
{
    if b.len() > 0 {
        lemma_percent_bytes_plain(b.skip(1));
        let h = seq!['%', hex_upper(b[0] as int / 16), hex_upper(b[0] as int % 16)];
        assert forall|i: int| 0 <= i < percent_bytes(b).len() implies unreserved(
            #[trigger] percent_bytes(b)[i],
        ) || percent_bytes(b)[i] == '%' by {
            if i < 3 {
                assert(percent_bytes(b)[i] == h[i]);
            } else {
                assert(percent_bytes(b)[i] == percent_bytes(b.skip(1))[i - 3]);
            }
        }
    }
}

} // verus!
