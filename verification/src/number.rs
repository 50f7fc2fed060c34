//! Numbers as text.
use vstd::prelude::*;
use crate::text::chars_of;

verus! {

/// The character of a decimal digit.
pub open spec fn digit(d: int) -> char {
    ((48 + d) as u32) as char
}

/// The value of a decimal digit.
pub open spec fn digit_value(c: char) -> int {
    c as u32 - 48
}

/// Whether `c` is one of `0` to `9`.
pub open spec fn is_digit(c: char) -> bool {
    '0' <= c <= '9'
}

/// `n` in decimal, without leading zeros.
pub open spec fn decimal(n: nat) -> Seq<char>
    decreases n,
{
    if n < 10 {
        seq![digit(n as int)]
    } else {
        decimal(n / 10).push(digit((n % 10) as int))
    }
}

/// `n` in decimal, with a sign where it is negative.
pub open spec fn signed_decimal(n: int) -> Seq<char> {
    if n < 0 {
        seq!['-'] + decimal((-n) as nat)
    } else {
        decimal(n as nat)
    }
}

/// The character of `d`.
fn digit_char(d: u64) -> (c: char)
    requires
        d < 10,
    ensures
        c == digit(d as int),
{
    if d == 0 {
        '0'
    } else if d == 1 {
        '1'
    } else if d == 2 {
        '2'
    } else if d == 3 {
        '3'
    } else if d == 4 {
        '4'
    } else if d == 5 {
        '5'
    } else if d == 6 {
        '6'
    } else if d == 7 {
        '7'
    } else if d == 8 {
        '8'
    } else {
        '9'
    }
}

/// Writes `n` in decimal.
pub fn u64_text(n: u64) -> (s: String)
    ensures
        s@ == decimal(n as nat),
    decreases n,
{
    if n < 10 {
        let mut s = String::new();
        s.push(digit_char(n));
        assert(s@ =~= seq![digit(n as int)]);
        s
    } else {
        let mut s = u64_text(n / 10);
        s.push(digit_char(n % 10));
        s
    }
}

/// Writes `n` in decimal.
pub fn usize_text(n: usize) -> (s: String)
    ensures
        s@ == decimal(n as nat),
{
    u64_text(n as u64)
}

/// Writes `n` in decimal, with a sign where it is negative.
pub fn i64_text(n: i64) -> (s: String)
    ensures
        s@ == signed_decimal(n as int),
{
    if n < 0 {
        let mut s = String::new();
        s.push('-');
        let m: u64 = if n == i64::MIN {
            9_223_372_036_854_775_808
        } else {
            (-n) as u64
        };
        let t = u64_text(m);
        s.append(t.as_str());
        assert(s@ =~= seq!['-'] + decimal((-(n as int)) as nat));
        s
    } else {
        u64_text(n as u64)
    }
}

/// The number that a sequence of decimal digits stands for.
pub open spec fn digits_value(s: Seq<char>) -> nat
    decreases s.len(),
{
    if s.len() == 0 {
        0
    } else {
        (digits_value(s.drop_last()) * 10 + digit_value(s.last())) as nat
    }
}

/// Whether `s` is one or more decimal digits.
pub open spec fn all_digits(s: Seq<char>) -> bool {
    s.len() > 0 && forall|i: int| 0 <= i < s.len() ==> is_digit(#[trigger] s[i])
}

/// The number written in `s`: digits, with at most one `+` before them.
pub open spec fn parsed_nat(s: Seq<char>) -> Option<nat> {
    let t = if s.len() > 0 && s[0] == '+' {
        s.skip(1)
    } else {
        s
    };
    if all_digits(t) {
        Some(digits_value(t))
    } else {
        None
    }
}

/// The number written in `s`, where it is at most `max`.
pub open spec fn parsed_within(s: Seq<char>, max: nat) -> Option<nat> {
    match parsed_nat(s) {
        Some(n) => if n <= max {
            Some(n)
        } else {
            None
        },
        None => None,
    }
}

/// More digits give no smaller number.
proof fn lemma_digits_grow(s: Seq<char>, k: int)
    requires
        0 <= k <= s.len(),
        forall|i: int| 0 <= i < s.len() ==> is_digit(#[trigger] s[i]),
    ensures
        digits_value(s.take(k)) <= digits_value(s),
    decreases s.len() - k,
{
    if k == s.len() {
        assert(s.take(k) =~= s);
    } else {
        lemma_digits_grow(s, k + 1);
        assert(s.take(k + 1).drop_last() =~= s.take(k));
        assert(s.take(k + 1).last() == s[k]);
    }
}

/// Reads a number of at most `max`.
pub fn parse_bounded(s: &str, max: u64) -> (r: Option<u64>)
    ensures
        r matches Some(n) ==> parsed_within(s@, max as nat) == Some(n as nat),
        r is None ==> parsed_within(s@, max as nat) is None,
{
    let v = chars_of(s);
    let start: usize = if v.len() > 0 && v[0] == '+' {
        1
    } else {
        0
    };
    let ghost t = v@.skip(start as int);
    assert(start == 0 ==> t =~= v@);
    if start == v.len() {
        return None;
    }
    let mut k: usize = start;
    while k < v.len()
        invariant
            start <= k <= v@.len(),
            t == v@.skip(start as int),
            parsed_nat(s@) == (if all_digits(t) {
                Some(digits_value(t))
            } else {
                None
            }),
            forall|j: int| 0 <= j < k - start ==> is_digit(#[trigger] t[j]),
        decreases v.len() - k,
    {
        if v[k] < '0' || v[k] > '9' {
            assert(!is_digit(t[k - start]));
            return None;
        }
        assert(t[k - start] == v@[k as int]);
        k += 1;
    }
    assert(all_digits(t));
    let mut n: u64 = 0;
    let mut i: usize = start;
    assert(t.take(0) =~= Seq::<char>::empty());
    while i < v.len()
        invariant
            start <= i <= v@.len(),
            t == v@.skip(start as int),
            all_digits(t),
            parsed_nat(s@) == Some(digits_value(t)),
            n == digits_value(t.take(i - start)),
        decreases v.len() - i,
    {
        let c = v[i];
        assert(t[i - start] == c);
        let d: u64 = (c as u32 - 48) as u64;
        proof {
            assert(t.take(i + 1 - start).drop_last() =~= t.take(i - start));
            assert(t.take(i + 1 - start).last() == c);
            lemma_digits_grow(t, i + 1 - start);
        }
        if n > (u64::MAX - d) / 10 {
            return None;
        }
        n = n * 10 + d;
        i += 1;
    }
    assert(t.take(i - start) =~= t);
    if n <= max {
        Some(n)
    } else {
        None
    }
}

/// Reads a `u64`.
pub fn parse_u64(s: &str) -> (r: Option<u64>)
    ensures
        r matches Some(n) ==> parsed_within(s@, u64::MAX as nat) == Some(n as nat),
        r is None ==> parsed_within(s@, u64::MAX as nat) is None,
{
    parse_bounded(s, u64::MAX)
}

/// Reads a `usize`.
pub fn parse_usize(s: &str) -> (r: Option<usize>)
    ensures
        r matches Some(n) ==> parsed_within(s@, usize::MAX as nat) == Some(n as nat),
        r is None ==> parsed_within(s@, usize::MAX as nat) is None,
{
    match parse_bounded(s, usize::MAX as u64) {
        Some(n) => Some(n as usize),
        None => None,
    }
}

/// Reads a `u32`.
pub fn parse_u32(s: &str) -> (r: Option<u32>)
    ensures
        r matches Some(n) ==> parsed_within(s@, u32::MAX as nat) == Some(n as nat),
        r is None ==> parsed_within(s@, u32::MAX as nat) is None,
{
    match parse_bounded(s, u32::MAX as u64) {
        Some(n) => Some(n as u32),
        None => None,
    }
}

/// What is written in decimal reads back as the same number.
pub proof fn decimal_reads_back(n: nat)
    ensures
        parsed_nat(decimal(n)) == Some(n),
{
    lemma_decimal_digits(n);
}

/// The decimal form holds digits only, and its digits stand for the number.
proof fn lemma_decimal_digits(n: nat)
    ensures
        all_digits(decimal(n)),
        digits_value(decimal(n)) == n,
    decreases n,
{
    if n < 10 {
        assert(decimal(n).drop_last() =~= Seq::<char>::empty());
        reveal_with_fuel(digits_value, 2);
    } else {
        lemma_decimal_digits(n / 10);
        assert(decimal(n).drop_last() =~= decimal(n / 10));
    }
}

// ── Laws ─────────────────────────────────────────────────────────────────────

/// A number in decimal has digits alone, so that no sign, dot or hyphen stands in it.
pub proof fn decimal_is_digits(n: nat)
    ensures
        all_digits(decimal(n)),
        !decimal(n).contains('.'),
        !decimal(n).contains('-'),
{
    lemma_decimal_digits(n);
    assert forall|c: char| decimal(n).contains(c) implies is_digit(c) by {
        let i = choose|i: int| 0 <= i < decimal(n).len() && decimal(n)[i] == c;
        assert(is_digit(decimal(n)[i]));
    }
}

/// Different numbers are written differently.
pub proof fn numbers_are_told_apart(a: nat, b: nat)
    requires
        decimal(a) == decimal(b),
    ensures
        a == b,
{
    decimal_reads_back(a);
    decimal_reads_back(b);
}

/// What is read within a bound is a number of at most the bound, and every such number that is
/// written in decimal is read.
pub proof fn bounded_numbers_are_read(n: nat, max: nat, s: Seq<char>)
    ensures
        n <= max ==> parsed_within(decimal(n), max) == Some(n),
        n > max ==> parsed_within(decimal(n), max) is None,
        parsed_within(s, max) matches Some(k) ==> k <= max && parsed_nat(s) == Some(k),
        parsed_within(Seq::empty(), max) is None,
{
    decimal_reads_back(n);
}

/// A negative number is written with a hyphen before its amount.
pub proof fn signs_are_written(n: int)
    ensures
        n >= 0 ==> signed_decimal(n) == decimal(n as nat),
        n < 0 ==> signed_decimal(n).len() > 0 && signed_decimal(n)[0] == '-' && signed_decimal(n).skip(
            1,
        ) == decimal((-n) as nat),
{
    if n < 0 {
        assert(signed_decimal(n).skip(1) =~= decimal((-n) as nat));
    }
}

} // verus!
