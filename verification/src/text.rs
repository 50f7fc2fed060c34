//! Text operations on sequences of characters.
//!
//! Every executable function here is stated over the characters of its
//! arguments: the view of a string is a `Seq<char>`.
use vstd::prelude::*;
use vstd::utf8;

verus! {

/// `String::push` appends the given character at the end.
pub assume_specification[ String::push ](s: &mut String, c: char)
    ensures
        final(s)@ == old(s)@.push(c),
;

/// The characters with Unicode's White_Space property.
pub open spec fn is_space(c: char) -> bool {
    let u = c as u32;
    ||| 0x9 <= u <= 0xD
    ||| u == 0x20
    ||| u == 0x85
    ||| u == 0xA0
    ||| u == 0x1680
    ||| 0x2000 <= u <= 0x200A
    ||| u == 0x2028
    ||| u == 0x2029
    ||| u == 0x202F
    ||| u == 0x205F
    ||| u == 0x3000
}

/// Whether `c` is white space.
pub fn is_space_char(c: char) -> (r: bool)
    ensures
        r == is_space(c),
{
    let u: u32 = c as u32;
    (0x9 <= u && u <= 0xD) || u == 0x20 || u == 0x85 || u == 0xA0 || u == 0x1680 || (0x2000 <= u
        && u <= 0x200A) || u == 0x2028 || u == 0x2029 || u == 0x202F || u == 0x205F || u == 0x3000
}

/// The characters of `s`.
pub fn chars_of(s: &str) -> (v: Vec<char>)
    ensures
        v@ == s@,
{
    let mut v: Vec<char> = Vec::new();
    for c in it: s.chars()
        invariant
            v@ == it.seq().take(it.index() as int),
            it.seq() == s@,
    {
        v.push(c);
    }
    v
}

/// The string with the characters `v[from..to]`.
pub fn string_of(v: &[char], from: usize, to: usize) -> (s: String)
    requires
        from <= to <= v@.len(),
    ensures
        s@ == v@.subrange(from as int, to as int),
{
    let mut s = String::new();
    let mut i: usize = from;
    while i < to
        invariant
            from <= i <= to <= v@.len(),
            s@ == v@.subrange(from as int, i as int),
        decreases to - i,
    {
        s.push(v[i]);
        i += 1;
    }
    s
}

/// Whether a string has no characters.
pub fn is_empty(s: &str) -> (r: bool)
    ensures
        r == (s@.len() == 0),
{
    s.unicode_len() == 0
}

/// Whether two strings have the same characters.
pub fn same(a: &str, b: &str) -> (r: bool)
    ensures
        r == (a@ == b@),
{
    a.to_owned() == b.to_owned()
}


// ── Prefixes, suffixes and occurrences ─────────────────────────────────────────

/// Whether `p` stands in `s` at index `i`.
pub open spec fn occurs_at(s: Seq<char>, p: Seq<char>, i: int) -> bool {
    0 <= i && i + p.len() <= s.len() && s.subrange(i, i + p.len()) == p
}

/// Whether `p` stands anywhere in `s`.
pub open spec fn holds(s: Seq<char>, p: Seq<char>) -> bool {
    exists|i: int| #[trigger] occurs_at(s, p, i)
}

/// The least index at or after `i` where `p` stands in `s`.
pub open spec fn find_from(s: Seq<char>, p: Seq<char>, i: int) -> Option<int>
    decreases s.len() - i + 1,
{
    if i < 0 || i + p.len() > s.len() {
        None
    } else if occurs_at(s, p, i) {
        Some(i)
    } else {
        find_from(s, p, i + 1)
    }
}

/// The least index where `p` stands in `s`.
pub open spec fn find(s: Seq<char>, p: Seq<char>) -> Option<int> {
    find_from(s, p, 0)
}

/// Whether `s` begins with `p`.
pub open spec fn begins(s: Seq<char>, p: Seq<char>) -> bool {
    occurs_at(s, p, 0)
}

/// Whether `s` ends with `p`.
pub open spec fn ends(s: Seq<char>, p: Seq<char>) -> bool {
    occurs_at(s, p, s.len() - p.len())
}

/// `find_from` gives the least occurrence, and `None` means there is none.
pub proof fn find_from_is_least(s: Seq<char>, p: Seq<char>, i: int)
    requires
        0 <= i,
    ensures
        find_from(s, p, i) matches Some(k) ==> i <= k && occurs_at(s, p, k) && forall|j: int|
            i <= j < k ==> !#[trigger] occurs_at(s, p, j),
        find_from(s, p, i) is None ==> forall|j: int| i <= j ==> !#[trigger] occurs_at(s, p, j),
    decreases s.len() - i + 1,
{
    if i + p.len() <= s.len() && !occurs_at(s, p, i) {
        find_from_is_least(s, p, i + 1);
    }
}

/// Whether `p` stands in `v` at index `i`.
fn matches_at(v: &[char], p: &[char], i: usize) -> (r: bool)
    requires
        i <= v@.len(),
    ensures
        r == occurs_at(v@, p@, i as int),
{
    if p.len() > v.len() - i {
        return false;
    }
    let mut k: usize = 0;
    while k < p.len()
        invariant
            k <= p.len(),
            i + p.len() <= v.len(),
            forall|j: int| 0 <= j < k ==> v@[i + j] == p@[j],
        decreases p.len() - k,
    {
        if v[i + k] != p[k] {
            assert(v@.subrange(i as int, i + p@.len())[k as int] != p@[k as int]);
            return false;
        }
        k += 1;
    }
    assert(v@.subrange(i as int, i + p@.len()) =~= p@);
    true
}

/// The least index at or after `start` where `p` stands in `v`.
pub fn find_chars(v: &[char], p: &[char], start: usize) -> (r: Option<usize>)
    requires
        start <= v@.len(),
    ensures
        r is Some == find_from(v@, p@, start as int) is Some,
        r matches Some(k) ==> find_from(v@, p@, start as int) == Some(k as int) && start <= k && k
            + p@.len() <= v@.len() && occurs_at(v@, p@, k as int),
{
    let mut i: usize = start;
    while i < v.len()
        invariant
            start <= i <= v@.len(),
            find_from(v@, p@, start as int) == find_from(v@, p@, i as int),
        decreases v.len() - i,
    {
        if matches_at(v, p, i) {
            return Some(i);
        }
        i += 1;
    }
    if matches_at(v, p, i) {
        return Some(i);
    }
    assert(find_from(v@, p@, i + 1) is None);
    None
}

/// Whether `hay` holds `needle`.
pub fn contains(hay: &str, needle: &str) -> (r: bool)
    ensures
        r == holds(hay@, needle@),
{
    let v = chars_of(hay);
    let p = chars_of(needle);
    let r = find_chars(&v, &p, 0);
    proof {
        find_from_is_least(hay@, needle@, 0);
    }
    r.is_some()
}

/// Whether `hay` holds the character `c`.
pub fn contains_char(hay: &str, c: char) -> (r: bool)
    ensures
        r == hay@.contains(c),
{
    for x in it: hay.chars()
        invariant
            it.seq() == hay@,
            forall|j: int| 0 <= j < it.index() ==> hay@[j] != c,
    {
        if x == c {
            return true;
        }
    }
    false
}

/// Whether `s` begins with `p`.
pub fn starts_with(s: &str, p: &str) -> (r: bool)
    ensures
        r == begins(s@, p@),
{
    let v = chars_of(s);
    let q = chars_of(p);
    matches_at(&v, &q, 0)
}

/// Whether `s` ends with `p`.
pub fn ends_with(s: &str, p: &str) -> (r: bool)
    ensures
        r == ends(s@, p@),
{
    let v = chars_of(s);
    let q = chars_of(p);
    if q.len() > v.len() {
        return false;
    }
    matches_at(&v, &q, v.len() - q.len())
}

/// What follows the prefix `p` of `s`, where `s` begins with `p`.
pub open spec fn after_prefix(s: Seq<char>, p: Seq<char>) -> Option<Seq<char>> {
    if begins(s, p) {
        Some(s.skip(p.len() as int))
    } else {
        None
    }
}

/// What precedes the suffix `p` of `s`, where `s` ends with `p`.
pub open spec fn before_suffix(s: Seq<char>, p: Seq<char>) -> Option<Seq<char>> {
    if ends(s, p) {
        Some(s.take(s.len() - p.len()))
    } else {
        None
    }
}

/// The view of an optional string.
pub open spec fn opt(s: Option<String>) -> Option<Seq<char>> {
    match s {
        Some(x) => Some(x@),
        None => None,
    }
}

/// The view of an optional string slice.
pub open spec fn opt_str(s: Option<&str>) -> Option<Seq<char>> {
    match s {
        Some(x) => Some(x@),
        None => None,
    }
}

/// Removes the prefix `p`, where `s` begins with it.
pub fn strip_prefix(s: &str, p: &str) -> (r: Option<String>)
    ensures
        opt(r) == after_prefix(s@, p@),
{
    let v = chars_of(s);
    let q = chars_of(p);
    if matches_at(&v, &q, 0) {
        let r = string_of(&v, q.len(), v.len());
        assert(r@ =~= s@.skip(p@.len() as int));
        Some(r)
    } else {
        None
    }
}

/// Removes the suffix `p`, where `s` ends with it.
pub fn strip_suffix(s: &str, p: &str) -> (r: Option<String>)
    ensures
        opt(r) == before_suffix(s@, p@),
{
    let v = chars_of(s);
    let q = chars_of(p);
    if q.len() <= v.len() && matches_at(&v, &q, v.len() - q.len()) {
        let r = string_of(&v, 0, v.len() - q.len());
        assert(r@ =~= s@.take(s@.len() - p@.len()));
        Some(r)
    } else {
        None
    }
}

// ── Trimming ───────────────────────────────────────────────────────────────────

/// `s` without its leading white space.
pub open spec fn trimmed_start(s: Seq<char>) -> Seq<char>
    decreases s.len(),
{
    if s.len() > 0 && is_space(s[0]) {
        trimmed_start(s.skip(1))
    } else {
        s
    }
}

/// `s` without its trailing white space.
pub open spec fn trimmed_end(s: Seq<char>) -> Seq<char>
    decreases s.len(),
{
    if s.len() > 0 && is_space(s.last()) {
        trimmed_end(s.take(s.len() - 1))
    } else {
        s
    }
}

/// `s` without white space at either end.
pub open spec fn trimmed(s: Seq<char>) -> Seq<char> {
    trimmed_end(trimmed_start(s))
}

/// `s` without any leading copies of `p`.
pub open spec fn without_prefixes(s: Seq<char>, p: Seq<char>) -> Seq<char>
    decreases s.len(),
{
    if p.len() > 0 && begins(s, p) {
        without_prefixes(s.skip(p.len() as int), p)
    } else {
        s
    }
}

/// `s` without any trailing copies of `p`.
pub open spec fn without_suffixes(s: Seq<char>, p: Seq<char>) -> Seq<char>
    decreases s.len(),
{
    if p.len() > 0 && ends(s, p) {
        without_suffixes(s.take(s.len() - p.len()), p)
    } else {
        s
    }
}

/// The first index of `v` at or after `from` that holds no white space.
fn skip_space(v: &[char], from: usize) -> (i: usize)
    requires
        from <= v@.len(),
    ensures
        from <= i <= v@.len(),
        trimmed_start(v@.skip(from as int)) == v@.skip(i as int),
        i < v@.len() ==> !is_space(v@[i as int]),
        forall|j: int| from <= j < i ==> is_space(#[trigger] v@[j]),
{
    let mut i: usize = from;
    while i < v.len() && is_space_char(v[i])
        invariant
            from <= i <= v@.len(),
            trimmed_start(v@.skip(from as int)) == trimmed_start(v@.skip(i as int)),
            forall|j: int| from <= j < i ==> is_space(#[trigger] v@[j]),
        decreases v.len() - i,
    {
        assert(v@.skip(i as int).skip(1) =~= v@.skip(i + 1));
        i += 1;
    }
    i
}

/// The end of `v[from..]` without its trailing white space.
fn skip_space_back(v: &[char], from: usize) -> (i: usize)
    requires
        from <= v@.len(),
    ensures
        from <= i <= v@.len(),
        trimmed_end(v@.skip(from as int)) == v@.subrange(from as int, i as int),
{
    let mut i: usize = v.len();
    assert(v@.subrange(from as int, i as int) =~= v@.skip(from as int));
    while i > from && is_space_char(v[i - 1])
        invariant
            from <= i <= v@.len(),
            trimmed_end(v@.skip(from as int)) == trimmed_end(v@.subrange(from as int, i as int)),
        decreases i,
    {
        assert(v@.subrange(from as int, i as int).take(i - from - 1) =~= v@.subrange(
            from as int,
            i - 1,
        ));
        i -= 1;
    }
    i
}

/// Removes white space at both ends.
pub fn trim(s: &str) -> (r: String)
    ensures
        r@ == trimmed(s@),
{
    let v = chars_of(s);
    let a = skip_space(&v, 0);
    let b = skip_space_back(&v, a);
    assert(v@.skip(0) =~= v@);
    string_of(&v, a, b)
}

/// Removes leading white space.
pub fn trim_start(s: &str) -> (r: String)
    ensures
        r@ == trimmed_start(s@),
{
    let v = chars_of(s);
    let a = skip_space(&v, 0);
    assert(v@.skip(0) =~= v@);
    assert(v@.subrange(a as int, v@.len() as int) =~= v@.skip(a as int));
    string_of(&v, a, v.len())
}

/// Removes trailing white space.
pub fn trim_end(s: &str) -> (r: String)
    ensures
        r@ == trimmed_end(s@),
{
    let v = chars_of(s);
    let b = skip_space_back(&v, 0);
    assert(v@.skip(0) =~= v@);
    string_of(&v, 0, b)
}

/// Removes every leading copy of `p`.
pub fn trim_start_matches(s: &str, p: &str) -> (r: String)
    requires
        p@.len() > 0,
    ensures
        r@ == without_prefixes(s@, p@),
{
    let v = chars_of(s);
    let q = chars_of(p);
    let mut i: usize = 0;
    assert(v@.skip(0) =~= v@);
    while matches_at(&v, &q, i)
        invariant
            q@.len() > 0,
            i <= v@.len(),
            without_prefixes(v@, q@) == without_prefixes(v@.skip(i as int), q@),
        decreases v.len() - i,
    {
        proof {
            lemma_occurs_skip(v@, q@, i as int);
            assert(v@.skip(i as int).skip(q@.len() as int) =~= v@.skip(i + q@.len()));
        }
        i += q.len();
    }
    proof {
        lemma_occurs_skip(v@, q@, i as int);
    }
    assert(v@.subrange(i as int, v@.len() as int) =~= v@.skip(i as int));
    string_of(&v, i, v.len())
}

/// An occurrence at `i` is one at the beginning of what starts at `i`.
proof fn lemma_occurs_skip(s: Seq<char>, p: Seq<char>, i: int)
    requires
        0 <= i <= s.len(),
    ensures
        occurs_at(s, p, i) == begins(s.skip(i), p),
{
    if i + p.len() <= s.len() {
        assert(s.subrange(i, i + p.len()) =~= s.skip(i).subrange(0, p.len() as int));
    }
}

/// Removes every trailing copy of `p`.
pub fn trim_end_matches(s: &str, p: &str) -> (r: String)
    requires
        p@.len() > 0,
    ensures
        r@ == without_suffixes(s@, p@),
{
    let v = chars_of(s);
    let q = chars_of(p);
    let mut i: usize = v.len();
    assert(v@.take(i as int) =~= v@);
    while i >= q.len() && matches_at(&v, &q, i - q.len())
        invariant
            q@.len() > 0,
            i <= v@.len(),
            without_suffixes(v@, q@) == without_suffixes(v@.take(i as int), q@),
        decreases i,
    {
        proof {
            lemma_occurs_take(v@, q@, i as int);
            assert(v@.take(i as int).take(i - q@.len()) =~= v@.take(i - q@.len()));
        }
        i -= q.len();
    }
    proof {
        lemma_occurs_take(v@, q@, i as int);
    }
    assert(v@.subrange(0, i as int) =~= v@.take(i as int));
    string_of(&v, 0, i)
}

/// An occurrence that stops at `i` is one at the end of what stops at `i`.
proof fn lemma_occurs_take(s: Seq<char>, p: Seq<char>, i: int)
    requires
        0 <= i <= s.len(),
    ensures
        occurs_at(s, p, i - p.len()) == ends(s.take(i), p),
{
    if p.len() <= i {
        assert(s.subrange(i - p.len(), i) =~= s.take(i).subrange(i - p.len(), i));
    }
}

// ── Splitting and joining ──────────────────────────────────────────────────────

/// The least index at or after `i` of a character of `seps` in `s`, or the length of `s`.
pub open spec fn sep_from(s: Seq<char>, seps: Seq<char>, i: int) -> int
    decreases s.len() - i,
{
    if i >= s.len() {
        s.len() as int
    } else if seps.contains(s[i]) {
        i
    } else {
        sep_from(s, seps, i + 1)
    }
}

/// The pieces of `s` between the characters of `seps`; at least one, possibly empty.
pub open spec fn split(s: Seq<char>, seps: Seq<char>) -> Seq<Seq<char>>
    decreases s.len(),
    via split_decreases
{
    let k = sep_from(s, seps, 0);
    if k >= s.len() {
        seq![s]
    } else {
        seq![s.take(k)] + split(s.skip(k + 1), seps)
    }
}

#[via_fn]
proof fn split_decreases(s: Seq<char>, seps: Seq<char>) {
    sep_from_bounds(s, seps, 0);
}

/// `sep_from` stays between its start and the length, and finds the least separator.
pub proof fn sep_from_bounds(s: Seq<char>, seps: Seq<char>, i: int)
    requires
        0 <= i <= s.len(),
    ensures
        i <= sep_from(s, seps, i) <= s.len(),
        forall|j: int| i <= j < sep_from(s, seps, i) ==> !seps.contains(#[trigger] s[j]),
        sep_from(s, seps, i) < s.len() ==> seps.contains(s[sep_from(s, seps, i)]),
    decreases s.len() - i,
{
    if i < s.len() && !seps.contains(s[i]) {
        sep_from_bounds(s, seps, i + 1);
    }
}

/// Whatever index the search for a separator starts from, the rest decides it.
proof fn lemma_sep_from_skip(s: Seq<char>, seps: Seq<char>, i: int)
    requires
        0 <= i <= s.len(),
    ensures
        sep_from(s, seps, i) == i + sep_from(s.skip(i), seps, 0),
{
    sep_from_bounds(s, seps, i);
    sep_from_bounds(s.skip(i), seps, 0);
    let a = sep_from(s, seps, i);
    let b = sep_from(s.skip(i), seps, 0);
    if a < i + b {
        assert(s.skip(i)[a - i] == s[a]);
    } else if a > i + b {
        assert(s.skip(i)[b] == s[i + b]);
    }
}

/// The first separator at or after `from`.
fn find_sep(v: &[char], seps: &[char], from: usize) -> (k: usize)
    requires
        from <= v@.len(),
    ensures
        k == sep_from(v@, seps@, from as int),
        from <= k <= v@.len(),
{
    let mut i: usize = from;
    while i < v.len()
        invariant
            from <= i <= v@.len(),
            sep_from(v@, seps@, from as int) == sep_from(v@, seps@, i as int),
        decreases v.len() - i,
    {
        if has_char(seps, v[i]) {
            return i;
        }
        i += 1;
    }
    i
}

/// Whether `v` holds `c`.
pub fn has_char(v: &[char], c: char) -> (r: bool)
    ensures
        r == v@.contains(c),
{
    let mut i: usize = 0;
    while i < v.len()
        invariant
            i <= v@.len(),
            forall|j: int| 0 <= j < i ==> v@[j] != c,
        decreases v.len() - i,
    {
        if v[i] == c {
            return true;
        }
        i += 1;
    }
    false
}

/// The views of the strings of a vector.
pub open spec fn views(v: Seq<String>) -> Seq<Seq<char>> {
    v.map_values(|s: String| s@)
}

/// The views of the string slices of a sequence.
pub open spec fn str_views(v: Seq<&str>) -> Seq<Seq<char>> {
    v.map_values(|s: &str| s@)
}

/// Pushing a string pushes its view.
pub broadcast proof fn views_push(v: Seq<String>, s: String)
    ensures
        #[trigger] views(v.push(s)) == views(v).push(s@),
{
    assert(views(v.push(s)) =~= views(v).push(s@));
}

/// Splits at every character of `seps`.
pub fn split_chars(s: &str, seps: &[char]) -> (r: Vec<String>)
    ensures
        views(r@) == split(s@, seps@),
        r@.len() >= 1,
{
    broadcast use views_push;

    let v = chars_of(s);
    let mut r: Vec<String> = Vec::new();
    let mut start: usize = 0;
    assert(v@.skip(0) =~= v@);
    assert(views(r@) =~= Seq::<Seq<char>>::empty());
    assert(views(r@) + split(v@, seps@) =~= split(v@, seps@));
    loop
        invariant_except_break
            start <= v@.len(),
            split(v@, seps@) == views(r@) + split(v@.skip(start as int), seps@),
        invariant
            v@ == s@,
        ensures
            views(r@) == split(v@, seps@),
            r@.len() >= 1,
        decreases v.len() - start,
    {
        let k = find_sep(&v, seps, start);
        let ghost rest = v@.skip(start as int);
        let ghost before = views(r@);
        proof {
            lemma_sep_from_skip(v@, seps@, start as int);
        }
        let piece = string_of(&v, start, k);
        assert(piece@ =~= rest.take(k - start));
        r.push(piece);
        if k == v.len() {
            assert(rest.take(k - start) =~= rest);
            assert(views(r@) =~= before + seq![rest]);
            break;
        }
        assert(rest.skip(k - start + 1) =~= v@.skip(k + 1));
        assert(views(r@) + split(v@.skip(k + 1), seps@) =~= before + (seq![rest.take(k - start)]
            + split(v@.skip(k + 1), seps@)));
        start = k + 1;
    }
    r
}

/// The first piece of `s` before any character of `seps`.
pub open spec fn first_piece(s: Seq<char>, seps: Seq<char>) -> Seq<char> {
    s.take(sep_from(s, seps, 0))
}

/// What stands before the first character of `seps`.
pub fn split_first(s: &str, seps: &[char]) -> (r: String)
    ensures
        r@ == first_piece(s@, seps@),
{
    let v = chars_of(s);
    let k = find_sep(&v, seps, 0);
    assert(v@.subrange(0, k as int) =~= v@.take(k as int));
    string_of(&v, 0, k)
}

/// The two parts of `s` around the first `sep`.
pub open spec fn split_at_first(s: Seq<char>, sep: char) -> Option<(Seq<char>, Seq<char>)> {
    let k = sep_from(s, seq![sep], 0);
    if k < s.len() {
        Some((s.take(k), s.skip(k + 1)))
    } else {
        None
    }
}

/// The view of an optional pair of strings.
pub open spec fn opt_pair(p: Option<(String, String)>) -> Option<(Seq<char>, Seq<char>)> {
    match p {
        Some((a, b)) => Some((a@, b@)),
        None => None,
    }
}

/// Splits once, at the first `sep`.
pub fn split_once(s: &str, sep: char) -> (r: Option<(String, String)>)
    ensures
        opt_pair(r) == split_at_first(s@, sep),
{
    let v = chars_of(s);
    let seps: Vec<char> = vec![sep];
    assert(seps@ =~= seq![sep]);
    let k = find_sep(&v, &seps, 0);
    if k < v.len() {
        let a = string_of(&v, 0, k);
        let b = string_of(&v, k + 1, v.len());
        assert(a@ =~= s@.take(k as int));
        assert(b@ =~= s@.skip(k + 1));
        Some((a, b))
    } else {
        None
    }
}

/// The words of `s`: its longest runs without white space.
pub open spec fn words(s: Seq<char>) -> Seq<Seq<char>>
    decreases s.len(),
    via words_decreases
{
    let t = trimmed_start(s);
    if t.len() == 0 {
        Seq::empty()
    } else {
        let k = space_from(t, 0);
        seq![t.take(k)] + words(t.skip(k))
    }
}

#[via_fn]
proof fn words_decreases(s: Seq<char>) {
    trimmed_start_shape(s);
    space_from_bounds(trimmed_start(s), 0);
}

/// The least index at or after `i` of white space in `s`, or the length of `s`.
pub open spec fn space_from(s: Seq<char>, i: int) -> int
    decreases s.len() - i,
{
    if i >= s.len() {
        s.len() as int
    } else if is_space(s[i]) {
        i
    } else {
        space_from(s, i + 1)
    }
}

/// `space_from` finds the least white space.
pub proof fn space_from_bounds(s: Seq<char>, i: int)
    requires
        0 <= i <= s.len(),
    ensures
        i <= space_from(s, i) <= s.len(),
        forall|j: int| i <= j < space_from(s, i) ==> !is_space(#[trigger] s[j]),
        space_from(s, i) < s.len() ==> is_space(s[space_from(s, i)]),
    decreases s.len() - i,
{
    if i < s.len() && !is_space(s[i]) {
        space_from_bounds(s, i + 1);
    }
}

/// Removing leading white space leaves a rest that begins with something else.
pub proof fn trimmed_start_shape(s: Seq<char>)
    ensures
        trimmed_start(s).len() <= s.len(),
        trimmed_start(s) == s.skip(s.len() - trimmed_start(s).len()),
        trimmed_start(s).len() > 0 ==> !is_space(trimmed_start(s)[0]),
    decreases s.len(),
{
    if s.len() > 0 && is_space(s[0]) {
        trimmed_start_shape(s.skip(1));
        let n = trimmed_start(s).len();
        assert(s.skip(1).skip(s.len() - 1 - n) =~= s.skip(s.len() - n));
    } else {
        assert(s.skip(0) =~= s);
    }
}

/// Splits at white space.
pub fn split_whitespace(s: &str) -> (r: Vec<String>)
    ensures
        views(r@) == words(s@),
{
    broadcast use views_push;

    let v = chars_of(s);
    let mut r: Vec<String> = Vec::new();
    let mut i: usize = 0;
    assert(v@.skip(0) =~= v@);
    assert(views(r@) + words(v@) =~= words(v@));
    while i < v.len()
        invariant
            i <= v@.len(),
            v@ == s@,
            words(v@) == views(r@) + words(v@.skip(i as int)),
        decreases v.len() - i,
    {
        let a = skip_space(&v, i);
        let ghost rest = v@.skip(i as int);
        let ghost t = v@.skip(a as int);
        if a == v.len() {
            assert(words(rest) =~= Seq::<Seq<char>>::empty());
            assert(words(v@.skip(a as int)) =~= Seq::<Seq<char>>::empty());
            i = a;
        } else {
            let b = next_space(&v, a);
            proof {
                space_from_bounds(t, 0);
                if b < v.len() {
                    assert(t[b - a] == v@[b as int]);
                }
                if space_from(t, 0) < t.len() {
                    assert(t[space_from(t, 0)] == v@[a + space_from(t, 0)]);
                }
                assert(t.len() > 0 && !is_space(t[0]));
                assert(space_from(t, 0) == b - a);
            }
            let piece = string_of(&v, a, b);
            let ghost before = views(r@);
            assert(piece@ =~= t.take(b - a));
            assert(t.skip(b - a) =~= v@.skip(b as int));
            r.push(piece);
            assert(views(r@) + words(v@.skip(b as int)) =~= before + (seq![t.take(b - a)] + words(
                v@.skip(b as int),
            )));
            i = b;
        }
    }
    assert(words(v@.skip(i as int)) =~= Seq::<Seq<char>>::empty()) by {
        assert(v@.skip(i as int).len() == 0);
    }
    assert(views(r@) + Seq::<Seq<char>>::empty() =~= views(r@));
    r
}

/// The first white space at or after `from`.
fn next_space(v: &[char], from: usize) -> (k: usize)
    requires
        from < v@.len(),
        !is_space(v@[from as int]),
    ensures
        from < k <= v@.len(),
        forall|j: int| from <= j < k ==> !is_space(#[trigger] v@[j]),
        k < v@.len() ==> is_space(v@[k as int]),
{
    let mut i: usize = from;
    while i < v.len() && !is_space_char(v[i])
        invariant
            from <= i <= v@.len(),
            forall|j: int| from <= j < i ==> !is_space(#[trigger] v@[j]),
        decreases v.len() - i,
    {
        i += 1;
    }
    i
}

/// The line `s` without a carriage return at its end.
pub open spec fn without_cr(s: Seq<char>) -> Seq<char> {
    if s.len() > 0 && s.last() == '\r' {
        s.take(s.len() - 1)
    } else {
        s
    }
}

/// The lines of `s`: each ends at a line feed, or at a carriage return and a line feed,
/// and nothing after the last line feed is no line.
pub open spec fn line_seq(s: Seq<char>) -> Seq<Seq<char>>
    decreases s.len(),
    via line_seq_decreases
{
    if s.len() == 0 {
        Seq::empty()
    } else {
        let k = sep_from(s, seq!['\n'], 0);
        if k >= s.len() {
            seq![s]
        } else {
            seq![without_cr(s.take(k))] + line_seq(s.skip(k + 1))
        }
    }
}

#[via_fn]
proof fn line_seq_decreases(s: Seq<char>) {
    sep_from_bounds(s, seq!['\n'], 0);
}

/// Splits into lines.
pub fn lines(s: &str) -> (r: Vec<String>)
    ensures
        views(r@) == line_seq(s@),
{
    broadcast use views_push;

    let v = chars_of(s);
    let nl: Vec<char> = vec!['\n'];
    assert(nl@ =~= seq!['\n']);
    let mut r: Vec<String> = Vec::new();
    let mut start: usize = 0;
    assert(v@.skip(0) =~= v@);
    assert(views(r@) + line_seq(v@) =~= line_seq(v@));
    while start < v.len()
        invariant
            start <= v@.len(),
            v@ == s@,
            nl@ == seq!['\n'],
            line_seq(v@) == views(r@) + line_seq(v@.skip(start as int)),
        decreases v.len() - start,
    {
        let k = find_sep(&v, &nl, start);
        let ghost rest = v@.skip(start as int);
        let ghost before = views(r@);
        proof {
            lemma_sep_from_skip(v@, nl@, start as int);
        }
        if k == v.len() {
            let piece = string_of(&v, start, k);
            assert(piece@ =~= rest);
            r.push(piece);
            assert(views(r@) =~= before + seq![rest]);
            assert(line_seq(v@.skip(k as int)) =~= Seq::<Seq<char>>::empty());
            assert(views(r@) + line_seq(v@.skip(k as int)) =~= views(r@));
            start = k;
        } else {
            let end = if k > start && v[k - 1] == '\r' {
                k - 1
            } else {
                k
            };
            let piece = string_of(&v, start, end);
            assert(piece@ =~= without_cr(rest.take(k - start)));
            r.push(piece);
            assert(rest.skip(k - start + 1) =~= v@.skip(k + 1));
            assert(views(r@) + line_seq(v@.skip(k + 1)) =~= before + (seq![
                without_cr(rest.take(k - start)),
            ] + line_seq(v@.skip(k + 1))));
            start = k + 1;
        }
    }
    assert(line_seq(v@.skip(start as int)) =~= Seq::<Seq<char>>::empty());
    assert(views(r@) + Seq::<Seq<char>>::empty() =~= views(r@));
    r
}

/// `s` with every copy of `from` replaced by `to`, found from left to right.
pub open spec fn replaced(s: Seq<char>, from: Seq<char>, to: Seq<char>) -> Seq<char>
    decreases s.len(),
{
    if s.len() == 0 || from.len() == 0 {
        s
    } else if begins(s, from) {
        to + replaced(s.skip(from.len() as int), from, to)
    } else {
        seq![s[0]] + replaced(s.skip(1), from, to)
    }
}

/// Replaces every copy of `from` by `to`.
pub fn replace(s: &str, from: &str, to: &str) -> (r: String)
    requires
        from@.len() > 0,
    ensures
        r@ == replaced(s@, from@, to@),
{
    let v = chars_of(s);
    let p = chars_of(from);
    let mut r = String::new();
    let mut i: usize = 0;
    assert(v@.skip(0) =~= v@);
    assert(r@ + replaced(v@, p@, to@) =~= replaced(v@, p@, to@));
    while i < v.len()
        invariant
            p@.len() > 0,
            i <= v@.len(),
            replaced(v@, p@, to@) == r@ + replaced(v@.skip(i as int), p@, to@),
        decreases v.len() - i,
    {
        let ghost rest = v@.skip(i as int);
        let ghost before = r@;
        proof {
            lemma_occurs_skip(v@, p@, i as int);
        }
        if matches_at(&v, &p, i) {
            r.append(to);
            assert(rest.skip(p@.len() as int) =~= v@.skip(i + p@.len()));
            assert(r@ + replaced(v@.skip(i + p@.len()), p@, to@) =~= before + (to@ + replaced(
                v@.skip(i + p@.len()),
                p@,
                to@,
            )));
            i += p.len();
        } else {
            r.push(v[i]);
            assert(rest.skip(1) =~= v@.skip(i + 1));
            assert(r@ + replaced(v@.skip(i + 1), p@, to@) =~= before + (seq![v@[i as int]]
                + replaced(v@.skip(i + 1), p@, to@)));
            i += 1;
        }
    }
    assert(r@ + replaced(v@.skip(i as int), p@, to@) =~= r@);
    r
}

/// The pieces with `sep` between them.
pub open spec fn joined(pieces: Seq<Seq<char>>, sep: Seq<char>) -> Seq<char>
    decreases pieces.len(),
{
    if pieces.len() == 0 {
        Seq::empty()
    } else if pieces.len() == 1 {
        pieces[0]
    } else {
        joined(pieces.drop_last(), sep) + sep + pieces.last()
    }
}

/// Joins strings with `sep` between them.
pub fn join(pieces: &[String], sep: &str) -> (r: String)
    ensures
        r@ == joined(views(pieces@), sep@),
{
    let mut r = String::new();
    let mut i: usize = 0;
    let ghost vs = views(pieces@);
    while i < pieces.len()
        invariant
            vs == views(pieces@),
            i <= pieces@.len(),
            r@ == joined(vs.take(i as int), sep@),
        decreases pieces.len() - i,
    {
        if i > 0 {
            r.append(sep);
        }
        r.append(pieces[i].as_str());
        proof {
            assert(vs.take(i + 1).drop_last() =~= vs.take(i as int));
            assert(vs.take(i + 1).last() == pieces@[i as int]@);
            if i == 0 {
                assert(r@ =~= pieces@[0]@);
            }
        }
        i += 1;
    }
    assert(vs.take(i as int) =~= vs);
    r
}

/// The first `n` characters of `s`, or all of it where it is shorter.
pub open spec fn shortened(s: Seq<char>, n: nat) -> Seq<char> {
    if s.len() <= n {
        s
    } else {
        s.take(n as int)
    }
}

/// Keeps at most the first `n` characters.
pub fn take_chars(s: &str, n: usize) -> (r: String)
    ensures
        r@ == shortened(s@, n as nat),
{
    let v = chars_of(s);
    let k = if v.len() <= n {
        v.len()
    } else {
        n
    };
    assert(v@.subrange(0, k as int) =~= shortened(s@, n as nat));
    string_of(&v, 0, k)
}

/// The rest of `s` from the first copy of `p` on, or all of `s` where it holds none.
pub open spec fn from_first(s: Seq<char>, p: Seq<char>) -> Seq<char> {
    match find(s, p) {
        Some(i) => s.skip(i),
        None => s,
    }
}

/// Drops what stands before the first copy of `p`.
pub fn skip_to(s: &str, p: &str) -> (r: String)
    ensures
        r@ == from_first(s@, p@),
{
    let v = chars_of(s);
    let q = chars_of(p);
    match find_chars(&v, &q, 0) {
        Some(i) => {
            assert(v@.subrange(i as int, v@.len() as int) =~= v@.skip(i as int));
            string_of(&v, i, v.len())
        },
        None => s.to_owned(),
    }
}

/// The number of bytes of `s` in UTF-8.
pub open spec fn byte_count(s: Seq<char>) -> nat {
    utf8::encode_utf8(s).len()
}

/// The number of bytes of `s`.
pub fn byte_len(s: &str) -> (n: usize)
    ensures
        n == byte_count(s@),
{
    s.as_bytes().len()
}

/// A string of `n` copies of `c`.
pub fn repeat_char(c: char, n: usize) -> (r: String)
    ensures
        r@ == Seq::new(n as nat, |i: int| c),
{
    let mut r = String::new();
    let mut i: usize = 0;
    while i < n
        invariant
            i <= n,
            r@ == Seq::new(i as nat, |k: int| c),
        decreases n - i,
    {
        r.push(c);
        assert(r@ =~= Seq::new((i + 1) as nat, |k: int| c));
        i += 1;
    }
    r
}

/// Whether the sequence of strings holds the characters `x`.
pub fn has_string(v: &[String], x: &str) -> (r: bool)
    ensures
        r == views(v@).contains(x@),
{
    let mut i: usize = 0;
    while i < v.len()
        invariant
            i <= v@.len(),
            forall|j: int| 0 <= j < i ==> views(v@)[j] != x@,
        decreases v.len() - i,
    {
        if same(v[i].as_str(), x) {
            assert(views(v@)[i as int] == x@);
            return true;
        }
        i += 1;
    }
    false
}

/// Whether any string of `needles` stands in `hay`.
pub open spec fn holds_any(hay: Seq<char>, needles: Seq<Seq<char>>) -> bool {
    exists|k: int| 0 <= k < needles.len() && holds(hay, #[trigger] needles[k])
}

/// Whether any of the strings stands in `hay`.
pub fn contains_any(hay: &str, needles: &[&str]) -> (r: bool)
    ensures
        r == holds_any(hay@, str_views(needles@)),
{
    let mut i: usize = 0;
    while i < needles.len()
        invariant
            i <= needles@.len(),
            forall|j: int| 0 <= j < i ==> !holds(hay@, #[trigger] str_views(needles@)[j]),
        decreases needles.len() - i,
    {
        if contains(hay, needles[i]) {
            assert(holds(hay@, str_views(needles@)[i as int]));
            return true;
        }
        i += 1;
    }
    false
}

/// Whether `x` is one of the strings.
pub fn is_one_of(x: &str, options: &[&str]) -> (r: bool)
    ensures
        r == str_views(options@).contains(x@),
{
    let mut i: usize = 0;
    while i < options.len()
        invariant
            i <= options@.len(),
            forall|j: int| 0 <= j < i ==> str_views(options@)[j] != x@,
        decreases options.len() - i,
    {
        if same(options[i], x) {
            assert(str_views(options@)[i as int] == x@);
            return true;
        }
        i += 1;
    }
    false
}

/// The words of more than `n` bytes.
pub open spec fn long_words(s: Seq<char>, n: nat) -> Seq<Seq<char>> {
    words(s).filter(|w: Seq<char>| byte_count(w) > n)
}

/// The words of more than `n` bytes.
pub fn split_long_words(s: &str, n: usize) -> (r: Vec<String>)
    ensures
        views(r@) == long_words(s@, n as nat),
{
    let all = split_whitespace(s);
    let mut r: Vec<String> = Vec::new();
    let ghost ws = views(all@);
    let ghost p = |w: Seq<char>| byte_count(w) > n as nat;
    let mut i: usize = 0;
    while i < all.len()
        invariant
            i <= all@.len(),
            ws == views(all@),
            p == (|w: Seq<char>| byte_count(w) > n as nat),
            views(r@) == ws.take(i as int).filter(p),
        decreases all.len() - i,
    {
        broadcast use views_push;

        proof {
            assert(ws.take(i + 1) =~= ws.take(i as int).push(ws[i as int]));
            ws.take(i as int).lemma_filter_push(ws[i as int], p);
        }
        if byte_len(&all[i]) > n {
            r.push(all[i].clone());
        }
        i += 1;
    }
    assert(ws.take(ws.len() as int) =~= ws);
    r
}

/// Whether a text holds every one of some texts.
pub open spec fn holds_all(hay: Seq<char>, needles: Seq<Seq<char>>) -> bool {
    forall|i: int| 0 <= i < needles.len() ==> holds(hay, #[trigger] needles[i])
}

/// Whether a text holds every one of some texts.
pub fn contains_all(hay: &str, needles: &[String]) -> (r: bool)
    ensures
        r == holds_all(hay@, views(needles@)),
{
    let ghost vs = views(needles@);
    let mut i: usize = 0;
    while i < needles.len()
        invariant
            i <= needles@.len(),
            vs == views(needles@),
            forall|j: int| 0 <= j < i ==> holds(hay@, #[trigger] vs[j]),
        decreases needles.len() - i,
    {
        if !contains(hay, &needles[i]) {
            assert(!holds(hay@, vs[i as int]));
            return false;
        }
        i += 1;
    }
    true
}

/// A text with spaces before it, to at least `width` characters.
pub open spec fn right_aligned(s: Seq<char>, width: nat) -> Seq<char> {
    if s.len() >= width {
        s
    } else {
        Seq::new((width - s.len()) as nat, |i: int| ' ') + s
    }
}

/// Puts spaces before a text, to at least `width` characters.
pub fn align_right(s: &str, width: usize) -> (r: String)
    ensures
        r@ == right_aligned(s@, width as nat),
{
    let n = s.unicode_len();
    if n >= width {
        s.to_owned()
    } else {
        let mut r = repeat_char(' ', width - n);
        r.append(s);
        r
    }
}

/// Two texts one after another.
pub fn concat2(a: &str, b: &str) -> (r: String)
    ensures
        r@ == a@ + b@,
{
    let mut r = a.to_owned();
    r.append(b);
    r
}

/// Three texts one after another.
pub fn concat3(a: &str, b: &str, c: &str) -> (r: String)
    ensures
        r@ == a@ + b@ + c@,
{
    let mut r = a.to_owned();
    r.append(b);
    r.append(c);
    r
}

/// Four texts one after another.
pub fn concat4(a: &str, b: &str, c: &str, d: &str) -> (r: String)
    ensures
        r@ == a@ + b@ + c@ + d@,
{
    let mut r = a.to_owned();
    r.append(b);
    r.append(c);
    r.append(d);
    r
}

/// Five texts one after another.
pub fn concat5(a: &str, b: &str, c: &str, d: &str, e: &str) -> (r: String)
    ensures
        r@ == a@ + b@ + c@ + d@ + e@,
{
    let mut r = a.to_owned();
    r.append(b);
    r.append(c);
    r.append(d);
    r.append(e);
    r
}

/// Six texts one after another.
pub fn concat6(a: &str, b: &str, c: &str, d: &str, e: &str, f: &str) -> (r: String)
    ensures
        r@ == a@ + b@ + c@ + d@ + e@ + f@,
{
    let mut r = a.to_owned();
    r.append(b);
    r.append(c);
    r.append(d);
    r.append(e);
    r.append(f);
    r
}

/// The first of some texts that passes a test.
pub open spec fn first_such(s: Seq<Seq<char>>, p: spec_fn(Seq<char>) -> bool) -> Option<Seq<char>>
    decreases s.len(),
{
    if s.len() == 0 {
        None
    } else if p(s[0]) {
        Some(s[0])
    } else {
        first_such(s.skip(1), p)
    }
}

/// Where a text passes a test, the first that does is there and passes it.
pub proof fn first_such_is_found(s: Seq<Seq<char>>, p: spec_fn(Seq<char>) -> bool, i: int)
    requires
        0 <= i < s.len(),
        p(s[i]),
    ensures
        first_such(s, p) matches Some(x) && p(x) && s.contains(x),
    decreases s.len(),
{
    if p(s[0]) {
        assert(s.contains(s[0]));
    } else {
        let rest = s.skip(1);
        first_such_is_found(rest, p, i - 1);
        let x = first_such(rest, p)->0;
        let k = choose|k: int| 0 <= k < rest.len() && rest[k] == x;
        assert(s[k + 1] == x);
    }
}

/// The first text that passes a test, where none before `i` does.
pub proof fn first_such_skips(s: Seq<Seq<char>>, p: spec_fn(Seq<char>) -> bool, i: int)
    requires
        0 <= i <= s.len(),
        forall|j: int| 0 <= j < i ==> !p(#[trigger] s[j]),
    ensures
        first_such(s, p) == first_such(s.skip(i), p),
    decreases i,
{
    if i == 0 {
        assert(s.skip(0) =~= s);
    } else {
        assert(!p(s[0]));
        assert forall|j: int| 0 <= j < i - 1 implies !p(#[trigger] s.skip(1)[j]) by {
            assert(!p(s[j + 1]));
        }
        first_such_skips(s.skip(1), p, i - 1);
        assert(s.skip(1).skip(i - 1) =~= s.skip(i));
    }
}

/// A text without the first of some prefixes that it begins with.
pub open spec fn one_prefix_off(s: Seq<char>, prefixes: Seq<Seq<char>>) -> Seq<char>
    decreases prefixes.len(),
{
    if prefixes.len() == 0 {
        s
    } else {
        match after_prefix(s, prefixes[0]) {
            Some(x) => x,
            None => one_prefix_off(s, prefixes.skip(1)),
        }
    }
}

/// Removes the first of some prefixes that a text begins with.
pub fn strip_one_prefix(s: &str, prefixes: &[&str]) -> (r: String)
    ensures
        r@ == one_prefix_off(s@, str_views(prefixes@)),
{
    let ghost all = str_views(prefixes@);
    let mut i: usize = 0;
    assert(all.skip(0) =~= all);
    while i < prefixes.len()
        invariant
            i <= prefixes@.len(),
            all == str_views(prefixes@),
            one_prefix_off(s@, all) == one_prefix_off(s@, all.skip(i as int)),
        decreases prefixes.len() - i,
    {
        assert(all.skip(i as int).skip(1) =~= all.skip(i + 1));
        if let Some(x) = strip_prefix(s, prefixes[i]) {
            return x;
        }
        i += 1;
    }
    s.to_owned()
}

// ── Laws ─────────────────────────────────────────────────────────────────────

/// What stands in a part of a text stands in the text.
pub proof fn holds_within(s: Seq<char>, part: Seq<char>, p: Seq<char>)
    requires
        holds(s, part),
        holds(part, p),
    ensures
        holds(s, p),
{
    let i = choose|i: int| #[trigger] occurs_at(s, part, i);
    let j = choose|j: int| #[trigger] occurs_at(part, p, j);
    assert(s.subrange(i + j, i + j + p.len()) =~= part.subrange(j, j + p.len()));
    assert(occurs_at(s, p, i + j));
}

/// What stands in a text stands in it with more text behind it.
pub broadcast proof fn holds_in_front(s: Seq<char>, t: Seq<char>, p: Seq<char>)
    ensures
        holds(s, p) ==> #[trigger] holds(s + t, p),
{
    if holds(s, p) {
        let i = choose|i: int| #[trigger] occurs_at(s, p, i);
        assert((s + t).subrange(i, i + p.len()) =~= s.subrange(i, i + p.len()));
        assert(occurs_at(s + t, p, i));
    }
}

/// A text stands at the end of itself with more text before it.
pub broadcast proof fn holds_at_end(s: Seq<char>, p: Seq<char>)
    ensures
        #[trigger] holds(s + p, p),
{
    assert((s + p).subrange(s.len() as int, (s + p).len() as int) =~= p);
    assert(occurs_at(s + p, p, s.len() as int));
}

/// A text stands in itself.
pub broadcast proof fn holds_itself(p: Seq<char>)
    ensures
        #[trigger] holds(p, p),
{
    assert(p.subrange(0, p.len() as int) =~= p);
    assert(occurs_at(p, p, 0));
}

/// Nothing stands in every text.
pub proof fn holds_nothing(s: Seq<char>)
    ensures
        holds(s, Seq::empty()),
{
    assert(s.subrange(0, 0) =~= Seq::empty());
    assert(occurs_at(s, Seq::empty(), 0));
}

/// What stands in one of two texts stands in both of them one after the other.
pub proof fn holds_in_either(a: Seq<char>, b: Seq<char>, p: Seq<char>)
    requires
        holds(a, p) || holds(b, p),
    ensures
        holds(a + b, p),
{
    if holds(a, p) {
        holds_in_front(a, b, p);
    } else {
        holds_at_end(a, b);
        holds_within(a + b, b, p);
    }
}

/// Joined pieces hold each of them.
pub proof fn joined_holds_each(pieces: Seq<Seq<char>>, sep: Seq<char>, i: int)
    requires
        0 <= i < pieces.len(),
    ensures
        holds(joined(pieces, sep), pieces[i]),
    decreases pieces.len(),
{
    broadcast use {holds_in_front, holds_at_end, holds_itself};

    if pieces.len() > 1 {
        if i < pieces.len() - 1 {
            joined_holds_each(pieces.drop_last(), sep, i);
            assert(pieces.drop_last()[i] == pieces[i]);
        } else {
            assert(pieces[i] == pieces.last());
        }
    }
}

/// A text is found wherever it stands first, and only where it stands.
pub proof fn finding_is_holding(s: Seq<char>, p: Seq<char>)
    ensures
        find(s, p) is Some == holds(s, p),
        find(s, p) matches Some(i) ==> 0 <= i && i + p.len() <= s.len() && s == s.take(i) + p
            + s.skip(i + p.len()) && !exists|j: int| 0 <= j < i && #[trigger] occurs_at(s, p, j),
{
    find_from_is_least(s, p, 0);
    if let Some(i) = find(s, p) {
        assert(occurs_at(s, p, i));
        assert(s =~= s.take(i) + p + s.skip(i + p.len()));
    }
}

/// A text is without white space at its ends once it is trimmed, and is then a part of what it
/// was, with white space alone round it.
pub proof fn trimming_leaves_no_space_at_the_ends(s: Seq<char>)
    ensures
        trimmed(s).len() > 0 ==> !is_space(trimmed(s)[0]) && !is_space(trimmed(s).last()),
        exists|a: int, b: int|
            {
                &&& 0 <= a <= b <= s.len()
                &&& trimmed(s) == #[trigger] s.subrange(a, b)
                &&& forall|i: int| 0 <= i < a ==> is_space(#[trigger] s[i])
                &&& forall|i: int| b <= i < s.len() ==> is_space(#[trigger] s[i])
            },
{
    let t = trimmed_start(s);
    lemma_start_is_part(s);
    lemma_end_is_part(t);
    let a = s.len() - t.len();
    let u = trimmed(s);
    let b = a + u.len();
    assert(t == s.skip(a));
    assert(u == t.take(u.len() as int));
    assert(u =~= s.subrange(a, b));
    assert forall|i: int| b <= i < s.len() implies is_space(#[trigger] s[i]) by {
        assert(is_space(t[i - a]));
    }
    if u.len() > 0 {
        assert(u[0] == t[0]);
    }
}

/// What is left behind white space is the end of the text.
proof fn lemma_start_is_part(s: Seq<char>)
    ensures
        trimmed_start(s).len() <= s.len(),
        trimmed_start(s) == s.skip(s.len() - trimmed_start(s).len()),
        forall|i: int| 0 <= i < s.len() - trimmed_start(s).len() ==> is_space(#[trigger] s[i]),
        trimmed_start(s).len() > 0 ==> !is_space(trimmed_start(s)[0]),
    decreases s.len(),
{
    if s.len() > 0 && is_space(s[0]) {
        let r = s.skip(1);
        lemma_start_is_part(r);
        let t = trimmed_start(r);
        assert(r.skip(r.len() - t.len()) =~= s.skip(s.len() - t.len()));
        assert forall|i: int| 0 <= i < s.len() - t.len() implies is_space(#[trigger] s[i]) by {
            if i > 0 {
                assert(is_space(r[i - 1]));
            }
        }
    } else {
        assert(s.skip(0) =~= s);
    }
}

/// What is left before white space is the beginning of the text.
proof fn lemma_end_is_part(s: Seq<char>)
    ensures
        trimmed_end(s).len() <= s.len(),
        trimmed_end(s) == s.take(trimmed_end(s).len() as int),
        forall|i: int| trimmed_end(s).len() <= i < s.len() ==> is_space(#[trigger] s[i]),
        trimmed_end(s).len() > 0 ==> !is_space(trimmed_end(s).last()),
    decreases s.len(),
{
    if s.len() > 0 && is_space(s.last()) {
        let r = s.drop_last();
        lemma_end_is_part(r);
        let t = trimmed_end(r);
        assert(r.take(t.len() as int) =~= s.take(t.len() as int));
        assert forall|i: int| t.len() <= i < s.len() implies is_space(#[trigger] s[i]) by {
            if i < s.len() - 1 {
                assert(is_space(r[i]));
            }
        }
    } else {
        assert(s.take(s.len() as int) =~= s);
    }
}

/// What is left without copies of a prefix is the end of the text and begins with no other.
pub proof fn prefixes_off_is_part(s: Seq<char>, p: Seq<char>)
    ensures
        without_prefixes(s, p).len() <= s.len(),
        without_prefixes(s, p) == s.skip(s.len() - without_prefixes(s, p).len()),
        p.len() > 0 ==> !begins(without_prefixes(s, p), p),
    decreases s.len(),
{
    if p.len() > 0 && begins(s, p) {
        let r = s.skip(p.len() as int);
        prefixes_off_is_part(r, p);
        let t = without_prefixes(r, p);
        assert(r.skip(r.len() - t.len()) =~= s.skip(s.len() - t.len()));
    } else {
        assert(s.skip(0) =~= s);
    }
}

/// What is left without copies of a suffix is the beginning of the text and ends with no other.
pub proof fn suffixes_off_is_part(s: Seq<char>, p: Seq<char>)
    ensures
        without_suffixes(s, p).len() <= s.len(),
        without_suffixes(s, p) == s.take(without_suffixes(s, p).len() as int),
        p.len() > 0 ==> !ends(without_suffixes(s, p), p),
    decreases s.len(),
{
    if p.len() > 0 && ends(s, p) {
        let r = s.take(s.len() - p.len());
        suffixes_off_is_part(r, p);
        let t = without_suffixes(r, p);
        assert(r.take(t.len() as int) =~= s.take(t.len() as int));
    } else {
        assert(s.take(s.len() as int) =~= s);
    }
}

/// An aligned text stands at the end of its place, which is no wider than it must be.
pub proof fn aligning_keeps_the_text(s: Seq<char>, width: nat)
    ensures
        ends(right_aligned(s, width), s),
        holds(right_aligned(s, width), s),
        right_aligned(s, width).len() == (if s.len() < width {
            width
        } else {
            s.len()
        }),
        forall|i: int| 0 <= i < right_aligned(s, width).len() - s.len() ==> #[trigger] right_aligned(
            s,
            width,
        )[i] == ' ',
{
    let r = right_aligned(s, width);
    assert(r.subrange(r.len() - s.len(), r.len() as int) =~= s);
    assert(occurs_at(r, s, r.len() - s.len()));
}

/// The long words of a text are its words of more than some bytes, and all of them.
pub proof fn long_words_are_words(s: Seq<char>, n: nat, w: Seq<char>)
    ensures
        long_words(s, n).contains(w) == (words(s).contains(w) && byte_count(w) > n),
{
    broadcast use vstd::seq_lib::group_filter_ensures;

    let p = |w: Seq<char>| byte_count(w) > n;
    let f = words(s).filter(p);
    assert(long_words(s, n) == f);
    if f.contains(w) {
        words(s).lemma_filter_contains_rev(p, w);
        let i = choose|i: int| 0 <= i < f.len() && f[i] == w;
        assert(p(f[i]));
    }
    if words(s).contains(w) && byte_count(w) > n {
        let i = choose|i: int| 0 <= i < words(s).len() && words(s)[i] == w;
        assert(p(words(s)[i]));
        assert(f.contains(words(s)[i]));
    }
}

/// What has no separator in it and stands in two texts with one between them stands in one of the
/// two.
pub proof fn holds_beside(a: Seq<char>, sep: char, b: Seq<char>, p: Seq<char>)
    requires
        !p.contains(sep),
    ensures
        holds(a + seq![sep] + b, p) == (holds(a, p) || holds(b, p)),
{
    let s = a + seq![sep] + b;
    if holds(a, p) {
        holds_in_front(a, seq![sep], p);
        holds_in_front(a + seq![sep], b, p);
    }
    if holds(b, p) {
        holds_in_either(a + seq![sep], b, p);
    }
    if holds(s, p) {
        let i = choose|i: int| #[trigger] occurs_at(s, p, i);
        let n = a.len() as int;
        if i + p.len() <= n {
            assert(a.subrange(i, i + p.len()) =~= s.subrange(i, i + p.len()));
            assert(occurs_at(a, p, i));
        } else if i <= n {
            assert(s.subrange(i, i + p.len())[n - i] == sep);
            assert(p[n - i] == sep);
        } else {
            let k = i - n - 1;
            assert(b.subrange(k, k + p.len()) =~= s.subrange(i, i + p.len()));
            assert(occurs_at(b, p, k));
        }
    }
}

/// The first piece of a text is what stands before the first separator.
pub proof fn first_piece_is_front(front: Seq<char>, rest: Seq<char>, seps: Seq<char>)
    requires
        forall|i: int| 0 <= i < front.len() ==> !seps.contains(#[trigger] front[i]),
        rest.len() == 0 || seps.contains(rest[0]),
    ensures
        first_piece(front + rest, seps) == front,
{
    let s = front + rest;
    sep_from_bounds(s, seps, 0);
    let k = sep_from(s, seps, 0);
    if k < front.len() {
        assert(s[k] == front[k]);
    }
    if k > front.len() {
        assert(s[front.len() as int] == rest[0]);
    }
    assert(s.take(front.len() as int) =~= front);
}

/// A text is found directly behind a front in which it does not begin.
pub proof fn found_behind(front: Seq<char>, m: Seq<char>, rest: Seq<char>)
    requires
        m.len() > 0,
        !holds(front + m.drop_last(), m),
    ensures
        find(front + m + rest, m) == Some(front.len() as int),
{
    let h = front + m + rest;
    let n = front.len() as int;
    finding_is_holding(h, m);
    assert(h.subrange(n, n + m.len()) =~= m);
    assert(occurs_at(h, m, n));
    find_from_is_least(h, m, 0);
    let i = find(h, m)->0;
    if i < n {
        let g = front + m.drop_last();
        assert(h.subrange(i, i + m.len()) =~= g.subrange(i, i + m.len()));
        assert(occurs_at(g, m, i));
    }
}

/// No text has no bytes.
pub proof fn nothing_has_no_bytes()
    ensures
        byte_count(Seq::empty()) == 0,
{
    assert(vstd::utf8::encode_utf8(Seq::<char>::empty()).len() == 0);
}

/// The first text that passes a test is one of the texts and passes it; where there is none, none
/// passes.
pub proof fn first_such_decides(s: Seq<Seq<char>>, p: spec_fn(Seq<char>) -> bool)
    ensures
        first_such(s, p) matches Some(x) ==> p(x) && s.contains(x),
        first_such(s, p) is None ==> forall|i: int| 0 <= i < s.len() ==> !p(#[trigger] s[i]),
    decreases s.len(),
{
    if s.len() > 0 {
        if p(s[0]) {
            assert(s.contains(s[0]));
        } else {
            let rest = s.skip(1);
            first_such_decides(rest, p);
            if let Some(x) = first_such(rest, p) {
                let k = choose|k: int| 0 <= k < rest.len() && rest[k] == x;
                assert(s[k + 1] == x);
            } else {
                assert forall|i: int| 0 <= i < s.len() implies !p(#[trigger] s[i]) by {
                    if i > 0 {
                        assert(!p(rest[i - 1]));
                    }
                }
            }
        }
    }
}

/// A text is split at a separator into what stands before and behind it.
pub proof fn split_around(front: Seq<char>, sep: char, rest: Seq<char>)
    requires
        !front.contains(sep),
    ensures
        split_at_first(front + seq![sep] + rest, sep) == Some((front, rest)),
        first_piece(front + seq![sep] + rest, seq![sep]) == front,
        split(front + seq![sep] + rest, seq![sep]) == seq![front] + split(rest, seq![sep]),
{
    let s = front + seq![sep] + rest;
    let seps = seq![sep];
    sep_from_bounds(s, seps, 0);
    let k = sep_from(s, seps, 0);
    assert(seps[0] == sep);
    assert forall|i: int| 0 <= i < front.len() implies !seps.contains(#[trigger] front[i]) by {
        if seps.contains(front[i]) {
            assert(front[i] == sep);
            assert(front.contains(sep));
        }
    }
    if k < front.len() {
        assert(s[k] == front[k]);
    }
    assert(s[front.len() as int] == sep);
    assert(seps.contains(sep));
    assert(k == front.len());
    assert(s.take(k) =~= front);
    assert(s.skip(k + 1) =~= rest);
}

/// A text without a separator is not split.
pub proof fn no_split(s: Seq<char>, sep: char)
    requires
        !s.contains(sep),
    ensures
        split_at_first(s, sep) is None,
        first_piece(s, seq![sep]) == s,
        split(s, seq![sep]) == seq![s],
{
    let seps = seq![sep];
    sep_from_bounds(s, seps, 0);
    let k = sep_from(s, seps, 0);
    if k < s.len() {
        assert(seps.contains(s[k]));
        assert(s[k] == sep);
        assert(s.contains(sep));
    }
    assert(s.take(k) =~= s);
}

/// Two texts with one separator between them are split into the two.
pub proof fn split_in_two(front: Seq<char>, sep: char, rest: Seq<char>)
    requires
        !front.contains(sep),
        !rest.contains(sep),
    ensures
        split(front + seq![sep] + rest, seq![sep]) == seq![front, rest],
{
    split_around(front, sep, rest);
    no_split(rest, sep);
    assert(seq![front] + seq![rest] =~= seq![front, rest]);
}

/// A text without a separator is its only piece.
pub proof fn split_in_one(s: Seq<char>, sep: char)
    requires
        !s.contains(sep),
    ensures
        split(s, seq![sep]) == seq![s],
{
    no_split(s, sep);
}

/// The first line of a text ends at its first line feed.
pub proof fn first_line(line: Seq<char>, rest: Seq<char>)
    requires
        !line.contains('\n'),
        line.len() > 0,
        line.last() != '\r',
    ensures
        line_seq(line + seq!['\n'] + rest) == seq![line] + line_seq(rest),
        line_seq(line) == seq![line],
{
    let seps = seq!['\n'];
    let s = line + seps + rest;
    split_around(line, '\n', rest);
    no_split(line, '\n');
    sep_from_bounds(s, seps, 0);
    sep_from_bounds(line, seps, 0);
    let k = sep_from(s, seps, 0);
    assert(first_piece(s, seps) == line);
    assert(k == line.len()) by {
        assert(s.take(k).len() == k);
    }
    assert(s.skip(k + 1) =~= rest);
    assert(s.take(k) =~= line);
    if sep_from(line, seps, 0) < line.len() {
        assert(first_piece(line, seps).len() == sep_from(line, seps, 0));
    }
}

/// A text with something else than white space at both ends has nothing to trim.
pub proof fn nothing_to_trim(s: Seq<char>)
    requires
        s.len() > 0,
        !is_space(s[0]),
        !is_space(s.last()),
    ensures
        trimmed(s) == s,
        trimmed_start(s) == s,
        trimmed_end(s) == s,
{
}

/// White space behind a text is trimmed.
pub proof fn trimming_the_end(s: Seq<char>, space: Seq<char>)
    requires
        s.len() > 0,
        !is_space(s.last()),
        forall|i: int| 0 <= i < space.len() ==> is_space(#[trigger] space[i]),
    ensures
        trimmed_end(s + space) == s,
    decreases space.len(),
{
    let t = s + space;
    if space.len() == 0 {
        assert(t =~= s);
    } else {
        assert(is_space(space[space.len() - 1]));
        assert(t.take(t.len() - 1) =~= s + space.drop_last());
        assert forall|i: int| 0 <= i < space.len() - 1 implies is_space(
            #[trigger] space.drop_last()[i],
        ) by {
            assert(is_space(space[i]));
        }
        trimming_the_end(s, space.drop_last());
    }
}

/// The first word of a text is what stands before its first white space.
pub proof fn first_word(word: Seq<char>, rest: Seq<char>)
    requires
        word.len() > 0,
        forall|i: int| 0 <= i < word.len() ==> !is_space(#[trigger] word[i]),
        rest.len() == 0 || is_space(rest[0]),
    ensures
        words(word + rest).len() > 0,
        words(word + rest)[0] == word,
{
    let s = word + rest;
    assert(s[0] == word[0]);
    assert(trimmed_start(s) == s);
    space_from_bounds(s, 0);
    let k = space_from(s, 0);
    if k < word.len() {
        assert(s[k] == word[k]);
    }
    if k > word.len() {
        assert(s[word.len() as int] == rest[0]);
    }
    assert(s.take(k) =~= word);
}

/// What does not stand in a text is not replaced; what stands in it is, where it stands first, and
/// so on behind it.
pub proof fn replacing_goes_from_the_left(a: Seq<char>, from: Seq<char>, b: Seq<char>, to: Seq<char>)
    requires
        from.len() > 0,
        !holds(a + from.drop_last(), from),
    ensures
        replaced(a + from + b, from, to) == a + to + replaced(b, from, to),
        holds(replaced(a + from + b, from, to), to),
    decreases a.len(),
{
    let s = a + from + b;
    if a.len() == 0 {
        assert(s.subrange(0, from.len() as int) =~= from);
        assert(begins(s, from));
        assert(s.skip(from.len() as int) =~= b);
        assert(a + to =~= to);
    } else {
        let g = a + from.drop_last();
        if begins(s, from) {
            assert(g.subrange(0, from.len() as int) =~= s.subrange(0, from.len() as int));
            assert(occurs_at(g, from, 0));
        }
        let r = a.skip(1);
        assert(s.skip(1) =~= r + from + b);
        assert(!holds(r + from.drop_last(), from)) by {
            if holds(r + from.drop_last(), from) {
                assert(g =~= seq![a[0]] + (r + from.drop_last()));
                holds_in_either(seq![a[0]], r + from.drop_last(), from);
            }
        }
        replacing_goes_from_the_left(r, from, b, to);
        assert(seq![s[0]] + (r + to + replaced(b, from, to)) =~= a + to + replaced(b, from, to));
    }
    holds_at_end(a, to);
    holds_in_front(a + to, replaced(b, from, to), to);
}

/// A text in which something does not stand is not changed by replacing it.
pub proof fn replacing_nothing(s: Seq<char>, from: Seq<char>, to: Seq<char>)
    requires
        !holds(s, from),
    ensures
        replaced(s, from, to) == s,
    decreases s.len(),
{
    if s.len() > 0 && from.len() > 0 {
        if begins(s, from) {
            assert(occurs_at(s, from, 0));
        }
        let r = s.skip(1);
        if holds(r, from) {
            assert(s =~= seq![s[0]] + r);
            holds_in_either(seq![s[0]], r, from);
        }
        replacing_nothing(r, from, to);
        assert(seq![s[0]] + r =~= s);
    }
}

/// A text without white space is its only word.
pub proof fn single_word(word: Seq<char>)
    requires
        word.len() > 0,
        forall|i: int| 0 <= i < word.len() ==> !is_space(#[trigger] word[i]),
    ensures
        words(word) == seq![word],
{
    assert(!is_space(word[0]));
    assert(trimmed_start(word) == word);
    space_from_bounds(word, 0);
    let k = space_from(word, 0);
    assert(k == word.len());
    assert(word.take(k) =~= word);
    let none = word.skip(k);
    assert(none =~= Seq::<char>::empty());
    assert(trimmed_start(none).len() == 0);
    assert(words(none) =~= Seq::<Seq<char>>::empty());
    assert(seq![word] + Seq::<Seq<char>>::empty() =~= seq![word]);
}

/// Every word of a text stands in it, is not empty and has no white space in it.
pub proof fn words_have_no_space(s: Seq<char>)
    ensures
        forall|i: int| #![trigger words(s)[i]]
            0 <= i < words(s).len() ==> words(s)[i].len() > 0 && holds(s, words(s)[i]) && forall|j: int|
                0 <= j < words(s)[i].len() ==> !is_space(#[trigger] words(s)[i][j]),
    decreases s.len(),
{
    let t = trimmed_start(s);
    trimmed_start_shape(s);
    if t.len() > 0 {
        space_from_bounds(t, 0);
        let k = space_from(t, 0);
        let rest = t.skip(k);
        words_have_no_space(rest);
        let ws = words(rest);
        let n = s.len() - t.len();
        assert forall|i: int| #![trigger words(s)[i]] 0 <= i < words(s).len() implies words(s)[i].len()
            > 0 && holds(s, words(s)[i]) && forall|j: int|
            0 <= j < words(s)[i].len() ==> !is_space(#[trigger] words(s)[i][j]) by {
            let w = words(s)[i];
            if i == 0 {
                assert(w == t.take(k));
                assert(s.subrange(n, n + k) =~= w);
                assert(occurs_at(s, w, n));
                assert forall|j: int| 0 <= j < w.len() implies !is_space(#[trigger] w[j]) by {
                    assert(!is_space(t[j]));
                }
            } else {
                assert(w == ws[i - 1]);
                assert(s =~= s.take(n + k) + rest);
                holds_in_either(s.take(n + k), rest, w);
            }
        }
    }
}

/// A text that begins with one of some prefixes loses the first of them that it begins with.
pub proof fn first_prefix_goes(s: Seq<char>, prefixes: Seq<Seq<char>>, i: int)
    requires
        0 <= i < prefixes.len(),
        begins(s, prefixes[i]),
        forall|j: int| 0 <= j < i ==> !begins(s, #[trigger] prefixes[j]),
    ensures
        one_prefix_off(s, prefixes) == s.skip(prefixes[i].len() as int),
    decreases i,
{
    if i > 0 {
        assert(!begins(s, prefixes[0]));
        let rest = prefixes.skip(1);
        assert forall|j: int| 0 <= j < i - 1 implies !begins(s, #[trigger] rest[j]) by {
            assert(!begins(s, prefixes[j + 1]));
        }
        first_prefix_goes(s, rest, i - 1);
    }
}

/// A text is shortened to its beginning, and only where it is longer.
pub proof fn shortening_keeps_the_beginning(s: Seq<char>, n: nat)
    ensures
        shortened(s, n).len() <= n,
        begins(s, shortened(s, n)),
        s.len() <= n ==> shortened(s, n) == s,
        s.len() > n ==> shortened(s, n).len() == n,
{
    assert(s.subrange(0, shortened(s, n).len() as int) =~= shortened(s, n));
}

/// The pieces of a text with the separator between them are the text.
pub proof fn pieces_make_the_text(s: Seq<char>, sep: char)
    ensures
        joined(split(s, seq![sep]), seq![sep]) == s,
        split(s, seq![sep]).len() > 0,
    decreases s.len(),
{
    let seps = seq![sep];
    sep_from_bounds(s, seps, 0);
    let k = sep_from(s, seps, 0);
    if k < s.len() {
        let rest = s.skip(k + 1);
        pieces_make_the_text(rest, sep);
        let front = s.take(k);
        assert(seps.contains(s[k]));
        assert(s[k] == sep);
        assert(s =~= front + seps + rest);
        lemma_joined_front(front, split(rest, seps), seps);
    } else {
        assert(split(s, seps) =~= seq![s]);
    }
}

/// Joining with one more piece in front.
proof fn lemma_joined_front(front: Seq<char>, pieces: Seq<Seq<char>>, sep: Seq<char>)
    requires
        pieces.len() > 0,
    ensures
        joined(seq![front] + pieces, sep) == front + sep + joined(pieces, sep),
    decreases pieces.len(),
{
    let all = seq![front] + pieces;
    if pieces.len() == 1 {
        assert(all.drop_last() =~= seq![front]);
        assert(joined(all.drop_last(), sep) == front);
        assert(all.last() == pieces[0]);
    } else {
        let a = pieces.drop_last();
        assert(all.drop_last() =~= seq![front] + a);
        assert(all.last() == pieces.last());
        lemma_joined_front(front, a, sep);
        assert(front + sep + joined(a, sep) + sep + pieces.last() =~= front + sep + (joined(a, sep)
            + sep + pieces.last()));
    }
}

/// What a text is read from is the first place where a mark stands, and all of it where none does.
pub proof fn texts_are_read_from_the_first_mark(front: Seq<char>, m: Seq<char>, rest: Seq<char>, s: Seq<char>)
    requires
        m.len() > 0,
        !holds(front + m.drop_last(), m),
        !holds(s, m),
    ensures
        from_first(front + m + rest, m) == m + rest,
        from_first(s, m) == s,
{
    found_behind(front, m, rest);
    assert((front + m + rest).skip(front.len() as int) =~= m + rest);
    finding_is_holding(s, m);
}

/// What begins with a character that is not in a text does not stand in it.
pub proof fn absent_marks_are_not_held(s: Seq<char>, m: Seq<char>, c: char)
    requires
        m.len() > 0,
        m[0] == c,
        !s.contains(c),
    ensures
        !holds(s, m),
{
    if holds(s, m) {
        let i = choose|i: int| #[trigger] occurs_at(s, m, i);
        assert(s.subrange(i, i + m.len())[0] == m[0]);
        assert(s[i] == c);
    }
}

/// Two words with a space between them are the words of a text.
pub proof fn two_words(a: Seq<char>, b: Seq<char>)
    requires
        a.len() > 0 && b.len() > 0,
        forall|i: int| 0 <= i < a.len() ==> !is_space(#[trigger] a[i]),
        forall|i: int| 0 <= i < b.len() ==> !is_space(#[trigger] b[i]),
    ensures
        words(a + seq![' '] + b) == seq![a, b],
{
    let rest = seq![' '] + b;
    let s = a + seq![' '] + b;
    assert(s =~= a + rest);
    assert(s[0] == a[0]);
    assert(trimmed_start(s) == s);
    space_from_bounds(s, 0);
    let k = space_from(s, 0);
    if k < a.len() {
        assert(s[k] == a[k]);
    }
    assert(s[a.len() as int] == ' ');
    assert(k == a.len());
    assert(s.take(k) =~= a);
    assert(s.skip(k) =~= rest);
    assert(rest.skip(1) =~= b);
    assert(!is_space(b[0]));
    assert(trimmed_start(b) == b);
    assert(trimmed_start(rest) == trimmed_start(rest.skip(1)));
    assert(trimmed_start(rest) == b);
    single_word(b);
    space_from_bounds(b, 0);
    assert(words(rest) == words(b)) by {
        assert(trimmed_start(b) == trimmed_start(rest));
    }
    assert(seq![a] + seq![b] =~= seq![a, b]);
}

} // verus!
