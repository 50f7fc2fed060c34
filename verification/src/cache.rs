//! A cache of what was shown.
use vstd::prelude::*;
use crate::text;
use vstd::utf8;

verus! {

/// How many seconds an entry is kept.
pub const TTL_SECS: u64 = 3600;

/// An item that can be shown again.
#[derive(Clone)]
pub struct DisplayItem {
    pub title: String,
    pub content: String,
    pub url: String,
    pub color: String,
}

/// A payload and the second at which it was stored.
pub struct Entry<T> {
    pub created_at: u64,
    pub payload: T,
}

// ── Keys ───────────────────────────────────────────────────────────────────────

/// The value with which a hash begins.
pub const FNV_OFFSET: u64 = 14_695_981_039_346_656_037;

/// The factor of a hash.
pub const FNV_PRIME: u64 = 1_099_511_628_211;

/// A hash with one more byte.
pub open spec fn fnv_step(h: u64, b: u8) -> u64 {
    (((h ^ (b as u64)) * FNV_PRIME) % 0x1_0000_0000_0000_0000) as u64
}

/// The 64-bit FNV-1a hash of bytes.
pub open spec fn fnv(bytes: Seq<u8>) -> u64
    decreases bytes.len(),
{
    if bytes.len() == 0 {
        FNV_OFFSET
    } else {
        fnv_step(fnv(bytes.drop_last()), bytes.last())
    }
}

/// The bytes of a key: each part in UTF-8 with a bar behind it.
pub open spec fn key_bytes(parts: Seq<Seq<char>>) -> Seq<u8>
    decreases parts.len(),
{
    if parts.len() == 0 {
        Seq::empty()
    } else {
        key_bytes(parts.drop_last()) + utf8::encode_utf8(parts.last()) + seq![124u8]
    }
}

/// A lowercase hexadecimal digit.
pub open spec fn hex_lower(d: int) -> char {
    if 0 <= d < 10 {
        (48 + d) as u8 as char
    } else {
        (87 + d) as u8 as char
    }
}

/// The last `n` hexadecimal digits of a number, in lowercase.
pub open spec fn hex_digits(h: nat, n: nat) -> Seq<char>
    decreases n,
{
    if n == 0 {
        Seq::empty()
    } else {
        hex_digits(h / 16, (n - 1) as nat).push(hex_lower((h % 16) as int))
    }
}

/// The key of parts.
pub open spec fn key_text(parts: Seq<Seq<char>>) -> Seq<char> {
    hex_digits(fnv(key_bytes(parts)) as nat, 16)
}

/// A hash with one more byte.
fn add_byte(h: u64, b: u8) -> (r: u64)
    ensures
        r == fnv_step(h, b),
{
    (h ^ (b as u64)).wrapping_mul(FNV_PRIME)
}

/// The last `n` hexadecimal digits of a number.
fn hex_text(h: u64, n: u32) -> (r: String)
    ensures
        r@ == hex_digits(h as nat, n as nat),
    decreases n,
{
    if n == 0 {
        String::new()
    } else {
        let mut r = hex_text(h / 16, n - 1);
        let d: u64 = h % 16;
        if d < 10 {
            r.push((48 + d as u8) as char);
        } else {
            r.push((87 + d as u8) as char);
        }
        r
    }
}

/// The key of parts: the hash of their bytes in sixteen hexadecimal digits.
pub fn hash_key(parts: &[&str]) -> (r: String)
    ensures
        r@ == key_text(text::str_views(parts@)),
{
    let ghost all = text::str_views(parts@);
    let mut h: u64 = FNV_OFFSET;
    let mut i: usize = 0;
    while i < parts.len()
        invariant
            i <= parts@.len(),
            all == text::str_views(parts@),
            h == fnv(key_bytes(all.take(i as int))),
        decreases parts.len() - i,
    {
        let b = parts[i].as_bytes();
        let ghost before = key_bytes(all.take(i as int));
        let mut j: usize = 0;
        assert(before + b@.take(0) =~= before);
        while j < b.len()
            invariant
                j <= b@.len(),
                h == fnv(before + b@.take(j as int)),
            decreases b.len() - j,
        {
            proof {
                let t = before + b@.take(j + 1);
                assert(t.drop_last() =~= before + b@.take(j as int));
                assert(t.last() == b@[j as int]);
            }
            h = add_byte(h, b[j]);
            j += 1;
        }
        proof {
            assert(b@.take(b@.len() as int) =~= b@);
            assert(all.take(i + 1).drop_last() =~= all.take(i as int));
            assert(all.take(i + 1).last() == parts@[i as int]@);
            let t = before + b@ + seq![124u8];
            assert(t.drop_last() =~= before + b@);
            assert(t.last() == 124u8);
        }
        h = add_byte(h, 124);
        i += 1;
    }
    assert(all.take(all.len() as int) =~= all);
    hex_text(h, 16)
}

/// The name of the file of an entry.
pub fn cache_file_name(parts: &[&str]) -> (r: String)
    ensures
        r@ == key_text(text::str_views(parts@)) + ".json"@,
{
    text::concat2(&hash_key(parts), ".json")
}

// ── Entries ────────────────────────────────────────────────────────────────────

/// How many seconds old an entry is; one of the future is new.
pub open spec fn age(created_at: u64, now: u64) -> nat {
    if now >= created_at {
        (now - created_at) as nat
    } else {
        0
    }
}

/// What an entry gives back: its payload and the seconds for which it will be kept; `None` where
/// it is too old.
pub open spec fn looked_up<T>(e: Entry<T>, now: u64, ttl: u64) -> Option<(T, u64)> {
    if age(e.created_at, now) >= ttl {
        None
    } else {
        Some((e.payload, (ttl - age(e.created_at, now)) as u64))
    }
}

/// What an entry gives back.
pub fn get_with_ttl<T>(entry: Entry<T>, now: u64, ttl_secs: u64) -> (r: Option<(T, u64)>)
    ensures
        r == looked_up(entry, now, ttl_secs),
{
    let old: u64 = if now >= entry.created_at {
        now - entry.created_at
    } else {
        0
    };
    if old >= ttl_secs {
        return None;
    }
    Some((entry.payload, ttl_secs - old))
}

/// What an entry of items gives back within an hour.
pub fn get(entry: Entry<Vec<DisplayItem>>, now: u64) -> (r: Option<(Vec<DisplayItem>, u64)>)
    ensures
        r == looked_up(entry, now, TTL_SECS),
        r == looked_up(entry, now, 3600),
{
    get_with_ttl(entry, now, TTL_SECS)
}

/// The entry of a payload.
pub fn put_with_ttl<T>(payload: T, now: u64) -> (r: Entry<T>)
    ensures
        r == (Entry { created_at: now, payload }),
{
    Entry { created_at: now, payload }
}

/// The entry of items.
pub fn put(items: Vec<DisplayItem>, now: u64) -> (r: Entry<Vec<DisplayItem>>)
    ensures
        r == (Entry { created_at: now, payload: items }),
{
    put_with_ttl(items, now)
}

/// Whether a file is one of an entry: its name has the ending of one.
pub fn is_entry_extension(extension: Option<&str>) -> (r: bool)
    ensures
        r == (text::opt_str(extension) == Some("json"@)),
{
    match extension {
        Some(e) => text::same(e, "json"),
        None => false,
    }
}

/// What is read gives back what was written, for as long as it is kept: the payload and the time
/// that is left where less than the time to live has passed, and nothing after that.
pub proof fn read_gives_back_what_was_written<T>(payload: T, written: u64, now: u64, ttl: u64)
    requires
        written <= now,
    ensures
        now - written < ttl ==> looked_up(Entry { created_at: written, payload }, now, ttl) == Some(
            (payload, (ttl - (now - written)) as u64),
        ),
        now - written >= ttl ==> looked_up(Entry { created_at: written, payload }, now, ttl)
            is None,
{
}

/// A key has sixteen digits.
pub proof fn key_has_sixteen_digits(parts: Seq<Seq<char>>)
    ensures
        key_text(parts).len() == 16,
{
    lemma_hex_len(fnv(key_bytes(parts)) as nat, 16);
}

/// As many digits as were asked for.
proof fn lemma_hex_len(h: nat, n: nat)
    ensures
        hex_digits(h, n).len() == n,
    decreases n,
{
    if n > 0 {
        lemma_hex_len(h / 16, (n - 1) as nat);
    }
}

/// The encoding of a character that is no bar has no bar in it.
proof fn lemma_char_has_no_bar(c: char)
    requires
        c != '|',
    ensures
        forall|i: int|
            0 <= i < utf8::encode_scalar(c as u32).len() ==> #[trigger] utf8::encode_scalar(
                c as u32,
            )[i] != 124,
{
    let u = c as u32;
    assert(u != 124);
    assert(u < 0x80 ==> (u & 0x7F) as u8 == u) by (bit_vector);
    assert((0xC0u8 | (((u >> 6) & 0x1F) as u8)) >= 0x80) by (bit_vector);
    assert((0xE0u8 | (((u >> 12) & 0x0F) as u8)) >= 0x80) by (bit_vector);
    assert((0xF0u8 | (((u >> 18) & 0x7) as u8)) >= 0x80) by (bit_vector);
    assert((0x80u8 | ((u & 0x3F) as u8)) >= 0x80) by (bit_vector);
    assert((0x80u8 | (((u >> 6) & 0x3F) as u8)) >= 0x80) by (bit_vector);
    assert((0x80u8 | (((u >> 12) & 0x3F) as u8)) >= 0x80) by (bit_vector);
}

/// The encoding of a text without bars has no bar in it.
proof fn lemma_text_has_no_bar(s: Seq<char>)
    requires
        !s.contains('|'),
    ensures
        forall|i: int|
            0 <= i < utf8::encode_utf8(s).len() ==> #[trigger] utf8::encode_utf8(s)[i] != 124,
    decreases s.len(),
{
    if s.len() > 0 {
        assert(s[0] != '|');
        lemma_char_has_no_bar(s[0]);
        assert(!s.drop_first().contains('|')) by {
            if s.drop_first().contains('|') {
                let j = choose|j: int| 0 <= j < s.len() - 1 && s.drop_first()[j] == '|';
                assert(s[j + 1] == '|');
            }
        }
        lemma_text_has_no_bar(s.drop_first());
        let a = utf8::encode_scalar(s[0] as u32);
        let b = utf8::encode_utf8(s.drop_first());
        assert forall|i: int| 0 <= i < (a + b).len() implies #[trigger] (a + b)[i] != 124 by {
            if i < a.len() {
                assert(a[i] != 124);
            } else {
                assert(b[i - a.len()] != 124);
            }
        }
    }
}

/// The bytes of a key end with a bar.
proof fn lemma_key_ends_with_bar(parts: Seq<Seq<char>>)
    ensures
        parts.len() == 0 ==> key_bytes(parts).len() == 0,
        parts.len() > 0 ==> key_bytes(parts).len() > 0 && key_bytes(parts).last() == 124,
{
}

/// Lists of parts without bars that differ, be it only in where one part ends and the next
/// begins, have different bytes before they are hashed.
pub proof fn bytes_tell_parts_apart(a: Seq<Seq<char>>, b: Seq<Seq<char>>)
    requires
        forall|i: int| 0 <= i < a.len() ==> !(#[trigger] a[i]).contains('|'),
        forall|i: int| 0 <= i < b.len() ==> !(#[trigger] b[i]).contains('|'),
        key_bytes(a) == key_bytes(b),
    ensures
        a == b,
    decreases a.len(),
{
    lemma_key_ends_with_bar(a);
    lemma_key_ends_with_bar(b);
    if a.len() == 0 || b.len() == 0 {
        assert(a =~= b);
    } else {
        let p = a.drop_last();
        let q = b.drop_last();
        let kp = key_bytes(p);
        let kq = key_bytes(q);
        let x = utf8::encode_utf8(a.last());
        let y = utf8::encode_utf8(b.last());
        let all = key_bytes(a);
        assert(!a[a.len() - 1].contains('|'));
        assert(!b[b.len() - 1].contains('|'));
        lemma_text_has_no_bar(a.last());
        lemma_text_has_no_bar(b.last());
        lemma_key_ends_with_bar(p);
        lemma_key_ends_with_bar(q);
        assert(all.len() == kp.len() + x.len() + 1);
        assert(all.len() == kq.len() + y.len() + 1);
        if kp.len() < kq.len() {
            let i = kq.len() - 1;
            assert(kq[i] == 124);
            assert(all[i] == (kq + y + seq![124u8])[i]);
            assert(all[i] == (kp + x + seq![124u8])[i]);
            assert(x[i - kp.len()] != 124);
        } else if kq.len() < kp.len() {
            let i = kp.len() - 1;
            assert(kp[i] == 124);
            assert(all[i] == (kp + x + seq![124u8])[i]);
            assert(all[i] == (kq + y + seq![124u8])[i]);
            assert(y[i - kq.len()] != 124);
        }
        assert(kp.len() == kq.len());
        assert(kp =~= all.take(kp.len() as int));
        assert(kq =~= all.take(kp.len() as int));
        assert(x =~= all.subrange(kp.len() as int, all.len() - 1));
        assert(y =~= all.subrange(kp.len() as int, all.len() - 1));
        utf8::encode_utf8_decode_utf8(a.last());
        utf8::encode_utf8_decode_utf8(b.last());
        assert forall|i: int| 0 <= i < p.len() implies !(#[trigger] p[i]).contains('|') by {
            assert(p[i] == a[i]);
        }
        assert forall|i: int| 0 <= i < q.len() implies !(#[trigger] q[i]).contains('|') by {
            assert(q[i] == b[i]);
        }
        bytes_tell_parts_apart(p, q);
        assert(a =~= p.push(a.last()));
        assert(b =~= q.push(b.last()));
    }
}

// ── Laws ─────────────────────────────────────────────────────────────────────

/// An entry that is said to be of the future is kept for all its time.
pub proof fn entries_of_the_future_are_kept<T>(e: Entry<T>, now: u64, ttl: u64)
    requires
        now <= e.created_at,
        ttl > 0,
    ensures
        looked_up(e, now, ttl) == Some((e.payload, ttl)),
{
}

/// An entry that is still kept at a time was kept at any time before it, and for longer.
pub proof fn entries_grow_old<T>(e: Entry<T>, before: u64, after: u64, ttl: u64)
    requires
        before <= after,
        looked_up(e, after, ttl) is Some,
    ensures
        looked_up(e, before, ttl) matches Some(p) && looked_up(e, after, ttl) matches Some(q) && p.0
            == e.payload && q.0 == e.payload && p.1 >= q.1 && 0 < q.1 <= ttl,
{
}

} // verus!
