//! The radar on a terminal.
use vstd::prelude::*;
use crate::fetcher::cases::{BlipCaseBundle, CaseEvidence};
use crate::lists;
use crate::number;
use crate::radar;
use crate::radar::{Blip, QuadrantNames, Tech};
use crate::text;
use crate::text::same;
use crate::unicode;

verus! {

/// The rows of the picture.
pub const ROWS: usize = 23;

/// The columns of the picture.
pub const COLS: usize = 71;

/// The row of the centre.
pub const CENTER_ROW: usize = 11;

/// The column of the centre.
pub const CENTER_COL: usize = 35;

// ── Colours ────────────────────────────────────────────────────────────────────

/// The colour of a quadrant.
pub open spec fn quadrant_color(q: Seq<char>) -> Seq<char> {
    if q == "q1"@ {
        "cyan"@
    } else if q == "q2"@ {
        "green"@
    } else if q == "q3"@ {
        "yellow"@
    } else if q == "q4"@ {
        "magenta"@
    } else {
        "white"@
    }
}

/// The colour of a quadrant.
pub fn q_color(q: &str) -> (r: &'static str)
    ensures
        r@ == quadrant_color(q@),
{
    if same(q, "q1") {
        "cyan"
    } else if same(q, "q2") {
        "green"
    } else if same(q, "q3") {
        "yellow"
    } else if same(q, "q4") {
        "magenta"
    } else {
        "white"
    }
}

/// The colour of a ring.
pub open spec fn color_of_ring(ring: Seq<char>) -> Seq<char> {
    if ring == "adopt"@ {
        "green"@
    } else if ring == "trial"@ {
        "cyan"@
    } else if ring == "assess"@ {
        "yellow"@
    } else if ring == "hold"@ {
        "red"@
    } else {
        "white"@
    }
}

/// The colour of a ring.
pub fn ring_color(ring: &str) -> (r: &'static str)
    ensures
        r@ == color_of_ring(ring@),
{
    if same(ring, "adopt") {
        "green"
    } else if same(ring, "trial") {
        "cyan"
    } else if same(ring, "assess") {
        "yellow"
    } else if same(ring, "hold") {
        "red"
    } else {
        "white"
    }
}

// ── Numbering ──────────────────────────────────────────────────────────────────

/// Whether an item stands in a sector.
pub open spec fn in_sector(b: Tech, quadrant: Seq<char>, ring: Seq<char>) -> bool {
    b.quadrant == quadrant && b.ring == ring
}

/// The indices of the items of a sector, in order.
pub open spec fn sector(items: Seq<Tech>, quadrant: Seq<char>, ring: Seq<char>) -> Seq<int>
    decreases items.len(),
{
    if items.len() == 0 {
        Seq::empty()
    } else {
        let r = sector(items.drop_last(), quadrant, ring);
        if in_sector(items.last(), quadrant, ring) {
            r.push(items.len() - 1)
        } else {
            r
        }
    }
}

/// The quadrant of the sector with a number.
pub open spec fn sector_quadrant(s: int) -> Seq<char> {
    radar::QUADRANTS@[s / 4]@
}

/// The ring of the sector with a number.
pub open spec fn sector_ring(s: int) -> Seq<char> {
    radar::RINGS@[s % 4]@
}

/// The indices of the items of the first sectors, in the order in which they are numbered:
/// quadrant by quadrant, and in each from the inside.
pub open spec fn numbering(items: Seq<Tech>, sectors: nat) -> Seq<int>
    decreases sectors,
{
    if sectors == 0 {
        Seq::empty()
    } else {
        let s = sectors - 1;
        numbering(items, s as nat) + sector(items, sector_quadrant(s), sector_ring(s))
    }
}

/// The indices of all items in the order in which they are numbered.
pub open spec fn numbered(items: Seq<Tech>) -> Seq<int> {
    numbering(items, 16)
}

/// An item in the order in which items are numbered: its index, its sector, and its place among
/// the `count` items of the sector.
#[derive(Debug, Clone, Copy, PartialEq, Eq, Structural)]
pub struct Placement {
    pub index: usize,
    pub quadrant: usize,
    pub ring: usize,
    pub place: usize,
    pub count: usize,
}

/// The indices of placements.
pub open spec fn indices(v: Seq<Placement>) -> Seq<int> {
    v.map_values(|p: Placement| p.index as int)
}

/// The indices of the items of a sector.
fn sector_indices(blips: &Vec<Blip>, quadrant: &str, ring: &str) -> (r: Vec<usize>)
    ensures
        r@.map_values(|i: usize| i as int) == sector(lists::views(blips@), quadrant@, ring@),
        forall|k: int| 0 <= k < r@.len() ==> #[trigger] r@[k] < blips@.len(),
{
    let ghost all = lists::views(blips@);
    let mut r: Vec<usize> = Vec::new();
    let mut i: usize = 0;
    assert(r@.map_values(|i: usize| i as int) =~= Seq::empty());
    while i < blips.len()
        invariant
            i <= blips@.len(),
            all == lists::views(blips@),
            r@.map_values(|i: usize| i as int) == sector(all.take(i as int), quadrant@, ring@),
            forall|k: int| 0 <= k < r@.len() ==> #[trigger] r@[k] < i,
        decreases blips.len() - i,
    {
        proof {
            assert(all.take(i + 1).drop_last() =~= all.take(i as int));
            assert(all.take(i + 1).last() == blips@[i as int]@);
        }
        let ghost before = r@;
        if same(&blips[i].quadrant, quadrant) && same(&blips[i].ring, ring) {
            r.push(i);
            assert(r@.map_values(|i: usize| i as int) =~= before.map_values(
                |i: usize| i as int,
            ).push(i as int));
        }
        i += 1;
    }
    proof {
        lists::take_all(all);
    }
    r
}

/// Whether placements tell of the sectors of items.
pub open spec fn placements_fit(v: Seq<Placement>, items: Seq<Tech>) -> bool {
    forall|k: int| #![trigger v[k]]
        0 <= k < v.len() ==> {
            let p = v[k];
            &&& p.quadrant < 4 && p.ring < 4 && p.place < p.count
            &&& p.index < items.len()
            &&& p.count == sector(
                items,
                radar::QUADRANTS@[p.quadrant as int]@,
                radar::RINGS@[p.ring as int]@,
            ).len()
            &&& sector(
                items,
                radar::QUADRANTS@[p.quadrant as int]@,
                radar::RINGS@[p.ring as int]@,
            )[p.place as int] == p.index
        }
}

/// The items in the order in which they are numbered.
pub fn plan(blips: &Vec<Blip>) -> (r: Vec<Placement>)
    ensures
        indices(r@) == numbered(lists::views(blips@)),
        placements_fit(r@, lists::views(blips@)),
{
    let ghost all = lists::views(blips@);
    let mut r: Vec<Placement> = Vec::new();
    let mut s: usize = 0;
    assert(indices(r@) =~= Seq::empty());
    while s < 16
        invariant
            s <= 16,
            all == lists::views(blips@),
            indices(r@) == numbering(all, s as nat),
            placements_fit(r@, all),
        decreases 16 - s,
    {
        let q: usize = s / 4;
        let g: usize = s % 4;
        let found = sector_indices(blips, radar::QUADRANTS[q], radar::RINGS[g]);
        let ghost before = indices(r@);
        let ghost sec = sector(all, radar::QUADRANTS@[q as int]@, radar::RINGS@[g as int]@);
        let ghost f = found@.map_values(|i: usize| i as int);
        let mut k: usize = 0;
        assert(before + f.take(0) =~= before);
        while k < found.len()
            invariant
                k <= found@.len(),
                q < 4,
                g < 4,
                all == lists::views(blips@),
                sec == sector(all, radar::QUADRANTS@[q as int]@, radar::RINGS@[g as int]@),
                f == found@.map_values(|i: usize| i as int),
                f == sec,
                forall|j: int| 0 <= j < found@.len() ==> #[trigger] found@[j] < blips@.len(),
                indices(r@) == before + f.take(k as int),
                placements_fit(r@, all),
            decreases found.len() - k,
        {
            let p = Placement {
                index: found[k],
                quadrant: q,
                ring: g,
                place: k,
                count: found.len(),
            };
            let ghost was = r@;
            r.push(p);
            proof {
                assert(f[k as int] == found@[k as int]);
                assert(indices(r@) =~= indices(was).push(p.index as int));
                assert(before + f.take(k + 1) =~= (before + f.take(k as int)).push(f[k as int]));
                assert forall|j: int| #![trigger r@[j]] 0 <= j < r@.len() implies {
                    let p = r@[j];
                    &&& p.quadrant < 4 && p.ring < 4 && p.place < p.count
                    &&& p.index < all.len()
                    &&& p.count == sector(
                        all,
                        radar::QUADRANTS@[p.quadrant as int]@,
                        radar::RINGS@[p.ring as int]@,
                    ).len()
                    &&& sector(
                        all,
                        radar::QUADRANTS@[p.quadrant as int]@,
                        radar::RINGS@[p.ring as int]@,
                    )[p.place as int] == p.index
                } by {
                    if j < was.len() {
                        assert(r@[j] == was[j]);
                    }
                }
            }
            k += 1;
        }
        proof {
            lists::take_all(f);
        }
        s += 1;
    }
    r
}

/// Items after numbers were given out along a list of indices: the first gets one, and so on.
pub open spec fn with_numbers(items: Seq<Tech>, order: Seq<int>) -> Seq<Tech>
    decreases order.len(),
{
    if order.len() == 0 {
        items
    } else {
        let r = with_numbers(items, order.drop_last());
        let i = order.last();
        r.update(i, Tech { number: order.len() as usize, ..r[i] })
    }
}

/// Giving out numbers keeps the number of items.
proof fn lemma_with_numbers_len(items: Seq<Tech>, order: Seq<int>)
    requires
        forall|k: int| 0 <= k < order.len() ==> 0 <= #[trigger] order[k] < items.len(),
    ensures
        with_numbers(items, order).len() == items.len(),
    decreases order.len(),
{
    if order.len() > 0 {
        assert forall|k: int| 0 <= k < order.len() - 1 implies 0 <= #[trigger] order.drop_last()[k]
            < items.len() by {
            assert(0 <= order[k] < items.len());
        }
        lemma_with_numbers_len(items, order.drop_last());
        assert(0 <= order[order.len() - 1] < items.len());
    }
}

/// Gives the items their numbers.
pub fn build_radar(blips: &mut Vec<Blip>)
    ensures
        lists::views(final(blips)@) == with_numbers(
            lists::views(old(blips)@),
            numbered(lists::views(old(blips)@)),
        ),
{
    let p = plan(blips);
    number_blips(blips, &p);
}

/// Gives the items their numbers.
fn number_blips(blips: &mut Vec<Blip>, p: &Vec<Placement>)
    requires
        forall|k: int| 0 <= k < p@.len() ==> (#[trigger] p@[k]).index < old(blips)@.len(),
    ensures
        lists::views(final(blips)@) == with_numbers(lists::views(old(blips)@), indices(p@)),
{
    let ghost begun = lists::views(blips@);
    let ghost order = indices(p@);
    let mut k: usize = 0;
    while k < p.len()
        invariant
            k <= p.len(),
            order == indices(p@),
            blips@.len() == begun.len(),
            forall|j: int| 0 <= j < p@.len() ==> (#[trigger] p@[j]).index < begun.len(),
            lists::views(blips@) == with_numbers(begun, order.take(k as int)),
        decreases p.len() - k,
    {
        let i = p[k].index;
        let ghost before = blips@;
        proof {
            assert(order.take(k + 1).drop_last() =~= order.take(k as int));
            assert(order.take(k + 1).last() == i);
            assert forall|j: int| 0 <= j < k implies 0 <= #[trigger] order.take(k as int)[j]
                < begun.len() by {
                assert(p@[j].index < begun.len());
            }
            lemma_with_numbers_len(begun, order.take(k as int));
        }
        let mut b = blips.remove(i);
        b.number = k + 1;
        blips.insert(i, b);
        proof {
            assert(blips@ =~= before.update(i as int, b));
            assert(lists::views(blips@) =~= lists::views(before).update(i as int, b@));
        }
        k += 1;
    }
    proof {
        lists::take_all(order);
    }
}

/// A sector holds each of its items once.
proof fn lemma_sector(items: Seq<Tech>, q: Seq<char>, r: Seq<char>)
    ensures
        sector(items, q, r).no_duplicates(),
        forall|i: int| #[trigger]
            sector(items, q, r).contains(i) <==> 0 <= i < items.len() && in_sector(items[i], q, r),
    decreases items.len(),
{
    if items.len() > 0 {
        let a = items.drop_last();
        lemma_sector(a, q, r);
        let s = sector(a, q, r);
        let t = sector(items, q, r);
        let n = items.len() - 1;
        assert(!s.contains(n));
        assert forall|i: int| #[trigger] t.contains(i) <==> 0 <= i < items.len() && in_sector(
            items[i],
            q,
            r,
        ) by {
            if in_sector(items.last(), q, r) {
                assert(t == s.push(n));
                if t.contains(i) {
                    let k = choose|k: int| 0 <= k < t.len() && t[k] == i;
                    if k < s.len() {
                        assert(s[k] == i);
                        assert(s.contains(i));
                    }
                }
                if 0 <= i < items.len() && in_sector(items[i], q, r) {
                    if i == n {
                        assert(t[s.len() as int] == i);
                    } else {
                        assert(a[i] == items[i]);
                        assert(s.contains(i));
                        let k = choose|k: int| 0 <= k < s.len() && s[k] == i;
                        assert(t[k] == i);
                    }
                }
            } else {
                assert(t == s);
                if i < n {
                    assert(0 <= i ==> a[i] == items[i]);
                }
            }
        }
    }
}

/// The names of rings differ, and so do those of quadrants.
proof fn lemma_names_differ()
    ensures
        forall|i: int, j: int|
            0 <= i < 4 && 0 <= j < 4 && i != j ==> #[trigger] radar::RINGS@[i]@
                != #[trigger] radar::RINGS@[j]@,
        forall|i: int, j: int|
            0 <= i < 4 && 0 <= j < 4 && i != j ==> #[trigger] radar::QUADRANTS@[i]@
                != #[trigger] radar::QUADRANTS@[j]@,
{
    reveal_strlit("adopt");
    reveal_strlit("trial");
    reveal_strlit("assess");
    reveal_strlit("hold");
    reveal_strlit("q1");
    reveal_strlit("q2");
    reveal_strlit("q3");
    reveal_strlit("q4");
    assert("adopt"@.len() == 5 && "trial"@.len() == 5 && "assess"@.len() == 6 && "hold"@.len() == 4);
    assert("adopt"@[0] != "trial"@[0]);
    assert("q1"@[1] == '1' && "q2"@[1] == '2' && "q3"@[1] == '3' && "q4"@[1] == '4');
}

/// The first sectors hold each of their items once.
proof fn lemma_numbering(items: Seq<Tech>, n: nat)
    requires
        n <= 16,
    ensures
        numbering(items, n).no_duplicates(),
        forall|i: int| #[trigger]
            numbering(items, n).contains(i) <==> 0 <= i < items.len() && exists|s: int|
                0 <= s < n && #[trigger] in_sector(
                    items[i],
                    sector_quadrant(s),
                    sector_ring(s),
                ),
    decreases n,
{
    if n > 0 {
        let m = (n - 1) as nat;
        let s = m as int;
        lemma_numbering(items, m);
        lemma_sector(items, sector_quadrant(s), sector_ring(s));
        lemma_names_differ();
        let a = numbering(items, m);
        let b = sector(items, sector_quadrant(s), sector_ring(s));
        let t = numbering(items, n);
        assert(t == a + b);
        assert forall|i: int| !(a.contains(i) && b.contains(i)) by {
            if a.contains(i) && b.contains(i) {
                let u = choose|u: int|
                    0 <= u < m && #[trigger] in_sector(
                        items[i],
                        sector_quadrant(u),
                        sector_ring(u),
                    );
                assert(u / 4 != s / 4 || u % 4 != s % 4);
                assert(radar::QUADRANTS@[u / 4]@ == radar::QUADRANTS@[s / 4]@);
                assert(radar::RINGS@[u % 4]@ == radar::RINGS@[s % 4]@);
            }
        }
        assert forall|j: int, k: int| 0 <= j < t.len() && 0 <= k < t.len() && j != k implies t[j]
            != t[k] by {
            if j < a.len() && k >= a.len() {
                assert(a.contains(a[j]));
                assert(b.contains(b[k - a.len()]));
            } else if k < a.len() && j >= a.len() {
                assert(a.contains(a[k]));
                assert(b.contains(b[j - a.len()]));
            }
        }
        assert forall|i: int| #[trigger] t.contains(i) <==> 0 <= i < items.len() && exists|u: int|
            0 <= u < n && #[trigger] in_sector(items[i], sector_quadrant(u), sector_ring(u)) by {
            if t.contains(i) {
                let k = choose|k: int| 0 <= k < t.len() && t[k] == i;
                if k < a.len() {
                    assert(a[k] == i);
                    assert(a.contains(i));
                    let u = choose|u: int|
                        0 <= u < m && #[trigger] in_sector(
                            items[i],
                            sector_quadrant(u),
                            sector_ring(u),
                        );
                    assert(in_sector(items[i], sector_quadrant(u), sector_ring(u)));
                } else {
                    assert(b[k - a.len()] == i);
                    assert(b.contains(i));
                    assert(in_sector(items[i], sector_quadrant(s), sector_ring(s)));
                }
            }
            if 0 <= i < items.len() && exists|u: int|
                0 <= u < n && #[trigger] in_sector(items[i], sector_quadrant(u), sector_ring(u)) {
                let u = choose|u: int|
                    0 <= u < n && #[trigger] in_sector(
                        items[i],
                        sector_quadrant(u),
                        sector_ring(u),
                    );
                if u == s {
                    assert(b.contains(i));
                    let k = choose|k: int| 0 <= k < b.len() && b[k] == i;
                    assert(t[a.len() + k] == i);
                } else {
                    assert(a.contains(i));
                    let k = choose|k: int| 0 <= k < a.len() && a[k] == i;
                    assert(t[k] == i);
                }
            }
        }
    }
}

/// Every item with a known quadrant and ring is numbered once, and no other is.
pub proof fn each_item_is_numbered_once(items: Seq<Tech>)
    ensures
        numbered(items).no_duplicates(),
        forall|i: int| #[trigger]
            numbered(items).contains(i) <==> 0 <= i < items.len() && text::str_views(
                radar::QUADRANTS@,
            ).contains(items[i].quadrant) && text::str_views(radar::RINGS@).contains(items[i].ring),
{
    lemma_numbering(items, 16);
    let qs = text::str_views(radar::QUADRANTS@);
    let rs = text::str_views(radar::RINGS@);
    assert forall|i: int| #[trigger] numbered(items).contains(i) <==> 0 <= i < items.len()
        && qs.contains(items[i].quadrant) && rs.contains(items[i].ring) by {
        if numbered(items).contains(i) {
            let s = choose|s: int|
                0 <= s < 16 && #[trigger] in_sector(items[i], sector_quadrant(s), sector_ring(s));
            assert(qs[s / 4] == items[i].quadrant);
            assert(rs[s % 4] == items[i].ring);
        }
        if 0 <= i < items.len() && qs.contains(items[i].quadrant) && rs.contains(items[i].ring) {
            let a = choose|a: int| 0 <= a < qs.len() && qs[a] == items[i].quadrant;
            let b = choose|b: int| 0 <= b < rs.len() && rs[b] == items[i].ring;
            let s = a * 4 + b;
            assert(s / 4 == a && s % 4 == b);
            assert(in_sector(items[i], sector_quadrant(s), sector_ring(s)));
        }
    }
}

// ── Painting ───────────────────────────────────────────────────────────────────

/// A picture of characters and their colours.
pub struct RadarGrid {
    pub grid: Vec<Vec<char>>,
    pub colors: Vec<Vec<String>>,
}

/// A cell of a picture: a character and its colour.
pub type Cell = (char, Seq<char>);

/// A picture: the cell in each row and column.
pub type Canvas = Map<(int, int), Cell>;

/// Whether a cell lies in the picture.
pub open spec fn inside(r: int, c: int) -> bool {
    0 <= r < ROWS && 0 <= c < COLS
}

impl RadarGrid {
    /// Whether the picture has all its rows and columns.
    pub open spec fn wf(&self) -> bool {
        &&& self.grid@.len() == ROWS
        &&& self.colors@.len() == ROWS
        &&& forall|r: int| 0 <= r < ROWS ==> (#[trigger] self.grid@[r])@.len() == COLS
        &&& forall|r: int| 0 <= r < ROWS ==> (#[trigger] self.colors@[r])@.len() == COLS
    }

    /// The picture.
    pub open spec fn canvas(&self) -> Canvas {
        Map::new(
            |p: (int, int)| inside(p.0, p.1),
            |p: (int, int)| (self.grid@[p.0]@[p.1], self.colors@[p.0]@[p.1]@),
        )
    }
}

/// An empty picture.
pub open spec fn blank() -> Canvas {
    Map::new(|p: (int, int)| inside(p.0, p.1), |p: (int, int)| (' ', "none"@))
}

/// A point of the picture.
pub type Point = (usize, usize);

/// A picture with a dot at each of some points, where nothing stands.
pub open spec fn with_dots(g: Canvas, points: Seq<Point>) -> Canvas
    decreases points.len(),
{
    if points.len() == 0 {
        g
    } else {
        let h = with_dots(g, points.drop_last());
        let p = (points.last().0 as int, points.last().1 as int);
        if h[p].0 == ' ' {
            h.insert(p, ('·', "grey30"@))
        } else {
            h
        }
    }
}

/// Whether a number can stand on a character.
pub open spec fn is_free(c: char) -> bool {
    c == ' ' || c == '·'
}

/// A picture with a line along some points, where nothing but dots stands; each point tells
/// whether the line is upright there.
pub open spec fn with_lines(g: Canvas, points: Seq<(usize, usize, bool)>) -> Canvas
    decreases points.len(),
{
    if points.len() == 0 {
        g
    } else {
        let h = with_lines(g, points.drop_last());
        let x = points.last();
        let p = (x.0 as int, x.1 as int);
        if is_free(h[p].0) {
            h.insert(
                p,
                (
                    if x.2 {
                        '│'
                    } else {
                        '─'
                    },
                    "grey42"@,
                ),
            )
        } else {
            h
        }
    }
}

/// A picture with labels, each one column behind its point and within the picture.
pub open spec fn with_labels(g: Canvas, labels: Seq<(usize, usize, char)>) -> Canvas
    decreases labels.len(),
{
    if labels.len() == 0 {
        g
    } else {
        let h = with_labels(g, labels.drop_last());
        let x = labels.last();
        let c = if x.1 + 1 < COLS {
            x.1 + 1
        } else {
            COLS - 1
        };
        h.insert((x.0 as int, c), (x.2, "grey54"@))
    }
}

/// Whether the cell `k` columns behind another lies in the picture and is free.
pub open spec fn open_cell(g: Canvas, r: int, c: int, k: int) -> bool {
    inside(r, c + k) && is_free(g[(r, c + k)].0)
}

/// Whether digits fit into a row from a column on: all cells lie in the picture and are free.
pub open spec fn fits(g: Canvas, r: int, c: int, n: nat) -> bool {
    &&& 0 <= r < ROWS
    &&& 0 <= c
    &&& forall|k: int| 0 <= k < n ==> #[trigger] open_cell(g, r, c, k)
}

/// A picture with digits in a row from a column on, as far as they lie in the picture.
pub open spec fn with_digits(g: Canvas, r: int, c: int, digits: Seq<char>, color: Seq<char>) -> Canvas
    decreases digits.len(),
{
    if digits.len() == 0 {
        g
    } else {
        let h = with_digits(g, r, c, digits.drop_last(), color);
        let p = (r, c + digits.len() - 1);
        if inside(p.0, p.1) {
            h.insert(p, (digits.last(), color))
        } else {
            h
        }
    }
}

/// The places round a point that are tried one after another, as steps in rows and columns.
pub const OFFSETS: [(i32, i32); 9] = [
    (0, 0),
    (0, 1),
    (0, -1),
    (-1, 0),
    (1, 0),
    (0, 2),
    (0, -2),
    (-1, 1),
    (1, 1),
];

/// The first of the places from `i` on where digits fit, or none.
pub open spec fn free_offset(g: Canvas, p: Point, n: nat, i: int) -> Option<int>
    decreases 9 - i,
{
    if i < 0 || i >= 9 {
        None
    } else if fits(g, p.0 + OFFSETS@[i].0, p.1 + OFFSETS@[i].1, n) {
        Some(i)
    } else {
        free_offset(g, p, n, i + 1)
    }
}

/// A picture with a number at the first place round a point where it fits, or else at the point
/// itself.
pub open spec fn with_number(g: Canvas, p: Point, digits: Seq<char>, color: Seq<char>) -> Canvas {
    match free_offset(g, p, digits.len(), 0) {
        Some(i) => with_digits(g, p.0 + OFFSETS@[i].0, p.1 + OFFSETS@[i].1, digits, color),
        None => with_digits(g, p.0 as int, p.1 as int, digits, color),
    }
}

/// The colour of an item's number.
pub open spec fn number_color(open_source: bool) -> Seq<char> {
    if open_source {
        "bright_green"@
    } else {
        "bright_red"@
    }
}

/// A picture with the numbers of the items in an order, each at its point; an item without a
/// point is left out.
pub open spec fn with_items(
    g: Canvas,
    items: Seq<Tech>,
    order: Seq<int>,
    points: Seq<Option<Point>>,
) -> Canvas
    decreases order.len(),
{
    if order.len() == 0 {
        g
    } else {
        let h = with_items(g, items, order.drop_last(), points);
        match points[order.len() - 1] {
            Some(p) => with_number(
                h,
                p,
                number::decimal(order.len()),
                number_color(items[order.last()].is_open_source),
            ),
            None => h,
        }
    }
}

impl RadarGrid {
    /// An empty picture.
    pub fn new() -> (r: RadarGrid)
        ensures
            r.wf(),
            r.canvas() == blank(),
    {
        let mut grid: Vec<Vec<char>> = Vec::new();
        let mut colors: Vec<Vec<String>> = Vec::new();
        let mut i: usize = 0;
        while i < ROWS
            invariant
                i <= ROWS,
                grid@.len() == i,
                colors@.len() == i,
                forall|r: int| #![trigger grid@[r]]
                    0 <= r < i ==> grid@[r]@.len() == COLS && forall|c: int|
                        0 <= c < COLS ==> grid@[r]@[c] == ' ',
                forall|r: int| #![trigger colors@[r]]
                    0 <= r < i ==> colors@[r]@.len() == COLS && forall|c: int|
                        0 <= c < COLS ==> (#[trigger] colors@[r]@[c])@ == "none"@,
            decreases ROWS - i,
        {
            let mut row: Vec<char> = Vec::new();
            let mut shades: Vec<String> = Vec::new();
            let mut j: usize = 0;
            while j < COLS
                invariant
                    j <= COLS,
                    row@.len() == j,
                    shades@.len() == j,
                    forall|c: int| 0 <= c < j ==> row@[c] == ' ',
                    forall|c: int| 0 <= c < j ==> (#[trigger] shades@[c])@ == "none"@,
                decreases COLS - j,
            {
                row.push(' ');
                shades.push("none".to_owned());
                j += 1;
            }
            grid.push(row);
            colors.push(shades);
            i += 1;
        }
        let r = RadarGrid { grid, colors };
        assert(r.canvas() =~= blank());
        r
    }

    /// Puts a character with a colour into a cell.
    fn put(&mut self, r: usize, c: usize, ch: char, color: &str)
        requires
            old(self).wf(),
            inside(r as int, c as int),
        ensures
            final(self).wf(),
            final(self).canvas() == old(self).canvas().insert(
                (r as int, c as int),
                (ch, color@),
            ),
    {
        let ghost before = self.canvas();
        let ghost g = self.grid@;
        let ghost s = self.colors@;
        let mut row = self.grid.remove(r);
        row.set(c, ch);
        self.grid.insert(r, row);
        let mut shades = self.colors.remove(r);
        shades.set(c, color.to_owned());
        self.colors.insert(r, shades);
        proof {
            assert(self.grid@ =~= g.update(r as int, row));
            assert(self.colors@ =~= s.update(r as int, shades));
            assert(row@ =~= g[r as int]@.update(c as int, ch));
            assert(shades@.len() == s[r as int]@.len());
            assert(self.canvas() =~= before.insert((r as int, c as int), (ch, color@)));
        }
    }

    /// The character in a cell.
    fn at(&self, r: usize, c: usize) -> (ch: char)
        requires
            self.wf(),
            inside(r as int, c as int),
        ensures
            ch == self.canvas()[(r as int, c as int)].0,
    {
        self.grid[r][c]
    }

    /// Draws dots.
    pub fn draw_dots(&mut self, points: &Vec<Point>)
        requires
            old(self).wf(),
            forall|k: int|
                0 <= k < points@.len() ==> inside(
                    (#[trigger] points@[k]).0 as int,
                    points@[k].1 as int,
                ),
        ensures
            final(self).wf(),
            final(self).canvas() == with_dots(old(self).canvas(), points@),
    {
        let ghost begun = self.canvas();
        let mut k: usize = 0;
        while k < points.len()
            invariant
                k <= points@.len(),
                self.wf(),
                forall|k: int|
                    0 <= k < points@.len() ==> inside(
                        (#[trigger] points@[k]).0 as int,
                        points@[k].1 as int,
                    ),
                self.canvas() == with_dots(begun, points@.take(k as int)),
            decreases points.len() - k,
        {
            assert(points@.take(k + 1).drop_last() =~= points@.take(k as int));
            let (r, c) = points[k];
            if self.at(r, c) == ' ' {
                self.put(r, c, '·', "grey30");
            }
            k += 1;
        }
        proof {
            lists::take_all(points@);
        }
    }

    /// Draws lines.
    pub fn draw_lines(&mut self, points: &Vec<(usize, usize, bool)>)
        requires
            old(self).wf(),
            forall|k: int|
                0 <= k < points@.len() ==> inside(
                    (#[trigger] points@[k]).0 as int,
                    points@[k].1 as int,
                ),
        ensures
            final(self).wf(),
            final(self).canvas() == with_lines(old(self).canvas(), points@),
    {
        let ghost begun = self.canvas();
        let mut k: usize = 0;
        while k < points.len()
            invariant
                k <= points@.len(),
                self.wf(),
                forall|k: int|
                    0 <= k < points@.len() ==> inside(
                        (#[trigger] points@[k]).0 as int,
                        points@[k].1 as int,
                    ),
                self.canvas() == with_lines(begun, points@.take(k as int)),
            decreases points.len() - k,
        {
            assert(points@.take(k + 1).drop_last() =~= points@.take(k as int));
            let (r, c, upright) = points[k];
            let there = self.at(r, c);
            if there == ' ' || there == '·' {
                self.put(
                    r,
                    c,
                    if upright {
                        '│'
                    } else {
                        '─'
                    },
                    "grey42",
                );
            }
            k += 1;
        }
        proof {
            lists::take_all(points@);
        }
    }

    /// Draws labels.
    pub fn draw_labels(&mut self, labels: &Vec<(usize, usize, char)>)
        requires
            old(self).wf(),
            forall|k: int|
                0 <= k < labels@.len() ==> inside(
                    (#[trigger] labels@[k]).0 as int,
                    labels@[k].1 as int,
                ),
        ensures
            final(self).wf(),
            final(self).canvas() == with_labels(old(self).canvas(), labels@),
    {
        let ghost begun = self.canvas();
        let mut k: usize = 0;
        while k < labels.len()
            invariant
                k <= labels@.len(),
                self.wf(),
                forall|k: int|
                    0 <= k < labels@.len() ==> inside(
                        (#[trigger] labels@[k]).0 as int,
                        labels@[k].1 as int,
                    ),
                self.canvas() == with_labels(begun, labels@.take(k as int)),
            decreases labels.len() - k,
        {
            assert(labels@.take(k + 1).drop_last() =~= labels@.take(k as int));
            let (r, c, ch) = labels[k];
            let col: usize = if c + 1 < COLS {
                c + 1
            } else {
                COLS - 1
            };
            self.put(r, col, ch, "grey54");
            k += 1;
        }
        proof {
            lists::take_all(labels@);
        }
    }

    /// Whether digits fit into a row from a column on.
    fn has_room(&self, r: i32, c: i32, n: usize) -> (b: bool)
        requires
            self.wf(),
            -10 <= c <= 100,
        ensures
            b == fits(self.canvas(), r as int, c as int, n as nat),
    {
        if r < 0 || r >= ROWS as i32 || c < 0 {
            return false;
        }
        let row: usize = r as usize;
        let col: usize = c as usize;
        let ghost g = self.canvas();
        let mut k: usize = 0;
        while k < n
            invariant
                k <= n,
                row == r,
                col == c,
                row < ROWS,
                col <= 100,
                k <= COLS,
                self.wf(),
                g == self.canvas(),
                forall|j: int| 0 <= j < k ==> #[trigger] open_cell(g, r as int, c as int, j),
            decreases n - k,
        {
            if k >= COLS || col + k >= COLS {
                assert(!open_cell(g, r as int, c as int, k as int));
                return false;
            }
            let there = self.at(row, col + k);
            if !(there == ' ' || there == '·') {
                assert(!open_cell(g, r as int, c as int, k as int));
                return false;
            }
            k += 1;
        }
        true
    }

    /// Writes digits into a row from a column on, as far as they lie in the picture.
    fn write(&mut self, r: usize, c: usize, digits: &Vec<char>, color: &str)
        requires
            old(self).wf(),
            r < ROWS,
            c <= 100,
        ensures
            final(self).wf(),
            final(self).canvas() == with_digits(
                old(self).canvas(),
                r as int,
                c as int,
                digits@,
                color@,
            ),
    {
        let ghost begun = self.canvas();
        let mut k: usize = 0;
        while k < digits.len()
            invariant
                k <= digits@.len(),
                r < ROWS,
                c <= 100,
                self.wf(),
                self.canvas() == with_digits(
                    begun,
                    r as int,
                    c as int,
                    digits@.take(k as int),
                    color@,
                ),
            decreases digits.len() - k,
        {
            proof {
                let d = digits@.take(k + 1);
                assert(d.drop_last() =~= digits@.take(k as int));
                assert(d.len() == k + 1 && d.last() == digits@[k as int]);
            }
            if c < COLS && k < COLS - c {
                self.put(r, c + k, digits[k], color);
            }
            k += 1;
        }
        proof {
            lists::take_all(digits@);
        }
    }

    /// Places a number round a point.
    fn place(&mut self, p: Point, digits: &Vec<char>, color: &str)
        requires
            old(self).wf(),
            inside(p.0 as int, p.1 as int),
        ensures
            final(self).wf(),
            final(self).canvas() == with_number(old(self).canvas(), p, digits@, color@),
    {
        let ghost g = self.canvas();
        let mut i: usize = 0;
        while i < 9
            invariant
                i <= 9,
                self.wf(),
                inside(p.0 as int, p.1 as int),
                g == self.canvas(),
                g == old(self).canvas(),
                free_offset(g, p, digits@.len(), 0) == free_offset(g, p, digits@.len(), i as int),
            decreases 9 - i,
        {
            let (dr, dc) = OFFSETS[i];
            proof {
                lemma_offsets_are_small(i as int);
            }
            let r: i32 = p.0 as i32 + dr;
            let c: i32 = p.1 as i32 + dc;
            if self.has_room(r, c, digits.len()) {
                self.write(r as usize, c as usize, digits, color);
                return ;
            }
            i += 1;
        }
        self.write(p.0, p.1, digits, color);
    }
}

impl RadarGrid {
    /// Places the numbers of items, in the order of the numbers.
    fn place_items(&mut self, blips: &Vec<Blip>, p: &Vec<Placement>, points: &Vec<Option<Point>>)
        requires
            old(self).wf(),
            points_inside(points@),
            points@.len() == p@.len(),
            forall|j: int| 0 <= j < p@.len() ==> (#[trigger] p@[j]).index < blips@.len(),
        ensures
            final(self).wf(),
            final(self).canvas() == with_items(
                old(self).canvas(),
                lists::views(blips@),
                indices(p@),
                points@,
            ),
    {
        let ghost items = lists::views(blips@);
        let ghost order = indices(p@);
        let ghost begun = self.canvas();
        let mut k: usize = 0;
        while k < p.len()
            invariant
                k <= p.len(),
                self.wf(),
                items == lists::views(blips@),
                order == indices(p@),
                points@.len() == p@.len(),
                forall|j: int| 0 <= j < p@.len() ==> (#[trigger] p@[j]).index < blips@.len(),
                points_inside(points@),
                self.canvas() == with_items(begun, items, order.take(k as int), points@),
            decreases p.len() - k,
        {
            let i = p[k].index;
            proof {
                assert(order.take(k + 1).drop_last() =~= order.take(k as int));
                assert(order.take(k + 1).last() == i);
                assert(order.take(k + 1).len() == k + 1);
            }
            if let Some(at) = points[k] {
                let digits = text::chars_of(&number::usize_text(k + 1));
                let color = if blips[i].is_open_source {
                    "bright_green"
                } else {
                    "bright_red"
                };
                self.place(at, &digits, color);
            }
            k += 1;
        }
        proof {
            lists::take_all(order);
        }
    }
}

/// The places that are tried are at most two steps away.
proof fn lemma_offsets_are_small(i: int)
    requires
        0 <= i < 9,
    ensures
        -2 <= OFFSETS@[i].0 <= 2,
        -2 <= OFFSETS@[i].1 <= 2,
{
}

/// The points from which a radar is drawn.
pub struct Outline {
    /// The points of the rings.
    pub dots: Vec<Point>,
    /// The points of the lines between quadrants, and whether the line is upright there.
    pub lines: Vec<(usize, usize, bool)>,
    /// The points of the rings' labels.
    pub labels: Vec<(usize, usize, char)>,
}

impl Outline {
    /// Whether all points lie in the picture.
    pub open spec fn wf(&self) -> bool {
        &&& forall|k: int|
            0 <= k < self.dots@.len() ==> inside(
                (#[trigger] self.dots@[k]).0 as int,
                self.dots@[k].1 as int,
            )
        &&& forall|k: int|
            0 <= k < self.lines@.len() ==> inside(
                (#[trigger] self.lines@[k]).0 as int,
                self.lines@[k].1 as int,
            )
        &&& forall|k: int|
            0 <= k < self.labels@.len() ==> inside(
                (#[trigger] self.labels@[k]).0 as int,
                self.labels@[k].1 as int,
            )
    }
}

/// The picture of a radar without items: the rings, the lines between quadrants, the centre and
/// the labels.
pub open spec fn outline_canvas(o: Outline) -> Canvas {
    let lines = with_lines(with_dots(blank(), o.dots@), o.lines@);
    with_labels(
        lines.insert((CENTER_ROW as int, CENTER_COL as int), ('+', "grey42"@)),
        o.labels@,
    )
}

/// Whether points lie in the picture.
pub open spec fn points_inside(points: Seq<Option<Point>>) -> bool {
    forall|k: int|
        0 <= k < points.len() ==> (#[trigger] points[k] matches Some(p) ==> inside(
            p.0 as int,
            p.1 as int,
        ))
}

/// Draws a radar and gives the items their numbers; there is a point for each item that is
/// numbered, in the order of the numbers.
pub fn build_radar_grid(blips: &mut Vec<Blip>, outline: &Outline, points: &Vec<Option<Point>>) -> (r:
    RadarGrid)
    requires
        outline.wf(),
        points_inside(points@),
        points@.len() == numbered(lists::views(old(blips)@)).len(),
    ensures
        r.wf(),
        lists::views(final(blips)@) == with_numbers(
            lists::views(old(blips)@),
            numbered(lists::views(old(blips)@)),
        ),
        r.canvas() == with_items(
            outline_canvas(*outline),
            lists::views(old(blips)@),
            numbered(lists::views(old(blips)@)),
            points@,
        ),
{
    let p = plan(blips);
    let mut g = RadarGrid::new();
    g.draw_dots(&outline.dots);
    g.draw_lines(&outline.lines);
    g.put(CENTER_ROW, CENTER_COL, '+', "grey42");
    g.draw_labels(&outline.labels);
    proof {
        assert(indices(p@).len() == p@.len());
        assert forall|j: int| 0 <= j < p@.len() implies (#[trigger] p@[j]).index < blips@.len() by {
            assert(p@[j].index < lists::views(blips@).len());
        }
    }
    g.place_items(blips, &p, points);
    number_blips(blips, &p);
    g
}

/// Digits change no cell but those that they stand in.
proof fn lemma_digits_elsewhere(
    g: Canvas,
    r: int,
    c: int,
    digits: Seq<char>,
    color: Seq<char>,
    p: (int, int),
)
    requires
        p.0 != r || !(c <= p.1 < c + digits.len()),
    ensures
        with_digits(g, r, c, digits, color)[p] == g[p],
    decreases digits.len(),
{
    if digits.len() > 0 {
        lemma_digits_elsewhere(g, r, c, digits.drop_last(), color, p);
    }
}

/// A number that finds a free place hides nothing but dots: every cell in which something else
/// stands keeps it.
pub proof fn placed_numbers_hide_nothing(g: Canvas, p: Point, digits: Seq<char>, color: Seq<char>)
    requires
        free_offset(g, p, digits.len(), 0) is Some,
    ensures
        forall|q: (int, int)|
            !is_free(g[q].0) ==> #[trigger] with_number(g, p, digits, color)[q] == g[q],
{
    lemma_offset_fits(g, p, digits.len(), 0);
    let i = free_offset(g, p, digits.len(), 0)->0;
    let r = p.0 + OFFSETS@[i].0;
    let c = p.1 + OFFSETS@[i].1;
    assert forall|q: (int, int)| !is_free(g[q].0) implies #[trigger] with_number(
        g,
        p,
        digits,
        color,
    )[q] == g[q] by {
        if q.0 == r && c <= q.1 < c + digits.len() {
            assert(open_cell(g, r, c, q.1 - c));
            assert(q == (r, c + (q.1 - c)));
        } else {
            lemma_digits_elsewhere(g, r, c, digits, color, q);
        }
    }
}

/// What is found is a place where digits fit.
proof fn lemma_offset_fits(g: Canvas, p: Point, n: nat, i: int)
    requires
        0 <= i,
    ensures
        free_offset(g, p, n, i) matches Some(k) ==> 0 <= k < 9 && fits(
            g,
            p.0 + OFFSETS@[k].0,
            p.1 + OFFSETS@[k].1,
            n,
        ),
    decreases 9 - i,
{
    if i < 9 {
        lemma_offset_fits(g, p, n, i + 1);
    }
}

/// How a cell is shown.
#[derive(Debug, Clone, Copy, PartialEq, Eq, Structural)]
pub enum CellStyle {
    Open,
    Closed,
    Dim,
    Plain,
}

/// How a cell of a colour is shown.
pub fn cell_style(color: &str) -> (r: CellStyle)
    ensures
        r == (if color@ == "bright_green"@ {
            CellStyle::Open
        } else if color@ == "bright_red"@ {
            CellStyle::Closed
        } else if color@ == "grey30"@ || color@ == "grey42"@ || color@ == "grey54"@ {
            CellStyle::Dim
        } else {
            CellStyle::Plain
        }),
{
    if same(color, "bright_green") {
        CellStyle::Open
    } else if same(color, "bright_red") {
        CellStyle::Closed
    } else if same(color, "grey30") || same(color, "grey42") || same(color, "grey54") {
        CellStyle::Dim
    } else {
        CellStyle::Plain
    }
}

/// The name of a quadrant beside the picture, to at least 35 characters; `fallback` stands for a
/// quadrant without a name.
pub open spec fn side_label(
    names: Seq<(String, String)>,
    key: Seq<char>,
    fallback: Seq<char>,
) -> Seq<char> {
    let n = match radar::name_among(names, key) {
        Some(x) => x,
        None => fallback,
    };
    if n.len() >= 35 {
        n
    } else {
        n + Seq::new((35 - n.len()) as nat, |i: int| ' ')
    }
}

/// The name of a quadrant beside the picture.
pub fn quadrant_label(names: &QuadrantNames, key: &str, fallback: &str) -> (r: String)
    ensures
        r@ == side_label(names.entries@, key@, fallback@),
{
    let name = names.get_or(key, fallback);
    let n = name.unicode_len();
    if n >= 35 {
        name
    } else {
        text::concat2(&name, &text::repeat_char(' ', 35 - n))
    }
}

// ── The list ───────────────────────────────────────────────────────────────────

/// The place of a quadrant; an unknown one counts as the first.
pub open spec fn quadrant_place(q: Seq<char>) -> nat {
    if q == "q2"@ {
        1
    } else if q == "q3"@ {
        2
    } else if q == "q4"@ {
        3
    } else {
        0
    }
}

/// The place of a ring; an unknown one counts as the first.
pub open spec fn ring_place(ring: Seq<char>) -> nat {
    if ring == "trial"@ {
        1
    } else if ring == "assess"@ {
        2
    } else if ring == "hold"@ {
        3
    } else {
        0
    }
}

/// Whether an item is listed before another: by quadrant, ring and number.
pub open spec fn listed_before(a: Tech, b: Tech) -> bool {
    let (qa, qb) = (quadrant_place(a.quadrant), quadrant_place(b.quadrant));
    let (ra, rb) = (ring_place(a.ring), ring_place(b.ring));
    qa < qb || qa == qb && (ra < rb || ra == rb && a.number < b.number)
}

/// The least index at or after `i` of an item before which another is listed, or the length.
pub open spec fn list_place(s: Seq<Tech>, b: Tech, i: int) -> int
    decreases s.len() - i,
{
    if i >= s.len() {
        s.len() as int
    } else if listed_before(b, s[i]) {
        i
    } else {
        list_place(s, b, i + 1)
    }
}

/// The items in the order of the list; items that are listed alike keep their order.
pub open spec fn listed(items: Seq<Tech>) -> Seq<Tech>
    decreases items.len(),
{
    if items.len() == 0 {
        items
    } else {
        let r = listed(items.drop_last());
        r.insert(list_place(r, items.last(), 0), items.last())
    }
}

/// The place of a quadrant.
fn place_of_quadrant(q: &str) -> (r: usize)
    ensures
        r == quadrant_place(q@),
{
    if same(q, "q2") {
        1
    } else if same(q, "q3") {
        2
    } else if same(q, "q4") {
        3
    } else {
        0
    }
}

/// The place of a ring.
fn place_of_ring(ring: &str) -> (r: usize)
    ensures
        r == ring_place(ring@),
{
    if same(ring, "trial") {
        1
    } else if same(ring, "assess") {
        2
    } else if same(ring, "hold") {
        3
    } else {
        0
    }
}

/// Whether an item is listed before another.
fn is_listed_before(a: &Blip, b: &Blip) -> (r: bool)
    ensures
        r == listed_before(a@, b@),
{
    let qa = place_of_quadrant(&a.quadrant);
    let qb = place_of_quadrant(&b.quadrant);
    let ra = place_of_ring(&a.ring);
    let rb = place_of_ring(&b.ring);
    qa < qb || (qa == qb && (ra < rb || (ra == rb && a.number < b.number)))
}

/// The indices of items in the order of the list.
pub fn list_order(blips: &Vec<Blip>) -> (r: Vec<usize>)
    ensures
        r@.len() == blips@.len(),
        forall|k: int| 0 <= k < r@.len() ==> #[trigger] r@[k] < blips@.len(),
        r@.map_values(|i: usize| blips@[i as int]@) == listed(lists::views(blips@)),
{
    let ghost all = lists::views(blips@);
    let ghost f = |i: usize| blips@[i as int]@;
    let mut r: Vec<usize> = Vec::new();
    let mut n: usize = 0;
    assert(r@.map_values(f) =~= all.take(0));
    while n < blips.len()
        invariant
            n <= blips@.len(),
            all == lists::views(blips@),
            f == (|i: usize| blips@[i as int]@),
            r@.len() == n,
            forall|k: int| 0 <= k < r@.len() ==> #[trigger] r@[k] < n,
            r@.map_values(f) == listed(all.take(n as int)),
        decreases blips.len() - n,
    {
        let ghost so_far = listed(all.take(n as int));
        let mut i: usize = 0;
        while i < r.len() && !is_listed_before(&blips[n], &blips[r[i]])
            invariant
                i <= r@.len(),
                n < blips@.len(),
                forall|k: int| 0 <= k < r@.len() ==> #[trigger] r@[k] < n,
                f == (|i: usize| blips@[i as int]@),
                so_far == r@.map_values(f),
                list_place(so_far, blips@[n as int]@, 0) == list_place(
                    so_far,
                    blips@[n as int]@,
                    i as int,
                ),
            decreases r.len() - i,
        {
            assert(so_far[i as int] == blips@[r@[i as int] as int]@);
            i += 1;
        }
        proof {
            if i < r@.len() {
                assert(so_far[i as int] == blips@[r@[i as int] as int]@);
            }
            assert(all.take(n + 1).drop_last() =~= all.take(n as int));
            assert(all.take(n + 1).last() == blips@[n as int]@);
        }
        let ghost before = r@;
        r.insert(i, n);
        proof {
            assert(r@.map_values(f) =~= before.map_values(f).insert(i as int, f(n)));
            assert forall|k: int| 0 <= k < r@.len() implies #[trigger] r@[k] < n + 1 by {
                if k < i {
                    assert(r@[k] == before[k]);
                } else if k > i {
                    assert(r@[k] == before[k - 1]);
                }
            }
        }
        n += 1;
    }
    proof {
        lists::take_all(all);
    }
    r
}

/// The row of an item in the list.
pub open spec fn item_row(b: Tech, names: Seq<(String, String)>, source_icon: bool) -> Seq<Seq<char>> {
    seq![
        number::decimal(b.number as nat),
        if !source_icon {
            "◆"@
        } else if b.is_open_source {
            "▲"@
        } else {
            "●"@
        },
        b.name,
        unicode::uppercase(b.ring),
        radar::quadrant_name(names, b.quadrant),
    ]
}

/// The row before the items of a quadrant.
pub open spec fn quadrant_row(q: Seq<char>, names: Seq<(String, String)>) -> Seq<Seq<char>> {
    seq![
        Seq::empty(),
        Seq::empty(),
        "── "@ + radar::quadrant_name(names, q) + " ──"@,
        Seq::empty(),
        Seq::empty(),
    ]
}

/// The rows of items in the order of the list, with a row before those of each quadrant.
pub open spec fn list_rows(
    items: Seq<Tech>,
    names: Seq<(String, String)>,
    source_icon: bool,
) -> Seq<Seq<Seq<char>>>
    decreases items.len(),
{
    if items.len() == 0 {
        Seq::empty()
    } else {
        let r = list_rows(items.drop_last(), names, source_icon);
        let b = items.last();
        let s = if items.len() == 1 || items[items.len() - 2].quadrant != b.quadrant {
            r.push(quadrant_row(b.quadrant, names))
        } else {
            r
        };
        s.push(item_row(b, names, source_icon))
    }
}

/// The rows of the list.
pub open spec fn rows_as_texts(rows: Seq<Vec<String>>) -> Seq<Seq<Seq<char>>> {
    rows.map_values(|r: Vec<String>| text::views(r@))
}

/// The row of an item.
fn make_item_row(b: &Blip, names: &QuadrantNames, source_icon: bool) -> (r: Vec<String>)
    ensures
        text::views(r@) == item_row(b@, names.entries@, source_icon),
{
    let icon = if !source_icon {
        "◆"
    } else if b.is_open_source {
        "▲"
    } else {
        "●"
    };
    let r = vec![
        number::usize_text(b.number),
        icon.to_owned(),
        b.name.clone(),
        b.ring.to_uppercase(),
        names.name_of(&b.quadrant),
    ];
    assert(text::views(r@) =~= item_row(b@, names.entries@, source_icon));
    r
}

/// The row before the items of a quadrant.
fn make_quadrant_row(q: &str, names: &QuadrantNames) -> (r: Vec<String>)
    ensures
        text::views(r@) == quadrant_row(q@, names.entries@),
{
    let label = text::concat3("── ", &names.name_of(q), " ──");
    let r = vec![String::new(), String::new(), label, String::new(), String::new()];
    assert(text::views(r@) =~= quadrant_row(q@, names.entries@));
    r
}

/// The rows of the list: the items by quadrant, ring and number, with a row before each quadrant.
pub fn legend_rows(blips: &Vec<Blip>, names: &QuadrantNames, source_icon: bool) -> (r: Vec<
    Vec<String>,
>)
    ensures
        rows_as_texts(r@) == list_rows(
            listed(lists::views(blips@)),
            names.entries@,
            source_icon,
        ),
{
    let order = list_order(blips);
    let ghost items = listed(lists::views(blips@));
    let ghost f = |i: usize| blips@[i as int]@;
    let mut r: Vec<Vec<String>> = Vec::new();
    let mut k: usize = 0;
    assert(rows_as_texts(r@) =~= Seq::empty());
    while k < order.len()
        invariant
            k <= order@.len(),
            f == (|i: usize| blips@[i as int]@),
            items == order@.map_values(f),
            forall|j: int| 0 <= j < order@.len() ==> #[trigger] order@[j] < blips@.len(),
            rows_as_texts(r@) == list_rows(items.take(k as int), names.entries@, source_icon),
        decreases order.len() - k,
    {
        let b = &blips[order[k]];
        let fresh = k == 0 || !same(&blips[order[k - 1]].quadrant, &b.quadrant);
        proof {
            let t = items.take(k + 1);
            assert(t.drop_last() =~= items.take(k as int));
            assert(t.last() == b@);
            assert(t.len() == k + 1);
            if k > 0 {
                assert(t[k - 1] == blips@[order@[k - 1] as int]@);
            }
        }
        if fresh {
            let ghost before = r@;
            let row = make_quadrant_row(&b.quadrant, names);
            r.push(row);
            assert(rows_as_texts(r@) =~= rows_as_texts(before).push(text::views(row@)));
        }
        let ghost before = r@;
        let row = make_item_row(b, names, source_icon);
        r.push(row);
        assert(rows_as_texts(r@) =~= rows_as_texts(before).push(text::views(row@)));
        k += 1;
    }
    proof {
        lists::take_all(items);
    }
    r
}

/// No item of the list stands behind one that is listed after it, and there are as many as items.
pub proof fn list_is_ordered(items: Seq<Tech>)
    ensures
        listed(items).len() == items.len(),
        forall|i: int, j: int|
            0 <= i < j < items.len() ==> !listed_before(
                #[trigger] listed(items)[j],
                #[trigger] listed(items)[i],
            ),
    decreases items.len(),
{
    if items.len() > 0 {
        let a = items.drop_last();
        list_is_ordered(a);
        let r = listed(a);
        let b = items.last();
        lemma_list_place(r, b, 0);
        let p = list_place(r, b, 0);
        let t = listed(items);
        assert(t == r.insert(p, b));
        assert forall|i: int, j: int| 0 <= i < j < items.len() implies !listed_before(
            #[trigger] t[j],
            #[trigger] t[i],
        ) by {
            if i == p {
                assert(t[j] == r[j - 1]);
                assert(listed_before(b, r[p]));
                assert(p == j - 1 || !listed_before(r[j - 1], r[p]));
            } else if j == p {
                assert(t[i] == r[i]);
            } else {
                let x = if i < p { i } else { i - 1 };
                let y = if j < p { j } else { j - 1 };
                assert(t[i] == r[x] && t[j] == r[y]);
            }
        }
    }
}

/// What is found is the least index of an item before which another is listed.
proof fn lemma_list_place(s: Seq<Tech>, b: Tech, i: int)
    requires
        0 <= i <= s.len(),
    ensures
        i <= list_place(s, b, i) <= s.len(),
        forall|j: int| i <= j < list_place(s, b, i) ==> !listed_before(b, #[trigger] s[j]),
        list_place(s, b, i) < s.len() ==> listed_before(b, s[list_place(s, b, i)]),
    decreases s.len() - i,
{
    if i < s.len() && !listed_before(b, s[i]) {
        lemma_list_place(s, b, i + 1);
    }
}

// ── Details ────────────────────────────────────────────────────────────────────

/// The source of a case: who published it, when, and what it is, as far as it is known.
pub open spec fn case_source(c: CaseEvidence) -> Seq<char> {
    let a = seq![c.publisher@];
    let b = if c.published_at@.len() > 0 {
        a.push(c.published_at@)
    } else {
        a
    };
    let d = if c.evidence_type@.len() > 0 {
        b.push(c.evidence_type@)
    } else {
        b
    };
    text::joined(d, " | "@)
}

/// A case as it is shown.
pub open spec fn case_lines(c: CaseEvidence) -> Seq<char> {
    "  • "@ + c.company@ + "："@ + c.usage_summary@ + "\n"@ + "    來源："@ + c.title@ + " — "@
        + case_source(c) + "\n"@ + "    URL："@ + c.url@ + "\n"@
}

/// Cases as they are shown.
pub open spec fn all_case_lines(cases: Seq<CaseEvidence>) -> Seq<char>
    decreases cases.len(),
{
    if cases.len() == 0 {
        Seq::empty()
    } else {
        all_case_lines(cases.drop_last()) + case_lines(cases.last())
    }
}

/// What is shown of cases: the cases, that there are none, why there are none, or that they were
/// not looked for.
pub open spec fn cases_part(bundle: Option<&BlipCaseBundle>, error: Option<Seq<char>>) -> Seq<char> {
    match bundle {
        Some(b) => if b.cases@.len() == 0 {
            "  • 未找到符合官方標準的公開案例\n"@
        } else {
            all_case_lines(b.cases@)
        },
        None => match error {
            Some(e) => "  • 查找失敗："@ + e + "\n"@,
            None => "  • 尚未載入案例資料\n"@,
        },
    }
}

/// Texts as a list with dots.
pub open spec fn dotted(items: Seq<Seq<char>>) -> Seq<char>
    decreases items.len(),
{
    if items.len() == 0 {
        Seq::empty()
    } else {
        dotted(items.drop_last()) + ("  • "@ + items.last() + "\n"@)
    }
}

/// The kind of an item's source.
pub open spec fn source_label(open_source: bool, source_icon: bool) -> Seq<char> {
    if source_icon && open_source {
        "▲ 開源"@
    } else if source_icon {
        "● 閉源"@
    } else {
        "◆ 方法"@
    }
}

/// What is shown of the activity of an item's repository.
pub open spec fn activity_part(days: Option<i64>, repo: Seq<char>) -> Seq<char> {
    match days {
        Some(d) => "\n\nGitHub 活躍度  "@ + (if d > 365 {
            "🔴"@
        } else if d > 180 {
            "🟡"@
        } else {
            "🟢"@
        }) + " 最後更新 "@ + number::signed_decimal(d as int) + " 天前"@ + (if repo.len() > 0 {
            "  ("@ + repo + ")"@
        } else {
            Seq::empty()
        }),
        None => Seq::empty(),
    }
}

/// A part that is shown where a text is not empty.
pub open spec fn part_if(shown: bool, part: Seq<char>) -> Seq<char> {
    if shown {
        part
    } else {
        Seq::empty()
    }
}

/// What is shown of an item before its cases.
pub open spec fn detail_head(b: Tech, names: Seq<(String, String)>, source_icon: bool) -> Seq<char> {
    source_label(b.is_open_source, source_icon) + "   "@ + unicode::uppercase(b.ring) + "   "@
        + radar::quadrant_name(names, b.quadrant) + part_if(
        b.license.len() > 0,
        "   "@ + b.license,
    ) + "\n\n"@ + part_if(b.description.len() > 0, b.description + "\n"@) + part_if(
        b.upstream.len() > 0,
        "\n⬆ 上游依賴  "@ + text::joined(b.upstream, "  "@),
    ) + part_if(
        b.downstream.len() > 0,
        "\n⬇ 下游生態  "@ + text::joined(b.downstream, "  "@),
    ) + activity_part(b.github_days, b.github_repo)
}

/// What is shown of an item behind its cases.
pub open spec fn detail_tail(b: Tech) -> Seq<char> {
    part_if(b.pros.len() > 0, "\n\n推薦理由\n"@ + dotted(b.pros)) + part_if(
        b.cons.len() > 0,
        "\n⚠️  不推薦理由\n"@ + dotted(b.cons),
    ) + part_if(b.rationale.len() > 0, "\n📌 分類依據\n"@ + b.rationale)
}

/// What is shown of an item.
pub open spec fn detail_text(
    b: Tech,
    names: Seq<(String, String)>,
    bundle: Option<&BlipCaseBundle>,
    error: Option<Seq<char>>,
    source_icon: bool,
) -> Seq<char> {
    detail_head(b, names, source_icon) + "\n\n🏢 企業案例\n"@ + cases_part(bundle, error)
        + detail_tail(b)
}

/// The source of a case.
fn source_of_case(c: &CaseEvidence) -> (r: String)
    ensures
        r@ == case_source(*c),
{
    broadcast use text::views_push;

    let mut meta = vec![c.publisher.clone()];
    assert(text::views(meta@) =~= seq![c.publisher@]);
    if !text::is_empty(&c.published_at) {
        meta.push(c.published_at.clone());
    }
    if !text::is_empty(&c.evidence_type) {
        meta.push(c.evidence_type.clone());
    }
    text::join(&meta, " | ")
}

/// Cases as they are shown.
fn show_cases(cases: &Vec<CaseEvidence>) -> (r: String)
    ensures
        r@ == all_case_lines(cases@),
{
    let mut r = String::new();
    let mut i: usize = 0;
    assert(r@ =~= Seq::empty());
    while i < cases.len()
        invariant
            i <= cases@.len(),
            r@ == all_case_lines(cases@.take(i as int)),
        decreases cases.len() - i,
    {
        proof {
            assert(cases@.take(i + 1).drop_last() =~= cases@.take(i as int));
            assert(cases@.take(i + 1).last() == cases@[i as int]);
        }
        let c = &cases[i];
        let mut s = text::concat6(
            "  • ",
            &c.company,
            "：",
            &c.usage_summary,
            "\n",
            "    來源：",
        );
        s.append(&c.title);
        s.append(" — ");
        s.append(&source_of_case(c));
        s.append("\n");
        s.append("    URL：");
        s.append(&c.url);
        s.append("\n");
        r.append(&s);
        i += 1;
    }
    proof {
        lists::take_all(cases@);
    }
    r
}

/// What is shown of cases.
fn show_cases_part(bundle: Option<&BlipCaseBundle>, error: Option<&str>) -> (r: String)
    ensures
        r@ == cases_part(bundle, text::opt_str(error)),
{
    match bundle {
        Some(b) => if b.cases.len() == 0 {
            "  • 未找到符合官方標準的公開案例\n".to_owned()
        } else {
            show_cases(&b.cases)
        },
        None => match error {
            Some(e) => text::concat3("  • 查找失敗：", e, "\n"),
            None => "  • 尚未載入案例資料\n".to_owned(),
        },
    }
}

/// Texts as a list with dots.
fn dot_list(items: &Vec<String>) -> (r: String)
    ensures
        r@ == dotted(text::views(items@)),
{
    let ghost all = text::views(items@);
    let mut r = String::new();
    let mut i: usize = 0;
    assert(r@ =~= Seq::empty());
    while i < items.len()
        invariant
            i <= items@.len(),
            all == text::views(items@),
            r@ == dotted(all.take(i as int)),
        decreases items.len() - i,
    {
        proof {
            assert(all.take(i + 1).drop_last() =~= all.take(i as int));
            assert(all.take(i + 1).last() == items@[i as int]@);
        }
        r.append(&text::concat3("  • ", &items[i], "\n"));
        i += 1;
    }
    proof {
        lists::take_all(all);
    }
    r
}

/// What is shown of the activity of an item's repository.
fn show_activity(days: Option<i64>, repo: &str) -> (r: String)
    ensures
        r@ == activity_part(days, repo@),
{
    match days {
        Some(d) => {
            let icon = if d > 365 {
                "🔴"
            } else if d > 180 {
                "🟡"
            } else {
                "🟢"
            };
            let tail = if text::is_empty(repo) {
                String::new()
            } else {
                text::concat3("  (", repo, ")")
            };
            text::concat6(
                "\n\nGitHub 活躍度  ",
                icon,
                " 最後更新 ",
                &number::i64_text(d),
                " 天前",
                &tail,
            )
        },
        None => String::new(),
    }
}

/// A part where it is shown.
fn part(shown: bool, s: String) -> (r: String)
    ensures
        r@ == part_if(shown, s@),
{
    if shown {
        s
    } else {
        String::new()
    }
}

/// What is shown of an item before its cases.
fn show_head(b: &Blip, names: &QuadrantNames, source_icon: bool) -> (r: String)
    ensures
        r@ == detail_head(b@, names.entries@, source_icon),
{
    let label = if source_icon && b.is_open_source {
        "▲ 開源"
    } else if source_icon {
        "● 閉源"
    } else {
        "◆ 方法"
    };
    let mut r = text::concat5(
        label,
        "   ",
        &b.ring.to_uppercase(),
        "   ",
        &names.name_of(&b.quadrant),
    );
    proof {
        assert(text::views(b.upstream@).len() == b.upstream@.len());
        assert(text::views(b.downstream@).len() == b.downstream@.len());
    }
    r.append(&part(!text::is_empty(&b.license), text::concat2("   ", &b.license)));
    r.append("\n\n");
    r.append(&part(!text::is_empty(&b.description), text::concat2(&b.description, "\n")));
    r.append(
        &part(
            b.upstream.len() > 0,
            text::concat2("\n⬆ 上游依賴  ", &text::join(&b.upstream, "  ")),
        ),
    );
    r.append(
        &part(
            b.downstream.len() > 0,
            text::concat2("\n⬇ 下游生態  ", &text::join(&b.downstream, "  ")),
        ),
    );
    r.append(&show_activity(b.github_days, &b.github_repo));
    r
}

/// What is shown of an item behind its cases.
fn show_tail(b: &Blip) -> (r: String)
    ensures
        r@ == detail_tail(b@),
{
    proof {
        assert(text::views(b.pros@).len() == b.pros@.len());
        assert(text::views(b.cons@).len() == b.cons@.len());
    }
    let mut r = part(b.pros.len() > 0, text::concat2("\n\n推薦理由\n", &dot_list(&b.pros)));
    r.append(
        &part(b.cons.len() > 0, text::concat2("\n⚠️  不推薦理由\n", &dot_list(&b.cons))),
    );
    r.append(
        &part(!text::is_empty(&b.rationale), text::concat2("\n📌 分類依據\n", &b.rationale)),
    );
    r
}

/// What is shown of an item.
pub fn show_blip_detail(
    blip: &Blip,
    names: &QuadrantNames,
    case_bundle: Option<&BlipCaseBundle>,
    case_error: Option<&str>,
    source_icon: bool,
) -> (r: String)
    ensures
        r@ == detail_text(
            blip@,
            names.entries@,
            case_bundle,
            text::opt_str(case_error),
            source_icon,
        ),
{
    text::concat4(
        &show_head(blip, names, source_icon),
        "\n\n🏢 企業案例\n",
        &show_cases_part(case_bundle, case_error),
        &show_tail(blip),
    )
}

/// The title of an item's panel.
pub fn detail_title(blip: &Blip) -> (r: String)
    ensures
        r@ == "#"@ + number::decimal(blip.number as nat) + " "@ + blip.name@,
{
    text::concat4("#", &number::usize_text(blip.number), " ", &blip.name)
}

/// The colour of an item's panel.
pub fn detail_color(ring: &str) -> (r: &'static str)
    ensures
        r@ == (if ring@ == "hold"@ {
            "magenta"@
        } else {
            color_of_ring(ring@)
        }),
{
    if same(ring, "hold") {
        "magenta"
    } else {
        ring_color(ring)
    }
}

// ── Laws ─────────────────────────────────────────────────────────────────────

/// The sector of an item with a known quadrant and ring, counted by quadrants and in each from the
/// inside.
pub open spec fn sector_of(b: Tech) -> nat {
    quadrant_place(b.quadrant) * 4 + ring_place(b.ring)
}

/// The sectors are counted as they are numbered.
proof fn lemma_sector_number(b: Tech, s: int)
    requires
        0 <= s < 16,
        in_sector(b, sector_quadrant(s), sector_ring(s)),
    ensures
        sector_of(b) == s,
{
    reveal_strlit("q1");
    reveal_strlit("q2");
    reveal_strlit("q3");
    reveal_strlit("q4");
    assert("q1"@[1] == '1' && "q2"@[1] == '2' && "q3"@[1] == '3' && "q4"@[1] == '4');
    reveal_strlit("adopt");
    reveal_strlit("trial");
    reveal_strlit("assess");
    reveal_strlit("hold");
    assert("adopt"@.len() == 5 && "trial"@.len() == 5 && "assess"@.len() == 6 && "hold"@.len() == 4);
    assert("adopt"@[0] != "trial"@[0]);
    let q = s / 4;
    let r = s % 4;
    assert(q == 0 || q == 1 || q == 2 || q == 3);
    assert(r == 0 || r == 1 || r == 2 || r == 3);
    assert(radar::QUADRANTS@[0]@ == "q1"@ && radar::QUADRANTS@[1]@ == "q2"@ && radar::QUADRANTS@[2]@
        == "q3"@ && radar::QUADRANTS@[3]@ == "q4"@);
    assert(radar::RINGS@[0]@ == "adopt"@ && radar::RINGS@[1]@ == "trial"@ && radar::RINGS@[2]@
        == "assess"@ && radar::RINGS@[3]@ == "hold"@);
    assert(s == q * 4 + r);
}

/// The items of a sector are in it, and come in the order of the list.
proof fn lemma_sector_ordered(items: Seq<Tech>, q: Seq<char>, r: Seq<char>)
    ensures
        forall|a: int|
            0 <= a < sector(items, q, r).len() ==> 0 <= #[trigger] sector(items, q, r)[a]
                < items.len() && in_sector(items[sector(items, q, r)[a]], q, r),
        forall|a: int, b: int|
            0 <= a < b < sector(items, q, r).len() ==> #[trigger] sector(items, q, r)[a]
                < #[trigger] sector(items, q, r)[b],
    decreases items.len(),
{
    if items.len() > 0 {
        let s = items.drop_last();
        lemma_sector_ordered(s, q, r);
        let x = sector(s, q, r);
        let y = sector(items, q, r);
        assert forall|a: int| 0 <= a < y.len() implies 0 <= #[trigger] y[a] < items.len()
            && in_sector(items[y[a]], q, r) by {
            if a < x.len() {
                assert(y[a] == x[a]);
                assert(s[x[a]] == items[x[a]]);
            }
        }
        assert forall|a: int, b: int| 0 <= a < b < y.len() implies #[trigger] y[a]
            < #[trigger] y[b] by {
            assert(y[a] == x[a]);
            if b < x.len() {
                assert(y[b] == x[b]);
            }
        }
    }
}

/// Numbers go by quadrants, in each quadrant outwards from the inner ring, and in each sector in
/// the order of the list.
pub proof fn numbers_go_by_quadrant_and_ring(items: Seq<Tech>, sectors: nat)
    requires
        sectors <= 16,
    ensures
        forall|a: int|
            0 <= a < numbering(items, sectors).len() ==> 0 <= #[trigger] numbering(items, sectors)[a]
                < items.len() && sector_of(items[numbering(items, sectors)[a]]) < sectors,
        forall|a: int, b: int|
            #![trigger numbering(items, sectors)[a], numbering(items, sectors)[b]]
            0 <= a < b < numbering(items, sectors).len() ==> {
                let x = numbering(items, sectors)[a];
                let y = numbering(items, sectors)[b];
                sector_of(items[x]) < sector_of(items[y]) || sector_of(items[x]) == sector_of(
                    items[y],
                ) && x < y
            },
    decreases sectors,
{
    if sectors > 0 {
        let s = sectors - 1;
        numbers_go_by_quadrant_and_ring(items, s as nat);
        let old_ones = numbering(items, s as nat);
        let new_ones = sector(items, sector_quadrant(s), sector_ring(s));
        let all = numbering(items, sectors);
        lemma_sector_ordered(items, sector_quadrant(s), sector_ring(s));
        assert forall|a: int| 0 <= a < new_ones.len() implies sector_of(
            items[#[trigger] new_ones[a]],
        ) == s by {
            lemma_sector_number(items[new_ones[a]], s);
        }
        assert forall|a: int| 0 <= a < all.len() implies 0 <= #[trigger] all[a] < items.len()
            && sector_of(items[all[a]]) < sectors by {
            if a < old_ones.len() {
                assert(all[a] == old_ones[a]);
            } else {
                assert(all[a] == new_ones[a - old_ones.len()]);
            }
        }
        assert forall|a: int, b: int|
            #![trigger all[a], all[b]]
            0 <= a < b < all.len() implies sector_of(items[all[a]]) < sector_of(items[all[b]])
            || sector_of(items[all[a]]) == sector_of(items[all[b]]) && all[a] < all[b] by {
            if b < old_ones.len() {
                assert(all[a] == old_ones[a] && all[b] == old_ones[b]);
            } else if a < old_ones.len() {
                assert(all[a] == old_ones[a] && all[b] == new_ones[b - old_ones.len()]);
            } else {
                assert(all[a] == new_ones[a - old_ones.len()] && all[b] == new_ones[b
                    - old_ones.len()]);
            }
        }
    }
}

/// Each item gets its place in the order as its number, counted from one, and nothing else of it
/// changes; an item that is not numbered stays as it is.
pub proof fn numbers_are_places(items: Seq<Tech>, order: Seq<int>)
    requires
        order.no_duplicates(),
        order.len() <= usize::MAX,
        forall|k: int| 0 <= k < order.len() ==> 0 <= #[trigger] order[k] < items.len(),
    ensures
        with_numbers(items, order).len() == items.len(),
        forall|k: int|
            0 <= k < order.len() ==> with_numbers(items, order)[#[trigger] order[k]] == (Tech {
                number: (k + 1) as usize,
                ..items[order[k]]
            }),
        forall|i: int|
            0 <= i < items.len() && !order.contains(i) ==> #[trigger] with_numbers(items, order)[i]
                == items[i],
    decreases order.len(),
{
    if order.len() > 0 {
        let a = order.drop_last();
        let n = order.len() - 1;
        assert forall|k: int| 0 <= k < a.len() implies 0 <= #[trigger] a[k] < items.len() by {
            assert(0 <= order[k] < items.len());
        }
        assert(a.no_duplicates());
        numbers_are_places(items, a);
        lemma_with_numbers_len(items, order);
        let r = with_numbers(items, a);
        let s = with_numbers(items, order);
        let last = order.last();
        assert(order[n] == last);
        assert(!a.contains(last)) by {
            if a.contains(last) {
                let k = choose|k: int| 0 <= k < a.len() && a[k] == last;
                assert(order[k] == order[n]);
            }
        }
        assert(r[last] == items[last]);
        assert forall|k: int| 0 <= k < order.len() implies s[#[trigger] order[k]] == (Tech {
            number: (k + 1) as usize,
            ..items[order[k]]
        }) by {
            if k < n {
                assert(a[k] == order[k]);
                assert(order[k] != order[n]);
                assert(s[order[k]] == r[a[k]]);
            }
        }
        assert forall|i: int| 0 <= i < items.len() && !order.contains(i) implies #[trigger] s[i]
            == items[i] by {
            assert(i != last) by {
                if i == last {
                    assert(order.contains(order[n]));
                }
            }
            if a.contains(i) {
                let k = choose|k: int| 0 <= k < a.len() && a[k] == i;
                assert(order[k] == i);
            }
            assert(r[i] == items[i]);
        }
    }
}

/// Every digit of a number that lies in the picture is drawn there in the item's colour.
pub proof fn digits_are_drawn(g: Canvas, r: int, c: int, digits: Seq<char>, color: Seq<char>, k: int)
    requires
        0 <= k < digits.len(),
        inside(r, c + k),
    ensures
        with_digits(g, r, c, digits, color)[(r, c + k)] == (digits[k], color),
    decreases digits.len(),
{
    let a = digits.drop_last();
    if k < a.len() {
        digits_are_drawn(g, r, c, a, color, k);
        assert(a[k] == digits[k]);
    }
}

/// A number stands at its point where it fits there, and otherwise at most one row and two columns
/// away from it; all its digits are drawn where it finds a free place.
pub proof fn numbers_stand_near_their_points(
    g: Canvas,
    p: Point,
    digits: Seq<char>,
    color: Seq<char>,
    k: int,
)
    requires
        0 <= k < digits.len(),
    ensures
        fits(g, p.0 as int, p.1 as int, digits.len()) ==> with_number(g, p, digits, color)[(
            p.0 as int,
            p.1 + k,
        )] == (digits[k], color),
        free_offset(g, p, digits.len(), 0) is Some ==> exists|r: int, c: int|
            -1 <= r - p.0 <= 1 && -2 <= c - p.1 <= 2 && #[trigger] with_number(
                g,
                p,
                digits,
                color,
            )[(r, c + k)] == (digits[k], color),
        free_offset(g, p, digits.len(), 0) is None && inside(p.0 as int, p.1 + k) ==> with_number(
            g,
            p,
            digits,
            color,
        )[(p.0 as int, p.1 + k)] == (digits[k], color),
{
    let n = digits.len();
    lemma_offset_fits(g, p, n, 0);
    assert(OFFSETS@[0] == (0i32, 0i32));
    if fits(g, p.0 as int, p.1 as int, n) {
        assert(free_offset(g, p, n, 0) == Some(0int));
        assert(open_cell(g, p.0 as int, p.1 as int, k));
        digits_are_drawn(g, p.0 as int, p.1 as int, digits, color, k);
    }
    if let Some(i) = free_offset(g, p, n, 0) {
        lemma_offsets_are_small(i);
        let r = p.0 + OFFSETS@[i].0;
        let c = p.1 + OFFSETS@[i].1;
        assert(open_cell(g, r, c, k));
        digits_are_drawn(g, r, c, digits, color, k);
        assert(with_number(g, p, digits, color)[(r, c + k)] == (digits[k], color));
    } else if inside(p.0 as int, p.1 + k) {
        digits_are_drawn(g, p.0 as int, p.1 as int, digits, color, k);
    }
}

/// The number of an open source item is green and that of any other red.
pub proof fn numbers_have_the_colour_of_their_source()
    ensures
        number_color(true) == "bright_green"@,
        number_color(false) == "bright_red"@,
{
}

/// The list holds every item once: the same items as were given, in another order.
pub proof fn the_list_holds_every_item(items: Seq<Tech>)
    ensures
        listed(items).to_multiset() == items.to_multiset(),
    decreases items.len(),
{
    if items.len() > 0 {
        let a = items.drop_last();
        let b = items.last();
        the_list_holds_every_item(a);
        let r = listed(a);
        lemma_list_place(r, b, 0);
        vstd::seq_lib::to_multiset_insert(r, list_place(r, b, 0), b);
        a.to_multiset_ensures();
        assert(a.push(b) =~= items);
    }
}

/// Quadrants come in order in the list, in each the inner rings come first, and in each ring the
/// lower numbers.
pub proof fn the_list_goes_by_quadrant_ring_and_number(a: Tech, b: Tech)
    ensures
        a.quadrant == "q1"@ && b.quadrant == "q2"@ ==> listed_before(a, b),
        a.quadrant == "q2"@ && b.quadrant == "q3"@ ==> listed_before(a, b),
        a.quadrant == "q3"@ && b.quadrant == "q4"@ ==> listed_before(a, b),
        a.quadrant == b.quadrant && a.ring == "adopt"@ && b.ring == "trial"@ ==> listed_before(a, b),
        a.quadrant == b.quadrant && a.ring == "trial"@ && b.ring == "assess"@ ==> listed_before(
            a,
            b,
        ),
        a.quadrant == b.quadrant && a.ring == "assess"@ && b.ring == "hold"@ ==> listed_before(a, b),
        a.quadrant == b.quadrant && a.ring == b.ring ==> (listed_before(a, b) <==> a.number
            < b.number),
        listed_before(a, b) ==> !listed_before(b, a),
{
    reveal_strlit("q1");
    reveal_strlit("q2");
    reveal_strlit("q3");
    reveal_strlit("q4");
    assert("q1"@[1] == '1' && "q2"@[1] == '2' && "q3"@[1] == '3' && "q4"@[1] == '4');
    reveal_strlit("adopt");
    reveal_strlit("trial");
    reveal_strlit("assess");
    reveal_strlit("hold");
    assert("adopt"@.len() == 5 && "trial"@.len() == 5 && "assess"@.len() == 6 && "hold"@.len() == 4);
    assert("adopt"@[0] != "trial"@[0]);
}

/// Every item of the list has a row that shows its number, its name, its ring in uppercase and the
/// name of its quadrant, and below the row of its quadrant.
pub proof fn every_item_has_a_row(
    items: Seq<Tech>,
    names: Seq<(String, String)>,
    source_icon: bool,
    i: int,
)
    requires
        0 <= i < items.len(),
    ensures
        exists|k: int|
            0 <= k < list_rows(items, names, source_icon).len() && {
                let row = #[trigger] list_rows(items, names, source_icon)[k];
                let b = items[i];
                &&& row.len() == 5
                &&& row[0] == number::decimal(b.number as nat)
                &&& row[2] == b.name
                &&& row[3] == unicode::uppercase(b.ring)
                &&& row[4] == radar::quadrant_name(names, b.quadrant)
                &&& source_icon && b.is_open_source ==> row[1] == "▲"@
                &&& source_icon && !b.is_open_source ==> row[1] == "●"@
                &&& !source_icon ==> row[1] == "◆"@
            },
        list_rows(items, names, source_icon).len() > items.len(),
    decreases items.len(),
{
    let r = list_rows(items, names, source_icon);
    let n = items.len() - 1;
    let a = items.drop_last();
    let s = list_rows(a, names, source_icon);
    if n > 0 {
        every_item_has_a_row(a, names, source_icon, if i < n { i } else { 0 });
    } else {
        assert(s =~= Seq::<Seq<Seq<char>>>::empty());
    }
    if i < n {
        let k = choose|k: int|
            0 <= k < s.len() && {
                let row = #[trigger] s[k];
                let b = a[i];
                &&& row.len() == 5
                &&& row[0] == number::decimal(b.number as nat)
                &&& row[2] == b.name
                &&& row[3] == unicode::uppercase(b.ring)
                &&& row[4] == radar::quadrant_name(names, b.quadrant)
                &&& source_icon && b.is_open_source ==> row[1] == "▲"@
                &&& source_icon && !b.is_open_source ==> row[1] == "●"@
                &&& !source_icon ==> row[1] == "◆"@
            };
        assert(r[k] == s[k]);
    } else {
        assert(r.last() == item_row(items[i], names, source_icon));
        assert(r[r.len() - 1] == r.last());
    }
}

/// The details of an item show its ring, its quadrant's name, its license, its description, what
/// it depends on, what depends on it, and the reasons for its place.
pub proof fn details_show_the_item(
    b: Tech,
    names: Seq<(String, String)>,
    bundle: Option<&BlipCaseBundle>,
    error: Option<Seq<char>>,
    source_icon: bool,
    i: int,
)
    ensures
        ({
            let d = detail_text(b, names, bundle, error, source_icon);
            &&& text::holds(d, unicode::uppercase(b.ring))
            &&& text::holds(d, radar::quadrant_name(names, b.quadrant))
            &&& text::holds(d, b.license)
            &&& text::holds(d, b.description)
            &&& text::holds(d, b.rationale)
            &&& 0 <= i < b.upstream.len() ==> text::holds(d, b.upstream[i])
            &&& 0 <= i < b.downstream.len() ==> text::holds(d, b.downstream[i])
            &&& 0 <= i < b.pros.len() ==> text::holds(d, b.pros[i])
            &&& 0 <= i < b.cons.len() ==> text::holds(d, b.cons[i])
            &&& b.github_days matches Some(n) ==> text::holds(d, number::signed_decimal(n as int))
            &&& b.github_days is Some ==> text::holds(d, b.github_repo)
            &&& text::holds(d, cases_part(bundle, error))
        }),
{
    broadcast use {text::holds_in_front, text::holds_at_end, text::holds_itself};

    let d = detail_text(b, names, bundle, error, source_icon);
    let h = detail_head(b, names, source_icon);
    let t = detail_tail(b);
    assert(text::holds(d, h));
    assert(text::holds(d, t));
    assert(text::holds(d, cases_part(bundle, error)));
    assert(text::holds(h, unicode::uppercase(b.ring)));
    text::holds_within(d, h, unicode::uppercase(b.ring));
    assert(text::holds(h, radar::quadrant_name(names, b.quadrant)));
    text::holds_within(d, h, radar::quadrant_name(names, b.quadrant));
    let license = part_if(b.license.len() > 0, "   "@ + b.license);
    let description = part_if(b.description.len() > 0, b.description + "\n"@);
    let up = part_if(b.upstream.len() > 0, "\n⬆ 上游依賴  "@ + text::joined(b.upstream, "  "@));
    let down = part_if(
        b.downstream.len() > 0,
        "\n⬇ 下游生態  "@ + text::joined(b.downstream, "  "@),
    );
    let act = activity_part(b.github_days, b.github_repo);
    assert(text::holds(h, license) && text::holds(h, description) && text::holds(h, up)
        && text::holds(h, down) && text::holds(h, act));
    if b.license.len() > 0 {
        text::holds_within(h, license, b.license);
        text::holds_within(d, h, b.license);
    } else {
        assert(b.license =~= Seq::empty());
        text::holds_nothing(d);
    }
    if b.description.len() > 0 {
        text::holds_within(h, description, b.description);
        text::holds_within(d, h, b.description);
    } else {
        assert(b.description =~= Seq::empty());
        text::holds_nothing(d);
    }
    if 0 <= i < b.upstream.len() {
        let j = text::joined(b.upstream, "  "@);
        text::joined_holds_each(b.upstream, "  "@, i);
        text::holds_within(up, j, b.upstream[i]);
        text::holds_within(h, up, b.upstream[i]);
        text::holds_within(d, h, b.upstream[i]);
    }
    if 0 <= i < b.downstream.len() {
        let j = text::joined(b.downstream, "  "@);
        text::joined_holds_each(b.downstream, "  "@, i);
        text::holds_within(down, j, b.downstream[i]);
        text::holds_within(h, down, b.downstream[i]);
        text::holds_within(d, h, b.downstream[i]);
    }
    let pros = part_if(b.pros.len() > 0, "\n\n推薦理由\n"@ + dotted(b.pros));
    let cons = part_if(b.cons.len() > 0, "\n⚠️  不推薦理由\n"@ + dotted(b.cons));
    let why = part_if(b.rationale.len() > 0, "\n📌 分類依據\n"@ + b.rationale);
    assert(text::holds(t, pros) && text::holds(t, cons) && text::holds(t, why));
    if 0 <= i < b.pros.len() {
        lemma_dotted_holds(b.pros, i);
        text::holds_within(pros, dotted(b.pros), b.pros[i]);
        text::holds_within(t, pros, b.pros[i]);
        text::holds_within(d, t, b.pros[i]);
    }
    if 0 <= i < b.cons.len() {
        lemma_dotted_holds(b.cons, i);
        text::holds_within(cons, dotted(b.cons), b.cons[i]);
        text::holds_within(t, cons, b.cons[i]);
        text::holds_within(d, t, b.cons[i]);
    }
    if b.rationale.len() > 0 {
        text::holds_within(t, why, b.rationale);
        text::holds_within(d, t, b.rationale);
    } else {
        assert(b.rationale =~= Seq::empty());
        text::holds_nothing(d);
    }
    if let Some(n) = b.github_days {
        assert(text::holds(act, number::signed_decimal(n as int)));
        text::holds_within(h, act, number::signed_decimal(n as int));
        text::holds_within(d, h, number::signed_decimal(n as int));
        if b.github_repo.len() > 0 {
            let r = "  ("@ + b.github_repo + ")"@;
            assert(text::holds(r, b.github_repo));
            assert(text::holds(act, r));
            text::holds_within(act, r, b.github_repo);
            text::holds_within(h, act, b.github_repo);
            text::holds_within(d, h, b.github_repo);
        } else {
            assert(b.github_repo =~= Seq::empty());
            text::holds_nothing(d);
        }
    }
}

/// A list with dots holds each of its texts.
proof fn lemma_dotted_holds(items: Seq<Seq<char>>, i: int)
    requires
        0 <= i < items.len(),
    ensures
        text::holds(dotted(items), items[i]),
    decreases items.len(),
{
    broadcast use {text::holds_in_front, text::holds_at_end};

    let a = dotted(items.drop_last());
    let l = "  • "@ + items.last() + "\n"@;
    if i < items.len() - 1 {
        lemma_dotted_holds(items.drop_last(), i);
        assert(items.drop_last()[i] == items[i]);
    } else {
        assert(text::holds(l, items[i]));
        text::holds_within(a + l, l, items[i]);
    }
}

/// Every case of an item is shown with the company, what it does with the product, its title, its
/// publisher and its address; where there are none or the search failed, that is said.
pub proof fn every_case_is_shown(cases: Seq<CaseEvidence>, i: int)
    requires
        0 <= i < cases.len(),
    ensures
        text::holds(all_case_lines(cases), cases[i].company@),
        text::holds(all_case_lines(cases), cases[i].usage_summary@),
        text::holds(all_case_lines(cases), cases[i].title@),
        text::holds(all_case_lines(cases), cases[i].url@),
        text::holds(all_case_lines(cases), cases[i].publisher@),
        text::holds(all_case_lines(cases), cases[i].published_at@),
    decreases cases.len(),
{
    broadcast use {text::holds_in_front, text::holds_at_end};

    let a = all_case_lines(cases.drop_last());
    let c = cases.last();
    let l = case_lines(c);
    if i < cases.len() - 1 {
        every_case_is_shown(cases.drop_last(), i);
        assert(cases.drop_last()[i] == cases[i]);
    } else {
        assert(text::holds(l, c.company@) && text::holds(l, c.usage_summary@) && text::holds(
            l,
            c.title@,
        ) && text::holds(l, c.url@));
        let src = case_source(c);
        assert(text::holds(l, src));
        let a1 = seq![c.publisher@];
        let b1 = if c.published_at@.len() > 0 {
            a1.push(c.published_at@)
        } else {
            a1
        };
        let d1 = if c.evidence_type@.len() > 0 {
            b1.push(c.evidence_type@)
        } else {
            b1
        };
        assert(d1[0] == c.publisher@);
        text::joined_holds_each(d1, " | "@, 0);
        text::holds_within(l, src, c.publisher@);
        if c.published_at@.len() > 0 {
            assert(d1[1] == c.published_at@);
            text::joined_holds_each(d1, " | "@, 1);
            text::holds_within(l, src, c.published_at@);
        } else {
            assert(c.published_at@ =~= Seq::empty());
            text::holds_nothing(l);
        }
        text::holds_within(a + l, l, c.company@);
        text::holds_within(a + l, l, c.usage_summary@);
        text::holds_within(a + l, l, c.title@);
        text::holds_within(a + l, l, c.url@);
        text::holds_within(a + l, l, c.publisher@);
        text::holds_within(a + l, l, c.published_at@);
    }
}

/// The cases that were found are shown where there are some; an error is told where there was one.
pub proof fn cases_or_their_absence_are_shown(bundle: BlipCaseBundle, e: Seq<char>)
    ensures
        bundle.cases@.len() > 0 ==> cases_part(Some(&bundle), None) == all_case_lines(bundle.cases@),
        bundle.cases@.len() > 0 ==> cases_part(Some(&bundle), Some(e)) == all_case_lines(
            bundle.cases@,
        ),
        text::holds(cases_part(None, Some(e)), e),
{
    broadcast use {text::holds_in_front, text::holds_at_end};
}

/// The activity of a repository is green up to half a year, yellow up to a year and red after it.
pub proof fn idle_repositories_are_marked(days: i64, repo: Seq<char>)
    ensures
        days > 365 ==> text::holds(activity_part(Some(days), repo), "🔴"@),
        180 < days <= 365 ==> text::holds(activity_part(Some(days), repo), "🟡"@),
        days <= 180 ==> text::holds(activity_part(Some(days), repo), "🟢"@),
        activity_part(None, repo).len() == 0,
{
    broadcast use {text::holds_in_front, text::holds_at_end};
}

/// The name of a quadrant stands at the front of its label, which is at least 35 characters long.
pub proof fn labels_begin_with_the_name(
    names: Seq<(String, String)>,
    key: Seq<char>,
    fallback: Seq<char>,
)
    ensures
        side_label(names, key, fallback).len() >= 35,
        radar::name_among(names, key) matches Some(n) ==> text::begins(
            side_label(names, key, fallback),
            n,
        ),
        radar::name_among(names, key) is None ==> text::begins(
            side_label(names, key, fallback),
            fallback,
        ),
{
    let n = match radar::name_among(names, key) {
        Some(x) => x,
        None => fallback,
    };
    let l = side_label(names, key, fallback);
    assert(l.subrange(0, n.len() as int) =~= n);
}

/// A dot stands at every point of a ring where nothing else does, and dots hide nothing.
pub proof fn rings_are_drawn(g: Canvas, points: Seq<Point>, i: int)
    ensures
        0 <= i < points.len() ==> with_dots(g, points)[(points[i].0 as int, points[i].1 as int)].0
            != ' ',
        forall|q: (int, int)| g[q].0 != ' ' ==> #[trigger] with_dots(g, points)[q] == g[q],
    decreases points.len(),
{
    if points.len() > 0 {
        let a = points.drop_last();
        rings_are_drawn(g, a, i);
        rings_are_drawn(with_dots(g, a), Seq::empty(), 0);
        let h = with_dots(g, a);
        let p = (points.last().0 as int, points.last().1 as int);
        if i == points.len() - 1 && i >= 0 {
            assert(points[i] == points.last());
        } else if 0 <= i < a.len() {
            assert(a[i] == points[i]);
        }
        assert forall|q: (int, int)| g[q].0 != ' ' implies #[trigger] with_dots(g, points)[q] == g[q] by {
            assert(h[q] == g[q]);
        }
    }
}

/// A line is drawn through every point where nothing but dots stands, and lines hide nothing else.
pub proof fn lines_are_drawn(g: Canvas, points: Seq<(usize, usize, bool)>, i: int)
    ensures
        0 <= i < points.len() ==> !is_free(
            with_lines(g, points)[(points[i].0 as int, points[i].1 as int)].0,
        ),
        forall|q: (int, int)| !is_free(g[q].0) ==> #[trigger] with_lines(g, points)[q] == g[q],
    decreases points.len(),
{
    if points.len() > 0 {
        let a = points.drop_last();
        lines_are_drawn(g, a, i);
        let h = with_lines(g, a);
        if i == points.len() - 1 && i >= 0 {
            assert(points[i] == points.last());
        } else if 0 <= i < a.len() {
            assert(a[i] == points[i]);
        }
        assert forall|q: (int, int)| !is_free(g[q].0) implies #[trigger] with_lines(g, points)[q]
            == g[q] by {
            assert(h[q] == g[q]);
        }
    }
}

/// A label stands one column behind its point, in the picture's last column at most.
pub proof fn labels_are_drawn(g: Canvas, labels: Seq<(usize, usize, char)>, x: (usize, usize, char))
    requires
        x.1 < COLS,
    ensures
        x.1 + 1 < COLS ==> with_labels(g, labels.push(x))[(x.0 as int, x.1 + 1)].0 == x.2,
        x.1 + 1 == COLS ==> with_labels(g, labels.push(x))[(x.0 as int, x.1 as int)].0 == x.2,
{
    assert(labels.push(x).drop_last() =~= labels);
    assert(labels.push(x).last() == x);
}

/// The last item in the order is drawn with its place as its number, in the colour of its source,
/// at its point where it fits there; an item without a point is not drawn.
pub proof fn items_are_drawn_with_their_numbers(
    g: Canvas,
    items: Seq<Tech>,
    order: Seq<int>,
    points: Seq<Option<Point>>,
    k: int,
)
    requires
        order.len() > 0,
        0 <= k < number::decimal(order.len()).len(),
    ensures
        ({
            let n = order.len();
            let before = with_items(g, items, order.drop_last(), points);
            let after = with_items(g, items, order, points);
            &&& points[n - 1] is None ==> after == before
            &&& points[n - 1] matches Some(p) ==> (fits(
                before,
                p.0 as int,
                p.1 as int,
                number::decimal(n).len(),
            ) ==> after[(p.0 as int, p.1 + k)].0 == number::decimal(n)[k] && after[(
                p.0 as int,
                p.1 + k,
            )].1 == (if items[order.last()].is_open_source {
                "bright_green"@
            } else {
                "bright_red"@
            }))
        }),
{
    let n = order.len();
    let before = with_items(g, items, order.drop_last(), points);
    if let Some(p) = points[n - 1] {
        numbers_stand_near_their_points(
            before,
            p,
            number::decimal(n),
            number_color(items[order.last()].is_open_source),
            k,
        );
    }
}

/// The places that are tried round a point, in this order.
pub proof fn places_are_tried_in_this_order()
    ensures
        OFFSETS@ == seq![
            (0i32, 0i32),
            (0i32, 1i32),
            (0i32, -1i32),
            (-1i32, 0i32),
            (1i32, 0i32),
            (0i32, 2i32),
            (0i32, -2i32),
            (-1i32, 1i32),
            (1i32, 1i32),
        ],
{
    assert(OFFSETS@ =~= seq![
        (0i32, 0i32),
        (0i32, 1i32),
        (0i32, -1i32),
        (-1i32, 0i32),
        (1i32, 0i32),
        (0i32, 2i32),
        (0i32, -2i32),
        (-1i32, 1i32),
        (1i32, 1i32),
    ]);
}

} // verus!
