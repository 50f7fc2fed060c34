//! Choices from menus.
use vstd::prelude::*;
use crate::fetcher::huggingface::HFSort;
use crate::lists;
use crate::number;
use crate::radar::Blip;
use crate::radar::Tech;
use crate::text;
use crate::text::same;
use crate::unicode;

verus! {

/// What can be done with a keyword.
#[derive(Debug, Clone, Copy, PartialEq, Eq, Structural)]
pub enum Feature {
    News,
    Projects,
    Papers,
    Podcasts,
    Graph,
    Radar,
    Extras,
    ChangeMax,
    ClearCache,
    ChangeKeyword,
    Quit,
}

/// The feature of a label; one that is not known ends the program.
pub open spec fn feature_of(label: Seq<char>) -> Feature {
    if text::holds(label, "新聞摘要"@) {
        Feature::News
    } else if text::holds(label, "開源專案"@) {
        Feature::Projects
    } else if text::holds(label, "arXiv"@) {
        Feature::Papers
    } else if text::holds(label, "Podcast"@) {
        Feature::Podcasts
    } else if text::holds(label, "知識圖譜"@) {
        Feature::Graph
    } else if text::holds(label, "雷達"@) {
        Feature::Radar
    } else if text::holds(label, "其他功能"@) {
        Feature::Extras
    } else if text::holds(label, "調整筆數"@) {
        Feature::ChangeMax
    } else if text::holds(label, "清空快取"@) {
        Feature::ClearCache
    } else if text::holds(label, "更換關鍵字"@) {
        Feature::ChangeKeyword
    } else {
        Feature::Quit
    }
}

/// The feature of a label.
pub fn choose_feature(label: &str) -> (r: Feature)
    ensures
        r == feature_of(label@),
{
    if text::contains(label, "新聞摘要") {
        Feature::News
    } else if text::contains(label, "開源專案") {
        Feature::Projects
    } else if text::contains(label, "arXiv") {
        Feature::Papers
    } else if text::contains(label, "Podcast") {
        Feature::Podcasts
    } else if text::contains(label, "知識圖譜") {
        Feature::Graph
    } else if text::contains(label, "雷達") {
        Feature::Radar
    } else if text::contains(label, "其他功能") {
        Feature::Extras
    } else if text::contains(label, "調整筆數") {
        Feature::ChangeMax
    } else if text::contains(label, "清空快取") {
        Feature::ClearCache
    } else if text::contains(label, "更換關鍵字") {
        Feature::ChangeKeyword
    } else {
        Feature::Quit
    }
}

/// What a keyword that was entered comes to.
#[derive(Debug)]
pub enum KeywordInput {
    /// The program ends.
    Quit,
    /// A keyword.
    Keyword(String),
    /// There is none.
    Missing,
}

/// What a keyword that was entered comes to: an empty input keeps the present one.
pub fn enter_keyword(input: &str, present: &str) -> (r: KeywordInput)
    ensures
        ({
            let t = text::trimmed(input@);
            let quit = unicode::lowercase(t) == "quit"@ || unicode::lowercase(t) == "q"@;
            let kept = if t.len() > 0 {
                t
            } else {
                present@
            };
            &&& r is Quit == quit
            &&& r is Missing == (!quit && kept.len() == 0)
            &&& r matches KeywordInput::Keyword(k) ==> k@ == kept
        }),
{
    let t = text::trim(input);
    let low = t.to_lowercase();
    if same(&low, "quit") || same(&low, "q") {
        return KeywordInput::Quit;
    }
    if !text::is_empty(&t) {
        return KeywordInput::Keyword(t);
    }
    if text::is_empty(present) {
        KeywordInput::Missing
    } else {
        KeywordInput::Keyword(present.to_owned())
    }
}

/// The question for a keyword.
pub fn keyword_question(present: &str) -> (r: String)
    ensures
        r@ == (if present@.len() == 0 {
            "輸入搜尋關鍵字 (英文):"@
        } else {
            "輸入搜尋關鍵字 (英文，Enter 保留 \""@ + present@ + "\"):"@
        }),
{
    if text::is_empty(present) {
        "輸入搜尋關鍵字 (英文):".to_owned()
    } else {
        text::concat3("輸入搜尋關鍵字 (英文，Enter 保留 \"", present, "\"):")
    }
}

/// Whether new projects are searched.
pub fn is_emerging(label: &str) -> (r: bool)
    ensures
        r == text::holds(label@, "新興"@),
{
    text::contains(label, "新興")
}

/// The order of models for a label.
pub fn choose_sort(label: &str) -> (r: HFSort)
    ensures
        r == (if text::holds(label@, "下載"@) {
            HFSort::Downloads
        } else if text::holds(label@, "收藏"@) {
            HFSort::Likes
        } else {
            HFSort::Trending
        }),
{
    if text::contains(label, "下載") {
        HFSort::Downloads
    } else if text::contains(label, "收藏") {
        HFSort::Likes
    } else {
        HFSort::Trending
    }
}

/// The maturity that a label asks for; `None` where it asks for all.
pub open spec fn maturity_of(label: Seq<char>) -> Option<Seq<char>> {
    if text::holds(label, "Graduated"@) && !text::holds(label, "全部"@) {
        Some("graduated"@)
    } else if text::holds(label, "Incubating"@) {
        Some("incubating"@)
    } else if text::holds(label, "Sandbox"@) {
        Some("sandbox"@)
    } else {
        None
    }
}

/// The choices of maturity.
pub const MATURITY_CHOICES: [&'static str; 4] = [
    "全部       — Graduated + Incubating + Sandbox",
    "Graduated  — 已畢業",
    "Incubating — 孵化中",
    "Sandbox    — 沙盒",
];

/// The maturity that a label asks for.
pub fn choose_maturity(label: &str) -> (r: Option<&'static str>)
    ensures
        text::opt_str(r) == maturity_of(label@),
{
    if text::contains(label, "Graduated") && !text::contains(label, "全部") {
        Some("graduated")
    } else if text::contains(label, "Incubating") {
        Some("incubating")
    } else if text::contains(label, "Sandbox") {
        Some("sandbox")
    } else {
        None
    }
}

/// What else can be done.
#[derive(Debug, Clone, Copy, PartialEq, Eq, Structural)]
pub enum Extra {
    Models,
    Releases,
    Docs,
    Cncf,
    Back,
}

/// What else a label stands for.
pub fn choose_extra(label: &str) -> (r: Extra)
    ensures
        r == (if text::begins(label@, "←"@) {
            Extra::Back
        } else if text::holds(label@, "HuggingFace"@) {
            Extra::Models
        } else if text::holds(label@, "Repo 版本"@) {
            Extra::Releases
        } else if text::holds(label@, "技術文件"@) {
            Extra::Docs
        } else {
            Extra::Cncf
        }),
{
    if text::starts_with(label, "←") {
        Extra::Back
    } else if text::contains(label, "HuggingFace") {
        Extra::Models
    } else if text::contains(label, "Repo 版本") {
        Extra::Releases
    } else if text::contains(label, "技術文件") {
        Extra::Docs
    } else {
        Extra::Cncf
    }
}

/// How the address of a page was entered.
#[derive(Debug)]
pub enum PageInput {
    /// Nothing was entered.
    Leave,
    /// It is no address of the web.
    Refused,
    /// An address.
    Page(String),
}

/// Reads the address of a page.
pub fn enter_page(input: &str) -> (r: PageInput)
    ensures
        ({
            let t = text::trimmed(input@);
            let web = text::begins(t, "http://"@) || text::begins(t, "https://"@);
            &&& r is Leave == (t.len() == 0)
            &&& r is Refused == (t.len() > 0 && !web)
            &&& r matches PageInput::Page(u) ==> u@ == t
        }),
{
    let t = text::trim(input);
    if text::is_empty(&t) {
        PageInput::Leave
    } else if !text::starts_with(&t, "http://") && !text::starts_with(&t, "https://") {
        PageInput::Refused
    } else {
        PageInput::Page(t)
    }
}

// ── Items of a radar ───────────────────────────────────────────────────────────

/// An item of a radar as it can be chosen.
pub open spec fn blip_line(b: Tech) -> Seq<char> {
    "#"@ + number::decimal(b.number as nat) + " "@ + (if b.is_open_source {
        "▲"@
    } else {
        "●"@
    }) + " "@ + b.name + " ("@ + b.ring + ")"@
}

/// The least index at or after `i` of an item with a greater number, or the length.
pub open spec fn number_place(s: Seq<Tech>, n: usize, i: int) -> int
    decreases s.len() - i,
{
    if i >= s.len() {
        s.len() as int
    } else if n < s[i].number {
        i
    } else {
        number_place(s, n, i + 1)
    }
}

/// The items ordered by their numbers; items with one number keep their order.
pub open spec fn by_number(items: Seq<Tech>) -> Seq<Tech>
    decreases items.len(),
{
    if items.len() == 0 {
        items
    } else {
        let r = by_number(items.drop_last());
        r.insert(number_place(r, items.last().number, 0), items.last())
    }
}

/// An item of a radar as it can be chosen.
fn make_blip_line(b: &Blip) -> (r: String)
    ensures
        r@ == blip_line(b@),
{
    let icon = if b.is_open_source {
        "▲"
    } else {
        "●"
    };
    let mut r = text::concat6("#", &number::usize_text(b.number), " ", icon, " ", &b.name);
    r.append(" (");
    r.append(&b.ring);
    r.append(")");
    r
}

/// The items of a radar as they can be chosen, by their numbers.
pub fn blip_choices(blips: &Vec<Blip>) -> (r: Vec<String>)
    ensures
        text::views(r@) == by_number(lists::views(blips@)).map_values(|b: Tech| blip_line(b)),
{
    let ghost all = lists::views(blips@);
    let ghost f = |b: Tech| blip_line(b);
    let mut numbers: Vec<usize> = Vec::new();
    let mut r: Vec<String> = Vec::new();
    let mut i: usize = 0;
    assert(text::views(r@) =~= by_number(all.take(0)).map_values(f));
    while i < blips.len()
        invariant
            i <= blips@.len(),
            all == lists::views(blips@),
            f == (|b: Tech| blip_line(b)),
            numbers@.len() == i,
            by_number(all.take(i as int)).len() == i,
            forall|k: int|
                0 <= k < i ==> #[trigger] numbers@[k] == by_number(all.take(i as int))[k].number,
            text::views(r@) == by_number(all.take(i as int)).map_values(f),
        decreases blips.len() - i,
    {
        let ghost s = by_number(all.take(i as int));
        let n = blips[i].number;
        let mut k: usize = 0;
        while k < numbers.len() && !(n < numbers[k])
            invariant
                k <= numbers@.len(),
                numbers@.len() == s.len(),
                forall|k: int| 0 <= k < s.len() ==> #[trigger] numbers@[k] == s[k].number,
                number_place(s, n, 0) == number_place(s, n, k as int),
            decreases numbers.len() - k,
        {
            assert(numbers@[k as int] == s[k as int].number);
            k += 1;
        }
        proof {
            if k < s.len() {
                assert(numbers@[k as int] == s[k as int].number);
            }
            assert(all.take(i + 1).drop_last() =~= all.take(i as int));
            assert(all.take(i + 1).last() == blips@[i as int]@);
            assert(text::views(r@).len() == r@.len());
        }
        let ghost t = s.insert(k as int, blips@[i as int]@);
        let line = make_blip_line(&blips[i]);
        let ghost rb = r@;
        let ghost nb = numbers@;
        r.insert(k, line);
        numbers.insert(k, n);
        proof {
            assert(by_number(all.take(i + 1)) == t);
            assert(text::views(r@) =~= text::views(rb).insert(k as int, line@));
            assert(t.map_values(f) =~= s.map_values(f).insert(k as int, line@));
            assert forall|j: int| 0 <= j < i + 1 implies #[trigger] numbers@[j] == t[j].number by {
                if j < k {
                    assert(numbers@[j] == nb[j]);
                } else if j > k {
                    assert(numbers@[j] == nb[j - 1]);
                }
            }
        }
        i += 1;
    }
    proof {
        lists::take_all(all);
    }
    r
}

/// The number in the choice of an item; `None` where there is none.
pub open spec fn number_in(sel: Seq<char>) -> Option<nat> {
    match text::after_prefix(sel, "#"@) {
        Some(s) => if text::words(s).len() > 0 {
            number::parsed_within(text::words(s)[0], usize::MAX as nat)
        } else {
            None
        },
        None => None,
    }
}

/// The number in the choice of an item.
pub fn chosen_number(sel: &str) -> (r: Option<usize>)
    ensures
        match r {
            Some(n) => number_in(sel@) == Some(n as nat),
            None => number_in(sel@) is None,
        },
{
    match text::strip_prefix(sel, "#") {
        Some(s) => {
            let words = text::split_whitespace(&s);
            assert(text::views(words@).len() == words@.len());
            if words.len() > 0 {
                assert(text::views(words@)[0] == words@[0]@);
                number::parse_usize(&words[0])
            } else {
                None
            }
        },
        None => None,
    }
}

/// The index of the first item with a number, if there is one.
pub fn find_number(blips: &Vec<Blip>, n: usize) -> (r: Option<usize>)
    ensures
        match r {
            Some(i) => i < blips@.len() && blips@[i as int].number == n && forall|j: int|
                0 <= j < i ==> (#[trigger] blips@[j]).number != n,
            None => forall|j: int| 0 <= j < blips@.len() ==> (#[trigger] blips@[j]).number != n,
        },
{
    let mut i: usize = 0;
    while i < blips.len()
        invariant
            i <= blips@.len(),
            forall|j: int| 0 <= j < i ==> (#[trigger] blips@[j]).number != n,
        decreases blips.len() - i,
    {
        if blips[i].number == n {
            return Some(i);
        }
        i += 1;
    }
    None
}

// ── Laws ─────────────────────────────────────────────────────────────────────

/// The number in the line of an item is the item's, so that choosing a line finds the item by it.
pub proof fn listed_items_are_found_by_number(b: Tech)
    ensures
        number_in(blip_line(b)) == Some(b.number as nat),
        text::holds(blip_line(b), b.name),
        text::holds(blip_line(b), b.ring),
{
    broadcast use {text::holds_in_front, text::holds_at_end};

    let d = number::decimal(b.number as nat);
    let line = blip_line(b);
    let icon = if b.is_open_source {
        "▲"@
    } else {
        "●"@
    };
    assert("#"@.len() == 1) by {
        reveal_strlit("#");
    }
    assert(" "@.len() == 1 && " "@[0] == ' ') by {
        reveal_strlit(" ");
    }
    let rest = " "@ + icon + " "@ + b.name + " ("@ + b.ring + ")"@;
    assert(line =~= "#"@ + (d + rest));
    assert(line.subrange(0, 1) =~= "#"@);
    assert(line.skip(1) =~= d + rest);
    number::decimal_is_digits(b.number as nat);
    assert forall|i: int| 0 <= i < d.len() implies !text::is_space(#[trigger] d[i]) by {
        assert(number::is_digit(d[i]));
    }
    assert(rest[0] == ' ');
    text::first_word(d, rest);
    number::bounded_numbers_are_read(b.number as nat, usize::MAX as nat, d);
    assert(text::holds(line, b.name) && text::holds(line, b.ring));
}

/// The choices hold every item once, and none stands behind one with a greater number.
pub proof fn choices_go_by_number(items: Seq<Tech>)
    ensures
        by_number(items).to_multiset() == items.to_multiset(),
        by_number(items).len() == items.len(),
        forall|i: int, j: int|
            0 <= i < j < items.len() ==> (#[trigger] by_number(items)[i]).number
                <= (#[trigger] by_number(items)[j]).number,
    decreases items.len(),
{
    if items.len() > 0 {
        let a = items.drop_last();
        let b = items.last();
        choices_go_by_number(a);
        let r = by_number(a);
        lemma_number_place(r, b.number, 0);
        let p = number_place(r, b.number, 0);
        let t = by_number(items);
        assert(t == r.insert(p, b));
        vstd::seq_lib::to_multiset_insert(r, p, b);
        a.to_multiset_ensures();
        assert(a.push(b) =~= items);
        assert forall|i: int, j: int| 0 <= i < j < items.len() implies (#[trigger] t[i]).number
            <= (#[trigger] t[j]).number by {
            if i == p {
                assert(t[j] == r[j - 1]);
                assert(b.number < r[p].number);
                assert(p == j - 1 || r[p].number <= r[j - 1].number);
            } else if j == p {
                assert(t[i] == r[i]);
            } else {
                let x = if i < p { i } else { i - 1 };
                let y = if j < p { j } else { j - 1 };
                assert(t[i] == r[x] && t[j] == r[y]);
            }
        }
    }
}

/// What is found is the least index of an item with a greater number.
proof fn lemma_number_place(s: Seq<Tech>, n: usize, i: int)
    requires
        0 <= i <= s.len(),
    ensures
        i <= number_place(s, n, i) <= s.len(),
        forall|j: int| i <= j < number_place(s, n, i) ==> (#[trigger] s[j]).number <= n,
        number_place(s, n, i) < s.len() ==> n < s[number_place(s, n, i)].number,
    decreases s.len() - i,
{
    if i < s.len() && !(n < s[i].number) {
        lemma_number_place(s, n, i + 1);
    }
}

} // verus!
