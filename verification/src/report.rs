//! What is shown of what was found.
use vstd::prelude::*;
use crate::cache::DisplayItem;
use crate::fetcher::arxiv::ArxivPaper;
use crate::fetcher::cncf::CNCFProject;
use crate::fetcher::docs::DocPage;
use crate::fetcher::huggingface::HFModel;
use crate::fetcher::podcast::PodcastEpisode;
use crate::fetcher::release::ReleaseItem;
use crate::fetcher::tech;
use crate::fetcher::NewsItem;
use crate::lists;
use crate::number;
use crate::text;
use crate::text::same;
use crate::time;

verus! {

// ── Numbers ────────────────────────────────────────────────────────────────────

/// Digits with a comma before each group of three from the right.
pub open spec fn grouped(digits: Seq<char>) -> Seq<char>
    decreases digits.len(),
{
    if digits.len() <= 3 {
        digits
    } else {
        let n = digits.len() - 3;
        grouped(digits.take(n)) + ","@ + digits.skip(n)
    }
}

/// A number with a comma before each group of three digits.
pub fn fmt_tokens(n: u64) -> (r: String)
    ensures
        r@ == grouped(number::decimal(n as nat)),
{
    let v = text::chars_of(&number::u64_text(n));
    proof {
        lists::take_all(v@);
    }
    group_digits(&v, v.len())
}

/// The first digits of a number with a comma before each group of three.
fn group_digits(v: &Vec<char>, n: usize) -> (r: String)
    requires
        n <= v@.len(),
    ensures
        r@ == grouped(v@.take(n as int)),
    decreases n,
{
    let ghost all = v@.take(n as int);
    if n <= 3 {
        let r = text::string_of(v, 0, n);
        assert(r@ =~= all);
        r
    } else {
        let front = group_digits(v, n - 3);
        let back = text::string_of(v, n - 3, n);
        assert(all.take(n - 3) =~= v@.take(n - 3));
        assert(all.skip(n - 3) =~= back@);
        text::concat3(&front, ",", &back)
    }
}

/// The digits are all there between the commas.
pub proof fn grouping_keeps_the_digits(digits: Seq<char>)
    requires
        !digits.contains(','),
    ensures
        grouped(digits).filter(|c: char| c != ',') == digits,
    decreases digits.len(),
{
    let p = |c: char| c != ',';
    if digits.len() <= 3 {
        lemma_no_comma(digits);
    } else {
        let n = digits.len() - 3;
        let a = digits.take(n);
        let b = digits.skip(n);
        assert(!a.contains(',')) by {
            if a.contains(',') {
                let j = choose|j: int| 0 <= j < a.len() && a[j] == ',';
                assert(digits[j] == ',');
            }
        }
        assert(!b.contains(',')) by {
            if b.contains(',') {
                let j = choose|j: int| 0 <= j < b.len() && b[j] == ',';
                assert(digits[j + n] == ',');
            }
        }
        grouping_keeps_the_digits(a);
        lemma_no_comma(b);
        reveal_strlit(",");
        assert(","@ =~= Seq::<char>::empty().push(','));
        assert(","@.filter(p) =~= Seq::empty()) by {
            reveal(Seq::filter);
            Seq::<char>::empty().lemma_filter_push(',', p);
        }
        Seq::filter_distributes_over_add(grouped(a) + ","@, b, p);
        Seq::filter_distributes_over_add(grouped(a), ","@, p);
        assert(a + b =~= digits);
        assert(a + Seq::<char>::empty() + b =~= digits);
    }
}

/// Leaving commas out of a text without commas leaves it as it is.
proof fn lemma_no_comma(s: Seq<char>)
    requires
        !s.contains(','),
    ensures
        s.filter(|c: char| c != ',') == s,
    decreases s.len(),
{
    reveal(Seq::filter);
    if s.len() > 0 {
        let a = s.drop_last();
        assert(!a.contains(',')) by {
            if a.contains(',') {
                let j = choose|j: int| 0 <= j < a.len() && a[j] == ',';
                assert(s[j] == ',');
            }
        }
        lemma_no_comma(a);
        assert(s[s.len() - 1] != ',');
        assert(a.push(s.last()) =~= s);
    }
}

/// Whether the price of a model is a guess.
pub fn is_estimate(model: &str) -> (r: bool)
    ensures
        r == (text::holds(model@, "gpt-5"@) || text::holds(model@, "o1"@)),
{
    text::contains(model, "gpt-5") || text::contains(model, "o1")
}

/// Whether there is anything to say of the tokens that were used.
pub fn shows_usage(prompt: u64, completion: u64) -> (r: bool)
    ensures
        r == (prompt + completion != 0),
{
    prompt != 0 || completion != 0
}

/// How many minutes are left of seconds.
pub fn minutes_left(secs: u64) -> (r: u64)
    ensures
        r == secs / 60,
{
    secs / 60
}

// ── Cards ──────────────────────────────────────────────────────────────────────

/// What stands for a day that is not known.
pub const UNKNOWN: &'static str = "未知";

/// The title of a card: its place, counted from one, and the title of what it shows.
pub open spec fn place_title(i: nat, title: Seq<char>) -> Seq<char> {
    "["@ + number::decimal(i + 1) + "] "@ + title
}

/// The title of a card.
pub fn card_title(i: usize, title: &str) -> (r: String)
    requires
        i < usize::MAX,
    ensures
        r@ == place_title(i as nat, title@),
{
    text::concat4("[", &number::usize_text(i + 1), "] ", title)
}

/// Whether a card shows a title, a content, an address and a colour.
pub open spec fn shows(
    d: DisplayItem,
    title: Seq<char>,
    content: Seq<char>,
    url: Seq<char>,
    color: Seq<char>,
) -> bool {
    d.title@ == title && d.content@ == content && d.url@ == url && d.color@ == color
}

/// The colour of a source.
pub open spec fn source_color(source: Seq<char>) -> Seq<char> {
    if source == "InfoQ"@ {
        "blue"@
    } else if source == "iThome"@ {
        "magenta"@
    } else if source == "Medium"@ {
        "green"@
    } else {
        "cyan"@
    }
}

/// The card of news.
pub fn news_card(i: usize, item: &NewsItem, summary: &str) -> (r: DisplayItem)
    requires
        i < usize::MAX,
    ensures
        shows(
            r,
            place_title(i as nat, item.title@),
            "來源: "@ + item.source@ + " | 日期: "@ + time::date_or(item.published, UNKNOWN@)
                + "\n\n"@ + summary@,
            item.url@,
            source_color(item.source@),
        ),
        r.url@ == item.url@,
        text::ends(r.title@, item.title@),
        text::ends(r.content@, summary@),
        text::holds(r.content@, item.source@),
        text::holds(r.content@, time::date_or(item.published, UNKNOWN@)),
{
    broadcast use {text::holds_in_front, text::holds_at_end, ends_with_itself};

    let color = if same(&item.source, "InfoQ") {
        "blue"
    } else if same(&item.source, "iThome") {
        "magenta"
    } else if same(&item.source, "Medium") {
        "green"
    } else {
        "cyan"
    };
    DisplayItem {
        title: card_title(i, &item.title),
        content: text::concat6(
            "來源: ",
            &item.source,
            " | 日期: ",
            &time::format_date_or(item.published, UNKNOWN),
            "\n\n",
            summary,
        ),
        url: item.url.clone(),
        color: color.to_owned(),
    }
}

/// The card of a project; `emerging` says whether the day is that of its creation.
pub fn github_card(i: usize, item: &NewsItem, summary: &str, emerging: bool) -> (r: DisplayItem)
    requires
        i < usize::MAX,
    ensures
        shows(
            r,
            place_title(i as nat, item.title@),
            "來源: GitHub | "@ + (if emerging {
                "建立日期"@
            } else {
                "最後推送"@
            }) + ": "@ + time::date_or(item.published, UNKNOWN@) + "\n\n"@ + summary@,
            item.url@,
            "green"@,
        ),
        r.url@ == item.url@,
        text::ends(r.title@, item.title@),
        text::ends(r.content@, summary@),
        text::holds(r.content@, time::date_or(item.published, UNKNOWN@)),
{
    broadcast use {text::holds_in_front, text::holds_at_end, ends_with_itself};

    let label = if emerging {
        "建立日期"
    } else {
        "最後推送"
    };
    DisplayItem {
        title: card_title(i, &item.title),
        content: text::concat6(
            "來源: GitHub | ",
            label,
            ": ",
            &time::format_date_or(item.published, UNKNOWN),
            "\n\n",
            summary,
        ),
        url: item.url.clone(),
        color: "green".to_owned(),
    }
}

/// The card of a project below a node of a graph.
pub fn node_repo_card(i: usize, item: &NewsItem, summary: &str) -> (r: DisplayItem)
    requires
        i < usize::MAX,
    ensures
        shows(
            r,
            place_title(i as nat, item.title@),
            "最後推送: "@ + time::date_or(item.published, UNKNOWN@) + "\n\n"@ + summary@,
            item.url@,
            "green"@,
        ),
        r.url@ == item.url@,
        text::ends(r.title@, item.title@),
        text::ends(r.content@, summary@),
        text::holds(r.content@, time::date_or(item.published, UNKNOWN@)),
{
    broadcast use {text::holds_in_front, text::holds_at_end, ends_with_itself};

    DisplayItem {
        title: card_title(i, &item.title),
        content: text::concat4(
            "最後推送: ",
            &time::format_date_or(item.published, UNKNOWN),
            "\n\n",
            summary,
        ),
        url: item.url.clone(),
        color: "green".to_owned(),
    }
}

/// The card of a paper.
pub fn paper_card(i: usize, paper: &ArxivPaper, summary: &str) -> (r: DisplayItem)
    requires
        i < usize::MAX,
    ensures
        shows(
            r,
            place_title(i as nat, paper.title@),
            "arXiv ID: "@ + paper.arxiv_id@ + " | 日期: "@ + time::date_or(
                paper.published,
                UNKNOWN@,
            ) + "\n作者: "@ + text::joined(text::views(paper.authors@), ", "@) + "\n\n"@ + summary@,
            paper.url@,
            "magenta"@,
        ),
        r.url@ == paper.url@,
        text::ends(r.title@, paper.title@),
        text::ends(r.content@, summary@),
        text::holds(r.content@, paper.arxiv_id@),
        text::holds(r.content@, time::date_or(paper.published, UNKNOWN@)),
        text::holds(r.content@, text::joined(text::views(paper.authors@), ", "@)),
{
    broadcast use {text::holds_in_front, text::holds_at_end, ends_with_itself};

    let mut content = text::concat6(
        "arXiv ID: ",
        &paper.arxiv_id,
        " | 日期: ",
        &time::format_date_or(paper.published, UNKNOWN),
        "\n作者: ",
        &text::join(&paper.authors, ", "),
    );
    content.append("\n\n");
    content.append(summary);
    DisplayItem {
        title: card_title(i, &paper.title),
        content,
        url: paper.url.clone(),
        color: "magenta".to_owned(),
    }
}

/// The card of an episode.
pub fn episode_card(i: usize, ep: &PodcastEpisode, summary: &str) -> (r: DisplayItem)
    requires
        i < usize::MAX,
    ensures
        shows(
            r,
            place_title(i as nat, ep.title@),
            "播客: "@ + ep.podcast_name@ + " | 日期: "@ + time::date_or(ep.published, UNKNOWN@)
                + " | 時長: "@ + ep.duration@ + "\n\n"@ + summary@,
            ep.url@,
            "blue"@,
        ),
        r.url@ == ep.url@,
        text::ends(r.title@, ep.title@),
        text::ends(r.content@, summary@),
        text::holds(r.content@, ep.podcast_name@),
        text::holds(r.content@, ep.duration@),
        text::holds(r.content@, time::date_or(ep.published, UNKNOWN@)),
{
    broadcast use {text::holds_in_front, text::holds_at_end, ends_with_itself};

    let mut content = text::concat6(
        "播客: ",
        &ep.podcast_name,
        " | 日期: ",
        &time::format_date_or(ep.published, UNKNOWN),
        " | 時長: ",
        &ep.duration,
    );
    content.append("\n\n");
    content.append(summary);
    DisplayItem {
        title: card_title(i, &ep.title),
        content,
        url: ep.url.clone(),
        color: "blue".to_owned(),
    }
}

/// How many podcasts are searched.
pub fn podcasts_wanted(max_results: usize) -> (r: usize)
    ensures
        r == (if max_results / 2 < 3 {
            3
        } else {
            max_results / 2
        }),
{
    if max_results / 2 < 3 {
        3
    } else {
        max_results / 2
    }
}

/// The card of a model; the numbers of downloads and likes are given as texts.
pub fn model_card(i: usize, model: &HFModel, downloads: &str, likes: &str, summary: &str) -> (r:
    DisplayItem)
    requires
        i < usize::MAX,
    ensures
        shows(
            r,
            place_title(i as nat, model.model_id@),
            "任務: "@ + model.pipeline_tag@ + " | 更新: "@ + time::date_or(
                model.last_modified,
                UNKNOWN@,
            ) + "\n⬇ "@ + downloads@ + " 下載  ❤ "@ + likes@ + " 收藏\n\n"@ + summary@,
            model.url@,
            "cyan"@,
        ),
        r.url@ == model.url@,
        text::ends(r.title@, model.model_id@),
        text::ends(r.content@, summary@),
        text::holds(r.content@, model.pipeline_tag@),
{
    broadcast use {text::holds_in_front, text::holds_at_end, ends_with_itself};

    let mut content = text::concat6(
        "任務: ",
        &model.pipeline_tag,
        " | 更新: ",
        &time::format_date_or(model.last_modified, UNKNOWN),
        "\n⬇ ",
        downloads,
    );
    content.append(" 下載  ❤ ");
    content.append(likes);
    content.append(" 收藏\n\n");
    content.append(summary);
    DisplayItem {
        title: card_title(i, &model.model_id),
        content,
        url: model.url.clone(),
        color: "cyan".to_owned(),
    }
}

/// The mark of a maturity.
pub open spec fn maturity_mark(maturity: Seq<char>) -> Seq<char> {
    if maturity == "graduated"@ {
        "🎓"@
    } else if maturity == "incubating"@ {
        "🌱"@
    } else if maturity.len() == 0 {
        "☁"@
    } else {
        "🔬"@
    }
}

/// The mark of a maturity.
fn maturity_icon(maturity: &str) -> (r: &'static str)
    ensures
        r@ == maturity_mark(maturity@),
{
    if same(maturity, "graduated") {
        "🎓"
    } else if same(maturity, "incubating") {
        "🌱"
    } else if text::is_empty(maturity) {
        "☁"
    } else {
        "🔬"
    }
}

/// The name of a maturity.
pub open spec fn maturity_name(maturity: Seq<char>) -> Seq<char> {
    if maturity.len() == 0 {
        "cncf"@
    } else {
        maturity
    }
}

/// The colour of a maturity.
pub open spec fn maturity_color(maturity: Seq<char>) -> Seq<char> {
    if maturity == "graduated"@ {
        "cyan"@
    } else if maturity == "incubating"@ {
        "green"@
    } else {
        "yellow"@
    }
}

/// The card of a cloud native project.
pub fn cncf_card(i: usize, p: &CNCFProject, summary: &str) -> (r: DisplayItem)
    requires
        i < usize::MAX,
    ensures
        shows(
            r,
            place_title(i as nat, p.name@),
            maturity_mark(p.maturity@) + " "@ + maturity_name(p.maturity@) + " | ⭐ "@
                + number::decimal(p.stars as nat) + " stars | 語言: "@ + tech::text_or(
                p.language,
                UNKNOWN@,
            ) + "\n加入: "@ + time::date_or(p.accepted_at, "—"@) + " | 最後更新: "@
                + time::date_or(p.last_updated, UNKNOWN@) + "\n\n"@ + summary@,
            p.url@,
            maturity_color(p.maturity@),
        ),
        r.url@ == p.url@,
        text::ends(r.title@, p.name@),
        text::ends(r.content@, summary@),
        text::holds(r.content@, maturity_name(p.maturity@)),
        text::holds(r.content@, number::decimal(p.stars as nat)),
        text::holds(r.content@, time::date_or(p.last_updated, UNKNOWN@)),
{
    broadcast use {text::holds_in_front, text::holds_at_end, ends_with_itself};

    let name = if text::is_empty(&p.maturity) {
        "cncf"
    } else {
        p.maturity.as_str()
    };
    let mut content = text::concat6(
        maturity_icon(&p.maturity),
        " ",
        name,
        " | ⭐ ",
        &number::u64_text(p.stars),
        " stars | 語言: ",
    );
    content.append(&tech::or_text(&p.language, UNKNOWN));
    content.append("\n加入: ");
    content.append(&time::format_date_or(p.accepted_at, "—"));
    content.append(" | 最後更新: ");
    content.append(&time::format_date_or(p.last_updated, UNKNOWN));
    content.append("\n\n");
    content.append(summary);
    let color = if same(&p.maturity, "graduated") {
        "cyan"
    } else if same(&p.maturity, "incubating") {
        "green"
    } else {
        "yellow"
    };
    DisplayItem {
        title: card_title(i, &p.name),
        content,
        url: p.url.clone(),
        color: color.to_owned(),
    }
}

/// What a card says of a release.
pub open spec fn release_text(item: ReleaseItem, summary: Seq<char>) -> Seq<char> {
    "版本: "@ + item.tag_name@ + " | 發布: "@ + time::date_or(item.published, UNKNOWN@) + "\n\n"@
        + summary
}

/// What a card says of a release.
fn release_content(item: &ReleaseItem, summary: &str) -> (r: String)
    ensures
        r@ == release_text(*item, summary@),
{
    text::concat6(
        "版本: ",
        &item.tag_name,
        " | 發布: ",
        &time::format_date_or(item.published, UNKNOWN),
        "\n\n",
        summary,
    )
}

/// The card of a minor release.
pub fn minor_card(i: usize, item: &ReleaseItem, summary: &str) -> (r: DisplayItem)
    requires
        i < usize::MAX,
    ensures
        shows(
            r,
            "[小版本 "@ + number::decimal((i + 1) as nat) + "] "@ + item.name@,
            release_text(*item, summary@),
            item.url@,
            "cyan"@,
        ),
        r.url@ == item.url@,
        text::ends(r.title@, item.name@),
        text::ends(r.content@, summary@),
        text::holds(r.content@, item.tag_name@),
{
    broadcast use {text::holds_in_front, text::holds_at_end, ends_with_itself};

    DisplayItem {
        title: text::concat4("[小版本 ", &number::usize_text(i + 1), "] ", &item.name),
        content: release_content(item, summary),
        url: item.url.clone(),
        color: "cyan".to_owned(),
    }
}

/// The card of a major release.
pub fn major_card(item: &ReleaseItem, summary: &str) -> (r: DisplayItem)
    ensures
        shows(
            r,
            "[大版本] "@ + item.name@,
            release_text(*item, summary@),
            item.url@,
            "yellow"@,
        ),
        r.url@ == item.url@,
        text::ends(r.title@, item.name@),
        text::ends(r.content@, summary@),
        text::holds(r.content@, item.tag_name@),
{
    broadcast use {text::holds_in_front, text::holds_at_end, ends_with_itself};

    DisplayItem {
        title: text::concat2("[大版本] ", &item.name),
        content: release_content(item, summary),
        url: item.url.clone(),
        color: "yellow".to_owned(),
    }
}

/// The card of a page of documentation: its title, or its address where it has none, and a hint
/// at its links.
pub fn docs_card(page: &DocPage, summary: &str) -> (r: DisplayItem)
    ensures
        shows(
            r,
            "技術文件摘要 — "@ + (if page.title@.len() == 0 {
                page.url@
            } else {
                page.title@
            }),
            summary@ + (if page.nav_links@.len() == 0 {
                Seq::empty()
            } else {
                "\n\n站內發現 "@ + number::decimal(page.nav_links@.len()) + " 個連結"@
            }),
            page.url@,
            "cyan"@,
        ),
{
    let title = if text::is_empty(&page.title) {
        page.url.as_str()
    } else {
        page.title.as_str()
    };
    let hint = if page.nav_links.len() == 0 {
        String::new()
    } else {
        text::concat3(
            "\n\n站內發現 ",
            &number::usize_text(page.nav_links.len()),
            " 個連結",
        )
    };
    DisplayItem {
        title: text::concat2("技術文件摘要 — ", title),
        content: text::concat2(summary, &hint),
        url: page.url.clone(),
        color: "cyan".to_owned(),
    }
}

/// The number of releases that were found.
pub fn releases_found(minors: usize, has_major: bool) -> (r: String)
    ensures
        r@ == "找到 "@ + number::decimal(minors as nat) + " 個小版本、"@ + number::decimal(
            if has_major {
                1
            } else {
                0
            },
        ) + " 個大版本"@,
{
    let majors: usize = if has_major {
        1
    } else {
        0
    };
    text::concat5(
        "找到 ",
        &number::usize_text(minors),
        " 個小版本、",
        &number::usize_text(majors),
        " 個大版本",
    )
}

// ── Laws ─────────────────────────────────────────────────────────────────────

/// Digits in groups end with the last three, a comma stands before each group of three, and there
/// is none before a group of three or fewer.
pub proof fn groups_have_three_digits(digits: Seq<char>)
    ensures
        digits.len() <= 3 ==> grouped(digits) == digits,
        digits.len() > 0 ==> grouped(digits).len() == digits.len() + (digits.len() - 1) / 3,
        digits.len() > 3 ==> grouped(digits)[grouped(digits).len() - 4] == ',' && grouped(digits).skip(
            grouped(digits).len() - 3,
        ) == digits.skip(digits.len() - 3),
    decreases digits.len(),
{
    if digits.len() > 3 {
        let n = digits.len() - 3;
        groups_have_three_digits(digits.take(n));
        reveal_strlit(",");
        let g = grouped(digits);
        assert(g.skip(g.len() - 3) =~= digits.skip(n));
    }
}

/// The place of a card is counted from one and stands before the title of what it shows.
pub proof fn cards_are_counted_from_one(i: nat, title: Seq<char>)
    ensures
        text::ends(place_title(i, title), title),
        text::holds(place_title(i, title), number::decimal(i + 1)),
{
    broadcast use {text::holds_in_front, text::holds_at_end};

    let t = place_title(i, title);
    assert(t.subrange(t.len() - title.len(), t.len() as int) =~= title);
}

/// What a card says of a release names its tag and its day and ends with the summary.
pub proof fn release_cards_name_the_tag(item: ReleaseItem, summary: Seq<char>)
    ensures
        text::holds(release_text(item, summary), item.tag_name@),
        text::holds(release_text(item, summary), time::date_or(item.published, UNKNOWN@)),
        text::ends(release_text(item, summary), summary),
{
    broadcast use {text::holds_in_front, text::holds_at_end};

    let t = release_text(item, summary);
    assert(t.subrange(t.len() - summary.len(), t.len() as int) =~= summary);
}

/// The maturities have different marks and colours.
pub proof fn maturities_are_told_apart(m: Seq<char>)
    ensures
        maturity_name(m) == m || m.len() == 0,
        maturity_color("graduated"@) != maturity_color("incubating"@),
        maturity_mark("graduated"@) != maturity_mark("incubating"@),
        maturity_mark("sandbox"@) != maturity_mark("incubating"@),
        maturity_color("sandbox"@) != maturity_color("graduated"@),
{
    reveal_strlit("graduated");
    reveal_strlit("incubating");
    reveal_strlit("sandbox");
    reveal_strlit("cyan");
    reveal_strlit("green");
    reveal_strlit("yellow");
    reveal_strlit("🎓");
    reveal_strlit("🌱");
    reveal_strlit("🔬");
    assert("graduated"@.len() == 9 && "incubating"@.len() == 10 && "sandbox"@.len() == 7);
    assert("cyan"@.len() == 4 && "green"@.len() == 5 && "yellow"@.len() == 6);
    assert("🎓"@[0] != "🌱"@[0] && "🔬"@[0] != "🌱"@[0]);
}

/// A text ends with what was put behind it.
pub broadcast proof fn ends_with_itself(s: Seq<char>, t: Seq<char>)
    ensures
        #[trigger] text::ends(s + t, t),
{
    let u = s + t;
    assert(u.subrange(u.len() - t.len(), u.len() as int) =~= t);
}

} // verus!
