//! Models of Hugging Face.
use vstd::prelude::*;
use crate::fetcher::tech;
use crate::lists;
use crate::number;
use crate::order;
use crate::text;
use crate::time;
use crate::time::Timestamp;

verus! {

/// A model.
#[derive(Debug, Clone)]
pub struct HFModel {
    pub model_id: String,
    pub downloads: u64,
    pub likes: u64,
    pub pipeline_tag: String,
    pub tags: Vec<String>,
    pub last_modified: Option<Timestamp>,
    pub url: String,
}

/// A model, by its texts.
pub struct Model {
    pub model_id: Seq<char>,
    pub downloads: u64,
    pub likes: u64,
    pub pipeline_tag: Seq<char>,
    pub tags: Seq<Seq<char>>,
    pub last_modified: Option<Timestamp>,
    pub url: Seq<char>,
}

impl View for HFModel {
    type V = Model;

    open spec fn view(&self) -> Model {
        Model {
            model_id: self.model_id@,
            downloads: self.downloads,
            likes: self.likes,
            pipeline_tag: self.pipeline_tag@,
            tags: text::views(self.tags@),
            last_modified: self.last_modified,
            url: self.url@,
        }
    }
}

/// A model as the reply tells it.
pub struct HFApiModel {
    pub id: String,
    pub downloads: u64,
    pub likes: u64,
    pub pipeline_tag: Option<String>,
    pub tags: Vec<String>,
    pub last_modified: Option<String>,
}

/// The orders in which models are listed.
#[derive(Debug, Clone, Copy, PartialEq, Eq, Structural)]
pub enum HFSort {
    Trending,
    Downloads,
    Likes,
}

impl HFSort {
    /// The name of an order in an address.
    pub open spec fn param(&self) -> Seq<char> {
        match self {
            HFSort::Trending => "trendingScore"@,
            HFSort::Downloads => "downloads"@,
            HFSort::Likes => "likes"@,
        }
    }

    /// The name of an order in an address.
    pub fn as_param(&self) -> (r: &'static str)
        ensures
            r@ == self.param(),
    {
        match self {
            HFSort::Trending => "trendingScore",
            HFSort::Downloads => "downloads",
            HFSort::Likes => "likes",
        }
    }
}

/// Tags that say nothing worth showing.
pub const BOILERPLATE_TAGS: [&'static str; 12] = [
    "transformers",
    "pytorch",
    "safetensors",
    "gguf",
    "ggml",
    "endpoints_compatible",
    "has_space",
    "text-generation-inference",
    "autotrain_compatible",
    "diffusers",
    "jax",
    "tf",
];

/// The address of a list of models.
pub fn models_url(sort: HFSort, limit: usize) -> (r: String)
    ensures
        r@ == "https://huggingface.co/api/models?sort="@ + sort.param() + "&direction=-1&limit="@
            + number::decimal(limit as nat),
{
    text::concat4(
        "https://huggingface.co/api/models?sort=",
        sort.as_param(),
        "&direction=-1&limit=",
        &number::usize_text(limit),
    )
}

/// Whether a tag is worth showing: none of a license, a paper or a region, not boilerplate, and
/// less than 40 bytes long.
pub open spec fn tells_something(t: Seq<char>) -> bool {
    &&& !text::begins(t, "license:"@)
    &&& !text::begins(t, "arxiv:"@)
    &&& !text::begins(t, "region:"@)
    &&& !text::str_views(BOILERPLATE_TAGS@).contains(t)
    &&& text::byte_count(t) < 40
}

/// Whether a tag is worth showing.
pub fn is_informative(t: &str) -> (r: bool)
    ensures
        r == tells_something(t@),
{
    !text::starts_with(t, "license:") && !text::starts_with(t, "arxiv:") && !text::starts_with(
        t,
        "region:",
    ) && !text::is_one_of(t, &BOILERPLATE_TAGS) && text::byte_len(t) < 40
}

/// The first six tags that are worth showing.
pub open spec fn shown_tags(tags: Seq<Seq<char>>) -> Seq<Seq<char>> {
    order::cut(tags.filter(|t: Seq<char>| tells_something(t)), 6)
}

/// The first six tags that are worth showing.
pub fn pick_tags(tags: &Vec<String>) -> (r: Vec<String>)
    ensures
        text::views(r@) == shown_tags(text::views(tags@)),
{
    let ghost all = text::views(tags@);
    let ghost p = |t: Seq<char>| tells_something(t);
    let mut r: Vec<String> = Vec::new();
    let mut i: usize = 0;
    while i < tags.len()
        invariant
            i <= tags@.len(),
            all == text::views(tags@),
            p == (|t: Seq<char>| tells_something(t)),
            text::views(r@) == all.take(i as int).filter(p),
        decreases tags.len() - i,
    {
        broadcast use text::views_push;

        proof {
            lists::take_next(all, i as int);
            all.take(i as int).lemma_filter_push(all[i as int], p);
        }
        if is_informative(&tags[i]) {
            r.push(tags[i].clone());
        }
        i += 1;
    }
    proof {
        lists::take_all(all);
    }
    let ghost found = r@;
    r.truncate(6);
    assert(text::views(r@) =~= order::cut(text::views(found), 6));
    r
}

/// A model as it is shown.
pub open spec fn model_of(m: HFApiModel) -> Model {
    Model {
        model_id: m.id@,
        downloads: m.downloads,
        likes: m.likes,
        pipeline_tag: tech::text_or(m.pipeline_tag, "unknown"@),
        tags: shown_tags(text::views(m.tags@)),
        last_modified: match m.last_modified {
            Some(d) => time::utc_time(d@),
            None => None,
        },
        url: "https://huggingface.co/"@ + m.id@,
    }
}

/// A model as it is shown.
pub fn to_model(m: HFApiModel) -> (r: HFModel)
    ensures
        r@ == model_of(m),
        r.model_id@ == m.id@,
        r.downloads == m.downloads,
        r.likes == m.likes,
{
    let last_modified = match &m.last_modified {
        Some(d) => time::parse_utc(d),
        None => None,
    };
    let pipeline_tag = tech::or_text(&m.pipeline_tag, "unknown");
    let tags = pick_tags(&m.tags);
    let url = text::concat2("https://huggingface.co/", &m.id);
    HFModel {
        model_id: m.id,
        downloads: m.downloads,
        likes: m.likes,
        pipeline_tag,
        tags,
        last_modified,
        url,
    }
}

/// The models of a reply.
pub fn to_models(raw: Vec<HFApiModel>) -> (r: Vec<HFModel>)
    ensures
        lists::views(r@) == raw@.map_values(|m: HFApiModel| model_of(m)),
        r@.len() == raw@.len(),
        forall|i: int|
            0 <= i < raw@.len() ==> (#[trigger] r@[i]).model_id@ == raw@[i].id@ && r@[i].downloads
                == raw@[i].downloads && r@[i].likes == raw@[i].likes,
{
    let ghost all = raw@;
    let ghost f = |m: HFApiModel| model_of(m);
    let mut r: Vec<HFModel> = Vec::new();
    assert(lists::views(r@) =~= all.take(0).map_values(f));
    for x in it: raw
        invariant
            it.seq() == all,
            f == (|m: HFApiModel| model_of(m)),
            lists::views(r@) == all.take(it.index() as int).map_values(f),
    {
        broadcast use lists::views_push;

        proof {
            let i = it.index() as int;
            assert(all.take(i + 1).map_values(f) =~= all.take(i).map_values(f).push(f(x)));
        }
        r.push(to_model(x));
    }
    proof {
        lists::take_all(all);
        assert(lists::views(r@).len() == r@.len());
        assert forall|i: int| 0 <= i < all.len() implies (#[trigger] r@[i]).model_id@ == all[i].id@
            && r@[i].downloads == all[i].downloads && r@[i].likes == all[i].likes by {
            assert(lists::views(r@)[i] == f(all[i]));
        }
    }
    r
}

/// The unit in which a number is written, and its letter; small numbers have none.
pub open spec fn unit_for(n: u64) -> Option<(u64, char)> {
    if n >= 1_000_000_000 {
        Some((1_000_000_000, 'B'))
    } else if n >= 1_000_000 {
        Some((1_000_000, 'M'))
    } else if n >= 1_000 {
        Some((1_000, 'K'))
    } else {
        None
    }
}

/// The unit in which a number is written, and its letter.
pub fn number_unit(n: u64) -> (r: Option<(u64, char)>)
    ensures
        r == unit_for(n),
{
    if n >= 1_000_000_000 {
        Some((1_000_000_000, 'B'))
    } else if n >= 1_000_000 {
        Some((1_000_000, 'M'))
    } else if n >= 1_000 {
        Some((1_000, 'K'))
    } else {
        None
    }
}

// ── Laws ─────────────────────────────────────────────────────────────────────

/// A model is shown with the counts, the name and the task that the reply tells, and its address
/// ends with its name.
pub proof fn models_are_told_as_they_are(m: HFApiModel)
    ensures
        model_of(m).downloads == m.downloads,
        model_of(m).likes == m.likes,
        model_of(m).model_id == m.id@,
        m.pipeline_tag matches Some(t) ==> model_of(m).pipeline_tag == t@,
        m.pipeline_tag is None ==> model_of(m).pipeline_tag == "unknown"@,
        m.last_modified matches Some(d) ==> model_of(m).last_modified == time::utc_time(d@),
        m.last_modified is None ==> model_of(m).last_modified is None,
        text::ends(model_of(m).url, m.id@),
        text::begins(model_of(m).url, "https://huggingface.co/"@),
{
    let u = model_of(m).url;
    let front = "https://huggingface.co/"@;
    assert(u.subrange(0, front.len() as int) =~= front);
    assert(u.subrange(u.len() - m.id@.len(), u.len() as int) =~= m.id@);
}

/// The tags that are shown are tags of the model in their order, at most six; none is of a license,
/// a paper or a region, none is boilerplate and none has 40 bytes or more, and where no more than
/// six such tags are there all of them are shown.
pub proof fn telling_tags_are_shown(tags: Seq<Seq<char>>, t: Seq<char>)
    ensures
        shown_tags(tags).len() <= 6,
        shown_tags(tags).contains(t) ==> tags.contains(t) && !text::begins(t, "license:"@)
            && !text::begins(t, "arxiv:"@) && !text::begins(t, "region:"@) && !text::str_views(
            BOILERPLATE_TAGS@,
        ).contains(t) && text::byte_count(t) < 40,
        tags.len() <= 6 && tags.contains(t) && !text::begins(t, "license:"@) && !text::begins(
            t,
            "arxiv:"@,
        ) && !text::begins(t, "region:"@) && !text::str_views(BOILERPLATE_TAGS@).contains(t)
            && text::byte_count(t) < 40 ==> shown_tags(tags).contains(t),
        (forall|i: int| 0 <= i < tags.len() ==> tells_something(#[trigger] tags[i])) ==> shown_tags(
            tags,
        ) == order::cut(tags, 6),
{
    let p = |t: Seq<char>| tells_something(t);
    let f = tags.filter(p);
    broadcast use vstd::seq_lib::group_filter_ensures;

    if shown_tags(tags).contains(t) {
        let i = choose|i: int| 0 <= i < shown_tags(tags).len() && shown_tags(tags)[i] == t;
        assert(f[i] == t);
        assert(f.contains(t));
        tags.lemma_filter_contains_rev(p, t);
        assert(p(f[i]));
    }
    if tags.len() <= 6 {
        assert(f.len() <= tags.len());
        assert(shown_tags(tags) == f);
        if tags.contains(t) && p(t) {
            let i = choose|i: int| 0 <= i < tags.len() && tags[i] == t;
            assert(f.contains(tags[i]));
        }
    }
    if forall|i: int| 0 <= i < tags.len() ==> tells_something(#[trigger] tags[i]) {
        assert forall|i: int| 0 <= i < tags.len() implies p(#[trigger] tags[i]) by {
            assert(tells_something(tags[i]));
        }
        lists::filter_of_all(tags, p);
    }
}

/// A number is written in the greatest unit that it reaches, so that fewer than a thousand of all
/// units but the greatest stand before its letter; a number without a unit is below a thousand.
pub proof fn units_fit_numbers(n: u64)
    ensures
        unit_for(n) matches Some(u) ==> 0 < u.0 <= n && (u.1 != 'B' ==> n / u.0 < 1000),
        unit_for(n) is None ==> n < 1000,
        unit_for(n) matches Some(u) ==> (u.1 == 'K' && u.0 == 1_000) || (u.1 == 'M' && u.0
            == 1_000_000) || (u.1 == 'B' && u.0 == 1_000_000_000),
{
}

/// The three orders have different names in an address: by trend, by downloads and by likes.
pub proof fn orders_are_named(a: HFSort, b: HFSort)
    ensures
        a.param() == b.param() ==> a == b,
        HFSort::Downloads.param() == "downloads"@,
        HFSort::Likes.param() == "likes"@,
{
    reveal_strlit("trendingScore");
    reveal_strlit("downloads");
    reveal_strlit("likes");
    assert("trendingScore"@.len() == 13 && "downloads"@.len() == 9 && "likes"@.len() == 5);
}

/// The tags that are boilerplate.
pub proof fn boilerplate_tags_are_these(t: Seq<char>)
    ensures
        text::str_views(BOILERPLATE_TAGS@).contains(t) <==> t == "transformers"@ || t == "pytorch"@
            || t == "safetensors"@ || t == "gguf"@ || t == "ggml"@ || t == "endpoints_compatible"@
            || t == "has_space"@ || t == "text-generation-inference"@ || t == "autotrain_compatible"@
            || t == "diffusers"@ || t == "jax"@ || t == "tf"@,
{
    let v = text::str_views(BOILERPLATE_TAGS@);
    assert(v[0] == "transformers"@ && v[1] == "pytorch"@ && v[2] == "safetensors"@ && v[3]
        == "gguf"@ && v[4] == "ggml"@ && v[5] == "endpoints_compatible"@ && v[6] == "has_space"@
        && v[7] == "text-generation-inference"@ && v[8] == "autotrain_compatible"@ && v[9]
        == "diffusers"@ && v[10] == "jax"@ && v[11] == "tf"@);
    if v.contains(t) {
        let i = choose|i: int| 0 <= i < v.len() && v[i] == t;
        assert(i == 0 || i == 1 || i == 2 || i == 3 || i == 4 || i == 5 || i == 6 || i == 7 || i == 8
            || i == 9 || i == 10 || i == 11);
    }
}

} // verus!
