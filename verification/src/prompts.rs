//! What the language model is asked.
use vstd::prelude::*;
use crate::text;

verus! {

/// The bytes with which prompts are masked.
pub const MASK: [u8; 16] = [
    0x4e,
    0x6c,
    0x39,
    0x21,
    0x7f,
    0x2a,
    0x5c,
    0x11,
    0x88,
    0x45,
    0xc3,
    0x7b,
    0x2d,
    0x91,
    0xf4,
    0x63,
];

/// Bytes masked: each is combined with the byte of the mask for its place by exclusive or.
pub open spec fn masked(b: Seq<u8>) -> Seq<u8> {
    Seq::new(b.len(), |i: int| b[i] ^ MASK@[i % 16])
}

/// Masks bytes, or removes the mask from bytes that are masked.
pub fn mask(b: &[u8]) -> (r: Vec<u8>)
    ensures
        r@ == masked(b@),
{
    let mut r: Vec<u8> = Vec::new();
    let mut i: usize = 0;
    while i < b.len()
        invariant
            i <= b@.len(),
            r@.len() == i,
            forall|j: int| 0 <= j < i ==> #[trigger] r@[j] == b@[j] ^ MASK@[j % 16],
        decreases b.len() - i,
    {
        r.push(b[i] ^ MASK[i % 16]);
        i += 1;
    }
    assert(r@ =~= masked(b@));
    r
}

/// Masks a prompt.
pub fn enc(s: &str) -> (r: Vec<u8>)
    ensures
        r@ == masked(vstd::utf8::encode_utf8(s@)),
{
    mask(s.as_bytes())
}

/// Masking twice gives the bytes back.
pub proof fn masking_is_undone(b: Seq<u8>)
    ensures
        masked(masked(b)) == b,
{
    assert forall|i: int| 0 <= i < b.len() implies masked(masked(b))[i] == b[i] by {
        let x = b[i];
        let m = MASK@[i % 16];
        assert((x ^ m) ^ m == x) by (bit_vector);
    }
    assert(masked(masked(b)) =~= b);
}

/// A template with one placeholder after another replaced by a text.
pub open spec fn filled(template: Seq<char>, values: Seq<(Seq<char>, Seq<char>)>) -> Seq<char>
    decreases values.len(),
{
    if values.len() == 0 {
        template
    } else {
        text::replaced(
            filled(template, values.drop_last()),
            values.last().0,
            values.last().1,
        )
    }
}

/// The placeholders and texts of a list.
pub open spec fn pairs(values: Seq<(&str, &str)>) -> Seq<(Seq<char>, Seq<char>)> {
    values.map_values(|p: (&str, &str)| (p.0@, p.1@))
}

/// Replaces one placeholder of a template after another.
pub fn fill(template: &str, values: &[(&str, &str)]) -> (r: String)
    requires
        forall|i: int| 0 <= i < values@.len() ==> (#[trigger] values@[i]).0@.len() > 0,
    ensures
        r@ == filled(template@, pairs(values@)),
{
    let ghost all = pairs(values@);
    let mut r = template.to_owned();
    let mut i: usize = 0;
    while i < values.len()
        invariant
            i <= values@.len(),
            all == pairs(values@),
            forall|i: int| 0 <= i < values@.len() ==> (#[trigger] values@[i]).0@.len() > 0,
            r@ == filled(template@, all.take(i as int)),
        decreases values.len() - i,
    {
        proof {
            assert(all.take(i + 1).drop_last() =~= all.take(i as int));
            assert(all.take(i + 1).last() == (values@[i as int].0@, values@[i as int].1@));
        }
        r = text::replace(&r, values[i].0, values[i].1);
        i += 1;
    }
    assert(all.take(all.len() as int) =~= all);
    r
}

/// What is asked about a story or an article.
pub const NEWS: &'static str = r#"你是一位科技新聞分析師，專門分析技術文章與 Hacker News 討論。
請針對以下新聞項目提供簡潔的中文摘要（2-3句話），包含：
1. 核心技術概念或創新點
2. 對開發者社群的影響或意義
3. 值得關注的討論角度

搜尋關鍵字（僅供背景參考）：{keyword}
標題：{title}
來源：{source}
內容：{description}

⚠️ 重要：
- 若「內容」欄位為空或極短，請根據「標題」摘要文章主旨（1-2 句話即可）。
- 請摘要文章實際內容；若文章與搜尋關鍵字無明顯直接關聯，請直接摘要文章本身，不要強行建立關聯。
請用繁體中文回答，保持專業且易於理解。"#;

/// What is asked about a project.
pub const GITHUB: &'static str = r#"你是一位開源技術專家，專門分析 GitHub 上的熱門專案。
請針對以下 GitHub 專案提供簡潔的中文摘要（2-3句話），包含：
1. 專案的主要功能和技術特點
2. 適用場景和目標使用者
3. 為什麼值得關注

關鍵字：{keyword}
專案名稱：{title}
專案網址：{url}
描述：{description}

請用繁體中文回答，保持專業且易於理解。"#;

/// What is asked about an episode.
pub const PODCAST: &'static str = r#"你是一位科技播客分析師，專門整理技術相關的播客內容。
請針對以下播客集數提供簡潔的中文摘要（2-3句話），包含：
1. 主要討論主題和核心觀點
2. 對聽眾的價值和收穫
3. 特別值得注意的見解或討論

關鍵字：{keyword}
播客名稱：{podcast_name}
集數標題：{title}
時長：{duration}
描述：{description}

請用繁體中文回答，保持專業且易於理解。"#;

/// What is asked about a paper.
pub const ARXIV: &'static str = r#"你是一位 AI/ML 研究領域的專家，專門解析學術論文。
請針對以下 arXiv 論文提供簡潔的中文摘要（2-3句話），包含：
1. 研究問題和創新方法
2. 主要實驗結果或理論貢獻
3. 對業界或學術界的潛在影響

關鍵字：{keyword}
論文標題：{title}
作者：{authors}
類別：{categories}
摘要：{abstract_text}

請用繁體中文回答，保持學術嚴謹且易於理解。"#;

/// What is asked about a model.
pub const HF_MODEL: &'static str = r#"你是一位 AI 模型評估專家，專門分析 Hugging Face 上的開源模型。
請針對以下模型提供簡潔的中文摘要（2-3句話），包含：
1. 模型的主要功能和核心特點
2. 適用場景和目標使用者群體
3. 值得關注的優勢或獨特之處

模型名稱：{model_id}
任務類型：{pipeline_tag}
下載次數：{downloads}
收藏次數：{likes}
相關標籤：{tags}

請用繁體中文回答，保持專業且易於理解。"#;

/// What is asked about a cloud native project.
pub const CNCF: &'static str = r#"你是一位雲原生技術專家，專門分析 CNCF（Cloud Native Computing Foundation）生態系統。
請針對以下 CNCF 專案提供簡潔的中文摘要（3-4句話），包含：
1. 專案的主要功能和核心技術特點
2. 在雲原生生態中解決的問題或定位
3. 適用場景和目標使用者
4. 為什麼目前值得關注

專案名稱：{name}
成熟度：{maturity_label}
GitHub：{full_name}
描述：{description}
程式語言：{language}
Stars：{stars}
加入 CNCF：{accepted_at}

請用繁體中文回答，保持專業且易於理解。"#;

/// What is asked about a page of documentation.
pub const DOCS: &'static str = r#"你是一位技術學習助理，專門把技術文件整理成清晰的學習筆記。
請根據以下資料，用「學習筆記／心智圖」風格輸出，讓讀者能快速建立概念地圖。

輸出格式（嚴格遵守，不加其他章節標題）：

# <文件主題，一行，說明這份文件在講什麼>

## 是什麼
用 1–2 句話說明：這份文件介紹的技術/產品是什麼，解決什麼問題。

## 核心概念
用縮排條列呈現主要概念與其子概念（最多 3 層縮排）：
- 主要概念 A
  - 子概念 A1
  - 子概念 A2
- 主要概念 B
  - ...

## 關鍵細節
列出最值得記下來的技術要點（指令、格式、參數、注意事項），條列 3–6 點，每點不超過 2 行。

## 適合誰
一行，說明目標讀者類型。

## 延伸學習
根據站內連結或文件提示，列出 2–4 個值得繼續閱讀的方向（可推測，無需標記）。

---
文件 URL：{url}
文件標題：{title}
站內連結（反映文件的覆蓋範圍）：
{nav_links}
文件內容節錄：
{content}

⚠️ 規則：
- 「核心概念」請反映文件實際內容；若節錄不足，可根據標題與站內連結推測，缺乏依據時標示（推測）。
- 每個條列項目保持簡短（關鍵詞 + 一句說明）。
- 嚴格禁止輸出「若需要」、「如需進一步」等邀約語句。
- 嚴格禁止輸出上方格式說明本身（如「用縮排條列呈現」這類 meta 指令）。
請用繁體中文輸出。"#;

/// What is asked about a release.
pub const RELEASE: &'static str = r#"你是一位開源專案技術分析師，專門解讀 GitHub Release Notes。
請針對以下版本更新提供簡潔的中文摘要（2-4句話），包含：
1. 本次版本的核心變更或新功能
2. 破壞性變更（Breaking Changes）或升級注意事項（若有）
3. 對使用者最重要的影響

專案：{repo}
版本號：{tag}
版本名稱：{name}
發布日期：{date}
Release Notes：
{body}

⚠️ 重要：
- 若 Release Notes 為空或極短，請根據版本號推測可能的更新類型（例如安全修補、功能迭代）。
- 請直接摘要，不要重複輸出版本號或日期。
請用繁體中文回答，保持專業且易於理解。"#;

/// What is asked about the rivals of a product.
pub const COMPETITOR_JSON: &'static str = r#"你是一位技術分析師。針對「{name}」，列出 4–6 個競品（含「{name}」本身，放第一列）。
關鍵字領域：{keyword}
目標產品描述：{description}
雷達內相關產品（供參考）：{radar_items}

只回傳 JSON 陣列，不加任何說明文字或 code fence：
[
  {"type": "開源/閉源", "name": "產品名", "positioning": "核心定位（20字內）", "pros": "主要優勢（25字內）", "cons": "主要劣勢（25字內）"},
  ...
]"#;

/// What is asked about the place of a product among its rivals.
pub const ANALYSIS_TEXT: &'static str = r#"你是一位技術產品分析師，專門進行軟體與技術選型的競品分析。
今天日期：{today}。關鍵字領域：「{keyword}」

目標產品：{name}（{ring_upper}，{ring_desc}）
{oss_label}
描述：{description}
推薦理由：{pros}
限制或疑慮：{cons}

雷達圖中的同象限 / 相關產品：
{radar_items}

象限：{quadrant}
請撰寫以下章節（不需要第 1 節競品比較表，那已單獨處理）：

2. **「{name}」的核心競爭優勢**（條列，3–5 點）

3. **主要劣勢與風險**（條列，2–4 點）

4. **選型建議**
   - 適合選「{name}」的情境
   - 不適合、應選其他競品的情境

5. **總結**：{name} 在「{keyword}」生態中的定位與建議成熟度評估

請用繁體中文回答，保持專業、客觀、有依據。
⚠️ 嚴格禁止：不得加上「若需要」、「如需進一步」、「我可以幫你」等後續邀約語句。"#;

// ── Laws ─────────────────────────────────────────────────────────────────────

/// A placeholder that stands in a template is replaced by its text, and one that does not changes
/// nothing.
pub proof fn placeholders_are_filled(
    a: Seq<char>,
    key: Seq<char>,
    b: Seq<char>,
    value: Seq<char>,
    other: Seq<char>,
)
    requires
        key.len() > 0,
        !text::holds(a + key.drop_last(), key),
        !text::holds(b, key),
        !text::holds(other, key),
    ensures
        filled(a + key + b, seq![(key, value)]) == a + value + b,
        filled(other, seq![(key, value)]) == other,
        filled(other, Seq::empty()) == other,
{
    let one = seq![(key, value)];
    assert(one.drop_last() =~= Seq::<(Seq<char>, Seq<char>)>::empty());
    assert(filled(a + key + b, one.drop_last()) == a + key + b);
    assert(filled(other, one.drop_last()) == other);
    text::replacing_goes_from_the_left(a, key, b, value);
    text::replacing_nothing(b, key, value);
    text::replacing_nothing(other, key, value);
}

/// Placeholders are replaced in the order in which they are given.
pub proof fn placeholders_are_filled_in_order(
    template: Seq<char>,
    values: Seq<(Seq<char>, Seq<char>)>,
    more: Seq<(Seq<char>, Seq<char>)>,
)
    ensures
        filled(template, values + more) == filled(filled(template, values), more),
    decreases more.len(),
{
    let all = values + more;
    if more.len() == 0 {
        assert(all =~= values);
    } else {
        assert(all.drop_last() =~= values + more.drop_last());
        assert(all.last() == more.last());
        placeholders_are_filled_in_order(template, values, more.drop_last());
    }
}

} // verus!
