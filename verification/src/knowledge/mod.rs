//! A graph of knowledge.
use vstd::prelude::*;
use crate::fetcher::NewsItem;
use crate::lists;
use crate::number;
use crate::order;
use crate::text;
use crate::text::same;

pub mod navigation;
pub mod terminal;

verus! {

/// A node of a graph.
#[derive(Debug, Clone)]
pub struct KGNode {
    pub name: String,
    pub description: String,
}

/// Nodes that belong together.
#[derive(Debug, Clone)]
pub struct KGCluster {
    pub name: String,
    pub nodes: Vec<KGNode>,
}

/// A relation between nodes.
#[derive(Debug, Clone)]
pub struct KGRelation {
    pub from: String,
    pub to: String,
    pub label: String,
}

/// A graph of knowledge.
#[derive(Debug, Clone)]
pub struct KnowledgeGraph {
    pub center: String,
    pub clusters: Vec<KGCluster>,
    pub relations: Vec<KGRelation>,
}

/// What the language model is asked.
pub const KG_PROMPT: &'static str = r#"你是一位技術知識整理專家。今天日期：{today}。
根據以下關於「{keyword}」的最新新聞，建立一個結構化知識圖譜。

新聞（{n_news} 篇）：
{news_list}

只回傳 JSON，不要加任何其他文字：
{
  "center": "關鍵字",
  "clusters": [
    {
      "name": "核心概念",
      "nodes": [
        {"name": "概念名稱", "description": "一句話說明"}
      ]
    },
    {
      "name": "相關專案 & 模型",
      "nodes": []
    },
    {
      "name": "框架 & 工具",
      "nodes": []
    },
    {
      "name": "應用領域",
      "nodes": []
    }
  ],
  "relations": [
    {"from": "節點A", "to": "節點B", "label": "關係動詞"}
  ]
}

規則：
- clusters：4–6 個分類，每個分類 3–8 個節點，涵蓋整個知識生態
- relations：5–10 個，描述重要的依賴、使用、繼承、實作等關係
- name：英文或中英混合，≤20 字元
- description：繁體中文，≤30 字元
- label：繁體中文動詞短語，≤8 字元（例：「基於」「實作」「應用於」「整合」）"#;

/// News as the language model is shown it.
pub open spec fn news_line(n: NewsItem) -> Seq<char> {
    "- ["@ + n.source@ + "] "@ + n.title@
}

/// What the language model is asked about the first ten pieces of news: `today` is the day.
pub open spec fn graph_question(items: Seq<NewsItem>, kw: Seq<char>, today: Seq<char>) -> Seq<char> {
    let shown = order::cut(items, 10);
    let a = text::replaced(KG_PROMPT@, "{today}"@, today);
    let b = text::replaced(a, "{keyword}"@, kw);
    let c = text::replaced(b, "{n_news}"@, number::decimal(shown.len()));
    text::replaced(
        c,
        "{news_list}"@,
        text::joined(shown.map_values(|n: NewsItem| news_line(n)), "\n"@),
    )
}

/// The first ten pieces of news as the language model is shown them.
fn list_news(items: &Vec<NewsItem>) -> (r: String)
    ensures
        r@ == text::joined(
            order::cut(items@, 10).map_values(|n: NewsItem| news_line(n)),
            "\n"@,
        ),
{
    let n: usize = if items.len() <= 10 {
        items.len()
    } else {
        10
    };
    let ghost f = |n: NewsItem| news_line(n);
    let ghost all = order::cut(items@, 10);
    let mut lines: Vec<String> = Vec::new();
    let mut i: usize = 0;
    while i < n
        invariant
            i <= n <= items@.len(),
            all == order::cut(items@, 10),
            all.len() == n,
            f == (|n: NewsItem| news_line(n)),
            text::views(lines@) == all.take(i as int).map_values(f),
        decreases n - i,
    {
        broadcast use text::views_push;

        assert(all.take(i + 1).map_values(f) =~= all.take(i as int).map_values(f).push(
            f(all[i as int]),
        ));
        lines.push(text::concat4("- [", &items[i].source, "] ", &items[i].title));
        i += 1;
    }
    proof {
        lists::take_all(all);
    }
    text::join(&lines, "\n")
}

/// What the language model is asked about news.
pub fn graph_prompt(items: &Vec<NewsItem>, kw: &str, today: &str) -> (r: String)
    ensures
        r@ == graph_question(items@, kw@, today@),
{
    proof {
        reveal_strlit("{today}");
        reveal_strlit("{keyword}");
        reveal_strlit("{n_news}");
        reveal_strlit("{news_list}");
    }
    let n: usize = if items.len() <= 10 {
        items.len()
    } else {
        10
    };
    let a = text::replace(KG_PROMPT, "{today}", today);
    let b = text::replace(&a, "{keyword}", kw);
    let c = text::replace(&b, "{n_news}", &number::usize_text(n));
    text::replace(&c, "{news_list}", &list_news(items))
}

/// The graph of a keyword; `None` where the reply could not be read, which leaves an empty graph.
/// A graph without a centre has the keyword for one.
pub fn extract_knowledge_graph(parsed: Option<KnowledgeGraph>, kw: &str) -> (r: KnowledgeGraph)
    ensures
        match parsed {
            Some(g) => r.clusters == g.clusters && r.relations == g.relations && r.center@ == (if
            g.center@.len() == 0 {
                kw@
            } else {
                g.center@
            }),
            None => r.clusters@.len() == 0 && r.relations@.len() == 0 && r.center@ == kw@,
        },
{
    match parsed {
        Some(g) => {
            let mut g = g;
            if text::is_empty(&g.center) {
                g.center = kw.to_owned();
            }
            g
        },
        None => KnowledgeGraph {
            center: kw.to_owned(),
            clusters: Vec::new(),
            relations: Vec::new(),
        },
    }
}

/// The cluster of repositories.
pub const REPO_CLUSTER: &'static str = "GitHub Repos";

/// The mark of a cluster.
pub open spec fn cluster_mark(name: Seq<char>) -> Seq<char> {
    if name == REPO_CLUSTER@ {
        "▲"@
    } else {
        "◆"@
    }
}

/// The mark of a cluster.
pub fn cluster_icon(name: &str) -> (r: &'static str)
    ensures
        r@ == cluster_mark(name@),
{
    if same(name, REPO_CLUSTER) {
        "▲"
    } else {
        "◆"
    }
}

// ── Laws ─────────────────────────────────────────────────────────────────────

/// The language model is shown the source and the title of each of the first ten pieces of news.
pub proof fn ten_pieces_of_news_are_shown(items: Seq<NewsItem>, i: int)
    requires
        0 <= i < items.len(),
        i < 10,
    ensures
        ({
            let all = text::joined(
                order::cut(items, 10).map_values(|n: NewsItem| news_line(n)),
                "\n"@,
            );
            text::holds(all, items[i].source@) && text::holds(all, items[i].title@)
        }),
{
    broadcast use {text::holds_in_front, text::holds_at_end};

    let lines = order::cut(items, 10).map_values(|n: NewsItem| news_line(n));
    let all = text::joined(lines, "\n"@);
    let line = news_line(items[i]);
    assert(lines[i] == line);
    text::joined_holds_each(lines, "\n"@, i);
    assert(text::holds(line, items[i].source@) && text::holds(line, items[i].title@));
    text::holds_within(all, line, items[i].source@);
    text::holds_within(all, line, items[i].title@);
}

/// The cluster of repositories has a mark of its own.
pub proof fn repositories_have_their_mark(name: Seq<char>)
    ensures
        cluster_mark(name) == "▲"@ <==> name == "GitHub Repos"@,
{
    reveal_strlit("▲");
    reveal_strlit("◆");
    assert("▲"@[0] != "◆"@[0]);
}

} // verus!
