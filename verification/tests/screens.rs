//! Graphs, radars, menus and reports.
use news_lab::analysis::{
    parse_sections, rival_name, rivals_json, section_pieces, style_of_section, CompetitorRow,
    Piece,
};
use news_lab::digest::compose_digest;
use news_lab::fetcher::arxiv::ArxivPaper;
use news_lab::fetcher::cases::{BlipCaseBundle, CaseEvidence};
use news_lab::fetcher::cncf::CNCFProject;
use news_lab::fetcher::docs::DocPage;
use news_lab::fetcher::huggingface::{HFModel, HFSort};
use news_lab::fetcher::podcast::PodcastEpisode;
use news_lab::fetcher::release::ReleaseItem;
use news_lab::fetcher::NewsItem;
use news_lab::knowledge::navigation::{
    chosen_repo, first_action, needs_translation, node_action, node_choices, repo_choice,
    translated, translation_prompt, MenuStep, NavStep, Navigation, NodeAction,
};
use news_lab::knowledge::terminal::{
    center_box, center_line, cluster_lines, graph_title, relation_pads,
};
use news_lab::knowledge::{
    cluster_icon, extract_knowledge_graph, graph_prompt, KGCluster, KGNode, KGRelation,
    KnowledgeGraph,
};
use news_lab::menu::{
    blip_choices, choose_extra, choose_feature, choose_maturity, choose_sort, chosen_number,
    enter_keyword, enter_page, find_number, is_emerging, keyword_question, Extra, Feature,
    KeywordInput, PageInput, MATURITY_CHOICES,
};
use news_lab::radar::terminal::{
    build_radar, build_radar_grid, cell_style, detail_color, detail_title, legend_rows, plan,
    q_color, quadrant_label, ring_color, show_blip_detail, CellStyle, Outline,
};
use news_lab::radar::{Blip, QuadrantNames};
use news_lab::report::{
    card_title, cncf_card, docs_card, episode_card, fmt_tokens, github_card, is_estimate,
    major_card, minor_card, minutes_left, model_card, news_card, node_repo_card, paper_card,
    podcasts_wanted, releases_found, shows_usage,
};
use news_lab::time::Timestamp;

fn day() -> Option<Timestamp> {
    Some(Timestamp { secs: 1714979289, nanos: 0 })
}

fn news(title: &str, url: &str, source: &str, description: &str, secs: Option<i64>) -> NewsItem {
    NewsItem {
        title: title.to_string(),
        url: url.to_string(),
        source: source.to_string(),
        published: secs.map(|secs| Timestamp { secs, nanos: 0 }),
        description: description.to_string(),
    }
}

#[test]
fn digests_hold_what_fits() {
    let stories = vec![
        news("Ray Serve", "https://github.com/x", "Hacker News", "", Some(9)),
        news("Ray serve 2", "https://a", "Hacker News", "", None),
        news("Cooking", "https://b", "Hacker News", "", Some(9)),
    ];
    let feeds = vec![
        news("F", "https://c", "InfoQ", " ", Some(9)),
        news("G", "https://d", "InfoQ", "text", Some(5)),
        news("H", "https://a", "InfoQ", "text", Some(99)),
    ];
    let tagged = vec![news("I", "https://e", "Medium", "text", Some(-7))];
    let kw = vec!["ray serve".to_string()];
    let d = compose_digest(stories, feeds, tagged, &kw, 5);
    let titles: Vec<&str> = d.iter().map(|n| n.title.as_str()).collect();
    assert_eq!(titles, vec!["G", "Ray serve 2", "I"]);
}

#[test]
fn numbers_of_tokens_are_grouped() {
    assert_eq!(fmt_tokens(0), "0");
    assert_eq!(fmt_tokens(999), "999");
    assert_eq!(fmt_tokens(1000), "1,000");
    assert_eq!(fmt_tokens(1234567), "1,234,567");
    assert!(is_estimate("gpt-5-mini") && is_estimate("o1") && !is_estimate("gpt-4o"));
    assert!(!shows_usage(0, 0) && shows_usage(u64::MAX, 1));
    assert_eq!(minutes_left(3599), 59);
    assert_eq!(podcasts_wanted(10), 5);
    assert_eq!(podcasts_wanted(1), 3);
}

#[test]
fn cards_show_what_was_found() {
    let n = news("T", "u", "InfoQ", "", Some(1714979289));
    let c = news_card(0, &n, "S");
    assert_eq!(c.title, "[1] T");
    assert_eq!(c.content, "來源: InfoQ | 日期: 2024-05-06\n\nS");
    assert_eq!((c.url.as_str(), c.color.as_str()), ("u", "blue"));
    assert_eq!(news_card(0, &news("T", "u", "X", "", None), "S").content, "來源: X | 日期: 未知\n\nS");
    assert_eq!(github_card(1, &n, "S", true).content, "來源: GitHub | 建立日期: 2024-05-06\n\nS");
    assert_eq!(github_card(1, &n, "S", false).content, "來源: GitHub | 最後推送: 2024-05-06\n\nS");
    assert_eq!(node_repo_card(1, &n, "S").content, "最後推送: 2024-05-06\n\nS");
    assert_eq!(card_title(9, "x"), "[10] x");
    let p = ArxivPaper {
        arxiv_id: "1".to_string(),
        title: "P".to_string(),
        url: "u".to_string(),
        published: day(),
        authors: vec!["A".to_string(), "B".to_string()],
        abstract_text: String::new(),
        categories: vec![],
    };
    assert_eq!(paper_card(0, &p, "S").content, "arXiv ID: 1 | 日期: 2024-05-06\n作者: A, B\n\nS");
    let e = PodcastEpisode {
        podcast_name: "Show".to_string(),
        title: "E".to_string(),
        url: "u".to_string(),
        published: None,
        description: String::new(),
        duration: "12:34".to_string(),
    };
    assert_eq!(episode_card(0, &e, "S").content, "播客: Show | 日期: 未知 | 時長: 12:34\n\nS");
    let m = HFModel {
        model_id: "o/m".to_string(),
        downloads: 1,
        likes: 2,
        pipeline_tag: "tg".to_string(),
        tags: vec![],
        last_modified: day(),
        url: "u".to_string(),
    };
    assert_eq!(
        model_card(0, &m, "1.0K", "2", "S").content,
        "任務: tg | 更新: 2024-05-06\n⬇ 1.0K 下載  ❤ 2 收藏\n\nS"
    );
    let mut p = CNCFProject {
        name: "N".to_string(),
        full_name: "o/n".to_string(),
        url: "u".to_string(),
        description: String::new(),
        stars: 5,
        language: None,
        last_updated: day(),
        maturity: "graduated".to_string(),
        accepted_at: None,
    };
    let c = cncf_card(0, &p, "S");
    assert_eq!(c.content, "🎓 graduated | ⭐ 5 stars | 語言: 未知\n加入: — | 最後更新: 2024-05-06\n\nS");
    assert_eq!(c.color, "cyan");
    p.maturity = String::new();
    assert!(cncf_card(0, &p, "S").content.starts_with("☁ cncf | "));
    p.maturity = "sandbox".to_string();
    assert!(cncf_card(0, &p, "S").content.starts_with("🔬 sandbox | "));
    let r = ReleaseItem {
        tag_name: "v1".to_string(),
        name: "One".to_string(),
        body: String::new(),
        url: "u".to_string(),
        published: day(),
        is_major: true,
    };
    assert_eq!(minor_card(1, &r, "S").title, "[小版本 2] One");
    assert_eq!(major_card(&r, "S").title, "[大版本] One");
    assert_eq!(major_card(&r, "S").content, "版本: v1 | 發布: 2024-05-06\n\nS");
    assert_eq!(releases_found(3, true), "找到 3 個小版本、1 個大版本");
    let d = DocPage {
        url: "u".to_string(),
        title: String::new(),
        text: String::new(),
        nav_links: vec!["/a".to_string()],
    };
    assert_eq!(docs_card(&d, "S").title, "技術文件摘要 — u");
    assert_eq!(docs_card(&d, "S").content, "S\n\n站內發現 1 個連結");
}

#[test]
fn menus_are_read_by_their_labels() {
    let labels = [
        ("新聞摘要", Feature::News),
        ("開源專案摘要", Feature::Projects),
        ("arXiv 論文摘要", Feature::Papers),
        ("Podcast 摘要", Feature::Podcasts),
        ("知識圖譜", Feature::Graph),
        ("技術生態雷達和競品分析", Feature::Radar),
        ("其他功能 ▶", Feature::Extras),
        ("調整筆數 (目前: 10)", Feature::ChangeMax),
        ("清空快取", Feature::ClearCache),
        ("更換關鍵字", Feature::ChangeKeyword),
        ("離開", Feature::Quit),
    ];
    for (label, feature) in labels {
        assert_eq!(choose_feature(label), feature);
    }
    assert!(is_emerging("新興專案") && !is_emerging("近期熱門"));
    assert_eq!(choose_sort("最多下載"), HFSort::Downloads);
    assert_eq!(choose_sort("最多收藏"), HFSort::Likes);
    assert_eq!(choose_sort("熱門趨勢"), HFSort::Trending);
    let m: Vec<Option<&str>> = MATURITY_CHOICES.iter().map(|c| choose_maturity(c)).collect();
    assert_eq!(m[1], Some("graduated"));
    assert_eq!(m[2], Some("incubating"));
    assert_eq!(m[3], Some("sandbox"));
    assert_eq!(choose_extra("← 返回主選單"), Extra::Back);
    assert_eq!(choose_extra("HuggingFace 模型整理"), Extra::Models);
    assert_eq!(choose_extra("Repo 版本更新摘要"), Extra::Releases);
    assert_eq!(choose_extra("技術文件摘要"), Extra::Docs);
    assert_eq!(choose_extra("CNCF 專案整理"), Extra::Cncf);
}

#[test]
fn inputs_are_read() {
    assert!(matches!(enter_keyword(" Quit ", "k"), KeywordInput::Quit));
    assert!(matches!(enter_keyword("q", ""), KeywordInput::Quit));
    assert!(matches!(enter_keyword(" ai ", "k"), KeywordInput::Keyword(s) if s == "ai"));
    assert!(matches!(enter_keyword("", "k"), KeywordInput::Keyword(s) if s == "k"));
    assert!(matches!(enter_keyword(" ", ""), KeywordInput::Missing));
    assert_eq!(keyword_question(""), "輸入搜尋關鍵字 (英文):");
    assert_eq!(keyword_question("k"), "輸入搜尋關鍵字 (英文，Enter 保留 \"k\"):");
    assert!(matches!(enter_page(" "), PageInput::Leave));
    assert!(matches!(enter_page("example.com"), PageInput::Refused));
    assert!(matches!(enter_page(" https://e.com "), PageInput::Page(u) if u == "https://e.com"));
}

fn blip(name: &str, quadrant: &str, ring: &str) -> Blip {
    Blip {
        name: name.to_string(),
        canonical_name: String::new(),
        kind: String::new(),
        quadrant: quadrant.to_string(),
        ring: ring.to_string(),
        is_open_source: true,
        description: String::new(),
        license: String::new(),
        upstream: vec![],
        downstream: vec![],
        pros: vec![],
        cons: vec![],
        rationale: String::new(),
        github_repo: String::new(),
        github_days: None,
        number: 0,
    }
}

fn names() -> QuadrantNames {
    QuadrantNames { entries: vec![("q1".to_string(), "One".to_string())] }
}

#[test]
fn items_are_numbered_by_quadrant_and_ring() {
    let mut blips = vec![
        blip("a", "q2", "adopt"),
        blip("b", "q1", "hold"),
        blip("c", "q1", "adopt"),
        blip("d", "q1", "hold"),
        blip("e", "q9", "hold"),
    ];
    let p = plan(&blips);
    let order: Vec<usize> = p.iter().map(|x| x.index).collect();
    assert_eq!(order, vec![2, 1, 3, 0]);
    assert_eq!((p[2].quadrant, p[2].ring, p[2].place, p[2].count), (0, 3, 1, 2));
    build_radar(&mut blips);
    let numbers: Vec<usize> = blips.iter().map(|b| b.number).collect();
    assert_eq!(numbers, vec![4, 2, 1, 3, 0]);
    assert_eq!(blip_choices(&blips)[1], "#1 ▲ c (adopt)");
    assert_eq!(chosen_number("#12 ▲ x"), Some(12));
    assert_eq!(chosen_number("#"), None);
    assert_eq!(chosen_number("12"), None);
    assert_eq!(find_number(&blips, 3), Some(3));
    assert_eq!(find_number(&blips, 9), None);
}

#[test]
fn radars_are_drawn() {
    let mut blips: Vec<Blip> = (0..11).map(|i| blip(&format!("b{i}"), "q1", "adopt")).collect();
    blips[1].is_open_source = false;
    let outline = Outline {
        dots: vec![(0, 0), (5, 5)],
        lines: vec![(0, 0, true), (1, 1, false)],
        labels: vec![(2, 70, 'A'), (3, 3, 'T')],
    };
    let mut points = vec![Some((5, 10)); 11];
    points[9] = None;
    points[10] = None;
    let g = build_radar_grid(&mut blips, &outline, &points);
    assert_eq!(g.grid.len(), 23);
    assert_eq!(g.grid[0].len(), 71);
    assert_eq!(g.grid[0][0], '│');
    assert_eq!(g.colors[0][0], "grey42");
    assert_eq!(g.grid[5][5], '·');
    assert_eq!(g.grid[1][1], '─');
    assert_eq!(g.grid[11][35], '+');
    assert_eq!(g.grid[2][70], 'A');
    assert_eq!(g.grid[3][4], 'T');
    assert_eq!(g.grid[5][10], '1');
    assert_eq!(g.grid[5][11], '2');
    assert_eq!(g.colors[5][11], "bright_red");
    assert_eq!(g.grid[5][9], '3');
    assert_eq!(g.grid[4][10], '4');
    assert_eq!(g.grid[6][10], '5');
    assert_eq!(g.grid[5][12], '6');
    assert_eq!(g.grid[5][8], '7');
    assert_eq!(g.grid[4][11], '8');
    assert_eq!(g.grid[6][11], '9');
    assert_eq!((blips[9].number, blips[10].number), (10, 11));
    assert_eq!(cell_style("bright_green"), CellStyle::Open);
    assert_eq!(cell_style("bright_red"), CellStyle::Closed);
    assert_eq!(cell_style("grey54"), CellStyle::Dim);
    assert_eq!(cell_style("none"), CellStyle::Plain);
}

#[test]
fn a_number_without_a_free_place_covers_its_point() {
    let mut blips: Vec<Blip> = (0..10).map(|i| blip(&format!("b{i}"), "q1", "adopt")).collect();
    let outline = Outline { dots: vec![], lines: vec![], labels: vec![] };
    let g = build_radar_grid(&mut blips, &outline, &vec![Some((5, 10)); 10]);
    assert_eq!((g.grid[5][10], g.grid[5][11]), ('1', '0'));
    let mut one: Vec<Blip> = (0..10).map(|i| blip(&format!("b{i}"), "q1", "adopt")).collect();
    let mut points: Vec<Option<(usize, usize)>> = vec![None; 10];
    points[9] = Some((0, 70));
    let g = build_radar_grid(&mut one, &outline, &points);
    assert_eq!((g.grid[0][69], g.grid[0][70]), ('1', '0'));
}

#[test]
fn lists_of_items() {
    let mut blips = vec![blip("a", "q2", "adopt"), blip("b", "q1", "hold"), blip("c", "q1", "trial")];
    build_radar(&mut blips);
    let rows = legend_rows(&blips, &names(), true);
    assert_eq!(rows.len(), 5);
    assert_eq!(rows[0], vec!["", "", "── One ──", "", ""]);
    assert_eq!(rows[1], vec!["1", "▲", "c", "TRIAL", "One"]);
    assert_eq!(rows[2], vec!["2", "▲", "b", "HOLD", "One"]);
    assert_eq!(rows[3], vec!["", "", "── q2 ──", "", ""]);
    assert_eq!(legend_rows(&blips, &names(), false)[1][1], "◆");
    assert_eq!(q_color("q3"), "yellow");
    assert_eq!(ring_color("hold"), "red");
    assert_eq!(detail_color("hold"), "magenta");
    assert_eq!(detail_color("adopt"), "green");
    assert_eq!(quadrant_label(&names(), "q1", "Q1"), format!("{:<35}", "One"));
    assert_eq!(quadrant_label(&names(), "q2", "Q2"), format!("{:<35}", "Q2"));
}

#[test]
fn details_of_items() {
    let mut b = blip("X", "q1", "adopt");
    b.number = 3;
    b.license = "MIT".to_string();
    b.description = "D".to_string();
    b.upstream = vec!["u1".to_string(), "u2".to_string()];
    b.pros = vec!["p".to_string()];
    b.cons = vec!["c".to_string()];
    b.rationale = "r".to_string();
    b.github_days = Some(14);
    b.github_repo = "o/x".to_string();
    let bundle = BlipCaseBundle {
        product_name: "X".to_string(),
        cases: vec![CaseEvidence {
            company: "Acme".to_string(),
            title: "T".to_string(),
            url: "https://u".to_string(),
            publisher: "P".to_string(),
            published_at: String::new(),
            usage_summary: "S".to_string(),
            evidence_type: "blog".to_string(),
        }],
        fetched_at: String::new(),
        source_policy: String::new(),
    };
    assert_eq!(
        show_blip_detail(&b, &names(), Some(&bundle), None, true),
        "▲ 開源   ADOPT   One   MIT\n\nD\n\n⬆ 上游依賴  u1  u2\n\nGitHub 活躍度  🟢 最後更新 14 天前  (o/x)\n\n🏢 企業案例\n  • Acme：S\n    來源：T — P | blog\n    URL：https://u\n\n\n推薦理由\n  • p\n\n⚠️  不推薦理由\n  • c\n\n📌 分類依據\nr"
    );
    let plain = blip("Y", "q1", "hold");
    assert_eq!(
        show_blip_detail(&plain, &names(), None, None, false),
        "◆ 方法   HOLD   One\n\n\n\n🏢 企業案例\n  • 尚未載入案例資料\n"
    );
    assert!(show_blip_detail(&plain, &names(), None, Some("e"), true).ends_with("  • 查找失敗：e\n"));
    let empty = BlipCaseBundle { cases: vec![], ..bundle };
    assert!(show_blip_detail(&plain, &names(), Some(&empty), None, true)
        .ends_with("  • 未找到符合官方標準的公開案例\n"));
    assert_eq!(detail_title(&b), "#3 X");
}

fn graph() -> KnowledgeGraph {
    let node = |n: &str, d: &str| KGNode { name: n.to_string(), description: d.to_string() };
    KnowledgeGraph {
        center: "Ray".to_string(),
        clusters: vec![
            KGCluster { name: "Core".to_string(), nodes: vec![node("Ray", ""), node("Ray Serve", "serving")] },
            KGCluster { name: "GitHub Repos".to_string(), nodes: vec![node("o/r", "")] },
        ],
        relations: vec![
            KGRelation { from: "a".to_string(), to: "b".to_string(), label: "x".to_string() },
            KGRelation { from: "技術".to_string(), to: "b".to_string(), label: "x".to_string() },
        ],
    }
}

#[test]
fn graphs_are_asked_for_and_completed() {
    let n = news("T", "u", "InfoQ", "", None);
    let p = graph_prompt(&vec![n], "Ray", "2026-01-02");
    assert!(p.contains("今天日期：2026-01-02"));
    assert!(p.contains("新聞（1 篇）：\n- [InfoQ] T"));
    let mut g = graph();
    g.center = String::new();
    assert_eq!(extract_knowledge_graph(Some(g), "kw").center, "kw");
    assert!(extract_knowledge_graph(None, "kw").clusters.is_empty());
    assert_eq!(cluster_icon("GitHub Repos"), "▲");
    assert_eq!(cluster_icon("Core"), "◆");
}

#[test]
fn the_way_through_graphs() {
    let mut nav = Navigation::new("ray");
    assert_eq!(nav.next(), NavStep::Fetch);
    assert_eq!(nav.queries(), vec!["ray"]);
    assert_eq!(nav.next_query(0, 0), Some(0));
    assert_eq!(nav.next_query(1, 0), None);
    assert_eq!(nav.breadcrumb(), None);
    assert!(nav.on_fetched(3));
    assert!(nav.on_graph(graph()));
    assert_eq!(nav.next(), NavStep::Show);
    let choices = node_choices(nav.levels[0].graph.as_ref().unwrap());
    let lines: Vec<&str> = choices.iter().map(|c| c.line.as_str()).collect();
    assert_eq!(
        lines,
        vec!["◆ [Core]  Ray", "◆ [Core]  Ray Serve  — serving", "▲ [GitHub Repos]  o/r"]
    );
    assert!(matches!(nav.on_menu(&choices, "other"), MenuStep::Again));
    match nav.on_menu(&choices, "◆ [Core]  Ray Serve  — serving") {
        MenuStep::Node { cluster, node } => assert_eq!((cluster.as_str(), node.as_str()), ("Core", "Ray Serve")),
        _ => panic!("the node is listed"),
    }
    nav.deeper("Ray Serve", "serve");
    assert_eq!(nav.breadcrumb(), Some("ray › Ray Serve".to_string()));
    assert_eq!(nav.queries(), vec!["ray ray serve", "ray serve", "serve"]);
    assert_eq!(nav.next_query(0, 0), Some(0));
    assert_eq!(nav.next_query(2, 0), Some(2));
    assert_eq!(nav.next_query(2, 1), None);
    assert_eq!(nav.next_query(3, 0), None);
    assert_eq!(nav.next(), NavStep::Fetch);
    assert_eq!(nav.back_label(), "← 返回上一層");
    assert!(!nav.on_fetched(0));
    assert_eq!(nav.next(), NavStep::Show);
    assert_eq!(nav.levels[0].graph.as_ref().unwrap().clusters.len(), 2);
    nav.deeper("x", "x");
    assert!(!nav.on_graph(extract_knowledge_graph(None, "x")));
    assert!(matches!(nav.on_menu(&choices, "← 返回主選單"), MenuStep::Back));
    assert_eq!(nav.next(), NavStep::Leave);
}

#[test]
fn actions_on_nodes() {
    assert_eq!(node_action("知識圖譜 — 深入搜尋"), NodeAction::Graph);
    assert_eq!(node_action("GitHub Repos — 搜尋開源專案"), NodeAction::Repos);
    assert_eq!(node_action("← 返回"), NodeAction::Back);
    assert_eq!(first_action("GitHub Repos"), 1);
    assert_eq!(first_action("Core"), 0);
    assert!(needs_translation("a 排程") && !needs_translation("a"));
    assert!(translation_prompt("排程").ends_with("): 排程"));
    assert_eq!(translated("排程", Some(" scheduling \nmore")), "scheduling");
    assert_eq!(translated(" 排程 ", None), "排程");
    assert_eq!(translated("排程", Some("")), "排程");
    assert_eq!(repo_choice("o/r"), "▲ o/r — 深入知識圖譜");
    assert_eq!(chosen_repo("▲ o/r — 深入知識圖譜"), Some("o/r".to_string()));
    assert_eq!(chosen_repo("← 返回"), None);
    assert_eq!(chosen_repo("x"), None);
}

#[test]
fn graphs_on_a_terminal() {
    assert_eq!(center_line("技術", 9), "│  技術   │");
    assert_eq!(center_line("abc", 2), "│abc│");
    let g = graph();
    let lines = cluster_lines(&g.clusters[0]);
    assert_eq!((lines[0].branch, lines[0].pad), ("├─", 19));
    assert_eq!((lines[1].branch, lines[1].description.as_str()), ("└─", "serving"));
    assert_eq!(relation_pads(&g.relations), vec![3, 0]);
    let b = center_box("Ray");
    assert_eq!(b.label, "  Ray  ");
    assert_eq!(b.top, format!("{}┌───────┐", " ".repeat(33)));
    assert_eq!(b.bottom, format!("{}└───────┘", " ".repeat(33)));
    assert_eq!(b.stem, format!("{}│", " ".repeat(37)));
    assert_eq!(graph_title("Ray"), "知識圖譜：Ray");
}

#[test]
fn analyses_are_split_into_sections() {
    let text = "intro\n2. **Strong**\n- Fast：very **fast**\n  - sub point\n-\njoined line\n\nnote\n3. Weak\n0. none\nx";
    let s = parse_sections(text);
    assert_eq!(s.len(), 2);
    assert_eq!((s[0].number, s[1].number), (2, 3));
    assert_eq!(s[0].lines.len(), 6);
    let p = section_pieces(&s[0].lines);
    assert_eq!(p.len(), 4);
    assert!(matches!(&p[0], Piece::Keyed { gap: false, head, pad: "    ", text } if head == "• Fast：" && text == "very fast"));
    assert!(matches!(&p[1], Piece::Marked { gap: true, mark: "  ›", text } if text == "sub point"));
    assert!(matches!(&p[2], Piece::Marked { gap: true, mark: "•", text } if text == "joined line"));
    assert!(matches!(&p[3], Piece::Plain(t) if t == "note"));
    assert_eq!(style_of_section(4), ("cyan", "選型建議"));
    assert_eq!(style_of_section(1), ("white", ""));
}

#[test]
fn rivals_of_a_product() {
    let row = CompetitorRow {
        type_: "開源".to_string(),
        name: "X".to_string(),
        positioning: String::new(),
        pros: String::new(),
        cons: String::new(),
    };
    assert_eq!(rival_name(&row, "X"), "▶ X");
    assert_eq!(rival_name(&row, "Y"), "X");
    assert_eq!(rivals_json("```json\nSure [ {\"a\": [1]} ] ok\n```"), "[ {\"a\": [1]} ]");
    assert_eq!(rivals_json("none"), "none");
}
