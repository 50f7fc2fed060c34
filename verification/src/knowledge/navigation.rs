//! Finding a way through graphs of knowledge.
use vstd::prelude::*;
use crate::knowledge;
use crate::knowledge::{KGCluster, KGNode, KnowledgeGraph};
use crate::lists;
use crate::text;
use crate::text::same;

verus! {

// ── Nodes ──────────────────────────────────────────────────────────────────────

/// A node that can be chosen: the line that is shown, its cluster and its name.
pub struct NodeChoice {
    pub line: String,
    pub cluster: String,
    pub node: String,
}

/// A node that can be chosen, by its texts.
pub struct Choice {
    pub line: Seq<char>,
    pub cluster: Seq<char>,
    pub node: Seq<char>,
}

impl View for NodeChoice {
    type V = Choice;

    open spec fn view(&self) -> Choice {
        Choice { line: self.line@, cluster: self.cluster@, node: self.node@ }
    }
}

/// A node of a cluster as it can be chosen.
pub open spec fn node_choice(cluster: Seq<char>, node: KGNode) -> Choice {
    let front = knowledge::cluster_mark(cluster) + " ["@ + cluster + "]  "@ + node.name@;
    Choice {
        line: if node.description@.len() == 0 {
            front
        } else {
            front + "  — "@ + node.description@
        },
        cluster,
        node: node.name@,
    }
}

/// The nodes of a cluster as they can be chosen.
pub open spec fn cluster_choices(c: KGCluster) -> Seq<Choice> {
    c.nodes@.map_values(|n: KGNode| node_choice(c.name@, n))
}

/// The nodes of clusters as they can be chosen, in order.
pub open spec fn all_choices(clusters: Seq<KGCluster>) -> Seq<Choice>
    decreases clusters.len(),
{
    if clusters.len() == 0 {
        Seq::empty()
    } else {
        all_choices(clusters.drop_last()) + cluster_choices(clusters.last())
    }
}

/// A node of a cluster as it can be chosen.
fn make_choice(cluster: &str, node: &KGNode) -> (r: NodeChoice)
    ensures
        r@ == node_choice(cluster@, *node),
{
    let mut line = text::concat5(
        knowledge::cluster_icon(cluster),
        " [",
        cluster,
        "]  ",
        &node.name,
    );
    if !text::is_empty(&node.description) {
        line.append("  — ");
        line.append(&node.description);
    }
    NodeChoice { line, cluster: cluster.to_owned(), node: node.name.clone() }
}

/// The nodes of a graph as they can be chosen.
pub fn node_choices(kg: &KnowledgeGraph) -> (r: Vec<NodeChoice>)
    ensures
        lists::views(r@) == all_choices(kg.clusters@),
{
    let ghost all = kg.clusters@;
    let mut r: Vec<NodeChoice> = Vec::new();
    let mut i: usize = 0;
    assert(lists::views(r@) =~= Seq::empty());
    while i < kg.clusters.len()
        invariant
            i <= kg.clusters@.len(),
            all == kg.clusters@,
            lists::views(r@) == all_choices(all.take(i as int)),
        decreases kg.clusters.len() - i,
    {
        let c = &kg.clusters[i];
        let ghost f = |n: KGNode| node_choice(c.name@, n);
        let ghost before = lists::views(r@);
        let ghost nodes = c.nodes@;
        let mut j: usize = 0;
        assert(before + nodes.take(0).map_values(f) =~= before);
        while j < c.nodes.len()
            invariant
                j <= c.nodes@.len(),
                nodes == c.nodes@,
                f == (|n: KGNode| node_choice(c.name@, n)),
                lists::views(r@) == before + nodes.take(j as int).map_values(f),
            decreases c.nodes.len() - j,
        {
            broadcast use lists::views_push;

            proof {
                let a = nodes.take(j as int).map_values(f);
                assert(nodes.take(j + 1).map_values(f) =~= a.push(f(nodes[j as int])));
                assert(before + a.push(f(nodes[j as int])) =~= (before + a).push(
                    f(nodes[j as int]),
                ));
            }
            r.push(make_choice(&c.name, &c.nodes[j]));
            j += 1;
        }
        proof {
            lists::take_all(nodes);
            assert(all.take(i + 1).drop_last() =~= all.take(i as int));
            assert(all.take(i + 1).last() == *c);
        }
        i += 1;
    }
    proof {
        lists::take_all(all);
    }
    r
}

// ── Levels ─────────────────────────────────────────────────────────────────────

/// A level of the way: what is shown, what is searched, the word of the node alone, and the graph
/// once it is known.
pub struct Level {
    pub display: String,
    pub search: String,
    pub term: String,
    pub graph: Option<KnowledgeGraph>,
}

/// A way through graphs: the keyword that it begins with, and the levels down to the present one.
pub struct Navigation {
    pub root: String,
    pub levels: Vec<Level>,
}

/// What comes next on the way.
#[derive(Debug, Clone, Copy, PartialEq, Eq, Structural)]
pub enum NavStep {
    /// The graph of the present level is searched.
    Fetch,
    /// The graph of the present level is shown.
    Show,
    /// The way is at its end.
    Leave,
}

/// What comes next on a way with levels: a level whose graph is known is shown without a search.
pub open spec fn next_step(levels: Seq<Level>) -> NavStep {
    if levels.len() == 0 {
        NavStep::Leave
    } else if levels.last().graph is None {
        NavStep::Fetch
    } else {
        NavStep::Show
    }
}

/// Whether the graph of every level above the present one is known.
pub open spec fn known_above(levels: Seq<Level>) -> bool {
    forall|i: int| 0 <= i < levels.len() - 1 ==> (#[trigger] levels[i]).graph is Some
}

/// Whether `b` is `a` one level further up.
pub open spec fn went_back(a: Navigation, b: Navigation) -> bool {
    &&& b.root == a.root
    &&& b.levels@ == a.levels@.drop_last()
}

/// Whether `b` is `a` one level further down, at a node that is searched with the keyword and the
/// level above before its word.
pub open spec fn went_down(
    a: Navigation,
    b: Navigation,
    node: Seq<char>,
    term: Seq<char>,
) -> bool {
    &&& b.root == a.root
    &&& b.levels@.len() == a.levels@.len() + 1
    &&& b.levels@.drop_last() == a.levels@
    &&& b.levels@.last().display@ == node
    &&& b.levels@.last().search@ == a.root@ + " "@ + a.levels@.last().display@ + " "@ + term
    &&& b.levels@.last().term@ == term
    &&& b.levels@.last().graph is None
}

/// The searches for the graph of a level that are made one after another until one finds
/// something: below the first level they become shorter.
pub open spec fn level_queries(root: Seq<char>, levels: Seq<Level>) -> Seq<Seq<char>> {
    let top = levels.last();
    if levels.len() == 1 {
        seq![top.search@]
    } else {
        seq![top.search@, root + " "@ + top.term@, top.term@]
    }
}

/// What is shown of the levels.
pub open spec fn displays(levels: Seq<Level>) -> Seq<Seq<char>> {
    levels.map_values(|l: Level| l.display@)
}

/// What the choice of a node came to.
#[derive(Debug)]
pub enum MenuStep {
    /// Back to the level above.
    Back,
    /// A node of a cluster.
    Node { cluster: String, node: String },
    /// Nothing that can be chosen.
    Again,
}

/// The first choice with a line.
pub open spec fn chosen(choices: Seq<Choice>, line: Seq<char>) -> Option<Choice>
    decreases choices.len(),
{
    if choices.len() == 0 {
        None
    } else if choices[0].line == line {
        Some(choices[0])
    } else {
        chosen(choices.skip(1), line)
    }
}

/// The label that leads back.
pub open spec fn back_text(depth: nat) -> Seq<char> {
    if depth > 1 {
        "← 返回上一層"@
    } else {
        "← 返回主選單"@
    }
}

impl Navigation {
    /// The beginning of a way.
    pub fn new(kw: &str) -> (r: Navigation)
        ensures
            r.root@ == kw@,
            r.levels@.len() == 1,
            r.levels@[0].display@ == kw@,
            r.levels@[0].search@ == kw@,
            r.levels@[0].term@ == kw@,
            r.levels@[0].graph is None,
            known_above(r.levels@),
    {
        let first = Level {
            display: kw.to_owned(),
            search: kw.to_owned(),
            term: kw.to_owned(),
            graph: None,
        };
        Navigation { root: kw.to_owned(), levels: vec![first] }
    }

    /// What comes next: a level whose graph is known is shown without a search.
    pub fn next(&self) -> (r: NavStep)
        ensures
            r == next_step(self.levels@),
    {
        let n = self.levels.len();
        if n == 0 {
            NavStep::Leave
        } else if self.levels[n - 1].graph.is_none() {
            NavStep::Fetch
        } else {
            NavStep::Show
        }
    }

    /// The way so far; none is shown on the first level.
    pub fn breadcrumb(&self) -> (r: Option<String>)
        ensures
            text::opt(r) == (if self.levels@.len() > 1 {
                Some(text::joined(displays(self.levels@), " › "@))
            } else {
                None
            }),
    {
        if self.levels.len() <= 1 {
            return None;
        }
        let ghost all = displays(self.levels@);
        let mut names: Vec<String> = Vec::new();
        let mut i: usize = 0;
        while i < self.levels.len()
            invariant
                i <= self.levels@.len(),
                all == displays(self.levels@),
                text::views(names@) == all.take(i as int),
            decreases self.levels.len() - i,
        {
            broadcast use text::views_push;

            proof {
                lists::take_next(all, i as int);
            }
            names.push(self.levels[i].display.clone());
            i += 1;
        }
        proof {
            lists::take_all(all);
        }
        Some(text::join(&names, " › "))
    }

    /// The searches for the graph of the present level.
    pub fn queries(&self) -> (r: Vec<String>)
        requires
            self.levels@.len() > 0,
        ensures
            text::views(r@) == level_queries(self.root@, self.levels@),
    {
        let n = self.levels.len();
        let top = &self.levels[n - 1];
        if n == 1 {
            let r = vec![top.search.clone()];
            assert(text::views(r@) =~= seq![top.search@]);
            r
        } else {
            let r = vec![
                top.search.clone(),
                text::concat3(&self.root, " ", &top.term),
                top.term.clone(),
            ];
            assert(text::views(r@) =~= level_queries(self.root@, self.levels@));
            r
        }
    }

    /// The index of the search for the graph of the present level to make next, after `tried`
    /// searches of which the last found `found` pieces of news: once one finds something, no other
    /// is made.
    pub fn next_query(&self, tried: usize, found: usize) -> (r: Option<usize>)
        ensures
            r == (if found == 0 && tried < level_queries(self.root@, self.levels@).len() {
                Some(tried)
            } else {
                None
            }),
    {
        let n: usize = if self.levels.len() == 1 {
            1
        } else {
            3
        };
        if found == 0 && tried < n {
            Some(tried)
        } else {
            None
        }
    }

    /// Goes back to the level above; its graph is still there.
    pub fn back(&mut self)
        requires
            old(self).levels@.len() > 0,
        ensures
            went_back(*old(self), *final(self)),
            known_above(old(self).levels@) ==> known_above(final(self).levels@),
    {
        let _ = self.levels.pop();
        assert(self.levels@ =~= old(self).levels@.drop_last());
    }

    /// Takes the number of pieces of news that were found for the present level: without any it is
    /// left. Says whether the level stays.
    pub fn on_fetched(&mut self, found: usize) -> (stays: bool)
        requires
            old(self).levels@.len() > 0,
        ensures
            stays == (found > 0),
            final(self).root == old(self).root,
            final(self).levels@ == (if found > 0 {
                old(self).levels@
            } else {
                old(self).levels@.drop_last()
            }),
            known_above(old(self).levels@) ==> known_above(final(self).levels@),
    {
        if found == 0 {
            self.back();
            false
        } else {
            true
        }
    }

    /// Takes the graph of the present level: without clusters the level is left. Says whether it
    /// stays.
    pub fn on_graph(&mut self, kg: KnowledgeGraph) -> (stays: bool)
        requires
            old(self).levels@.len() > 0,
        ensures
            stays == (kg.clusters@.len() > 0),
            final(self).root == old(self).root,
            final(self).levels@ == (if kg.clusters@.len() > 0 {
                old(self).levels@.drop_last().push(
                    (Level { graph: Some(kg), ..old(self).levels@.last() }),
                )
            } else {
                old(self).levels@.drop_last()
            }),
            known_above(old(self).levels@) ==> known_above(final(self).levels@),
    {
        let ghost before = self.levels@;
        if kg.clusters.len() == 0 {
            self.back();
            return false;
        }
        let top = self.levels.pop();
        if let Some(l) = top {
            let mut l = l;
            l.graph = Some(kg);
            self.levels.push(l);
        }
        assert(self.levels@ =~= before.drop_last().push(
            (Level { graph: Some(kg), ..before.last() }),
        ));
        true
    }

    /// The label that leads back.
    pub fn back_label(&self) -> (r: &'static str)
        ensures
            r@ == back_text(self.levels@.len()),
    {
        if self.levels.len() > 1 {
            "← 返回上一層"
        } else {
            "← 返回主選單"
        }
    }

    /// Takes the line that was chosen among the nodes of the present graph: the label that leads
    /// back does so, and a node is found by its whole line.
    pub fn on_menu(&mut self, choices: &Vec<NodeChoice>, sel: &str) -> (r: MenuStep)
        requires
            old(self).levels@.len() > 0,
        ensures
            final(self).root == old(self).root,
            ({
                let back = sel@ == back_text(old(self).levels@.len());
                let hit = chosen(lists::views(choices@), sel@);
                &&& final(self).levels@ == (if back {
                    old(self).levels@.drop_last()
                } else {
                    old(self).levels@
                })
                &&& r is Back == back
                &&& r is Node == (!back && hit is Some)
                &&& r matches MenuStep::Node { cluster, node } ==> cluster@ == hit->0.cluster
                    && node@ == hit->0.node
            }),
            known_above(old(self).levels@) ==> known_above(final(self).levels@),
    {
        if same(sel, self.back_label()) {
            self.back();
            return MenuStep::Back;
        }
        let ghost all = lists::views(choices@);
        let mut i: usize = 0;
        assert(all.skip(0) =~= all);
        while i < choices.len()
            invariant
                i <= choices@.len(),
                all == lists::views(choices@),
                chosen(all, sel@) == chosen(all.skip(i as int), sel@),
                self.root == old(self).root,
                self.levels@ == old(self).levels@,
                sel@ != back_text(old(self).levels@.len()),
            decreases choices.len() - i,
        {
            assert(all.skip(i as int).skip(1) =~= all.skip(i + 1));
            if same(&choices[i].line, sel) {
                return MenuStep::Node {
                    cluster: choices[i].cluster.clone(),
                    node: choices[i].node.clone(),
                };
            }
            i += 1;
        }
        MenuStep::Again
    }

    /// Goes down to a node: it is searched with the keyword and the level above before its word.
    pub fn deeper(&mut self, node: &str, term: &str)
        requires
            old(self).levels@.len() > 0,
        ensures
            went_down(*old(self), *final(self), node@, term@),
            known_above(old(self).levels@) && old(self).levels@.last().graph is Some
                ==> known_above(final(self).levels@),
    {
        let n = self.levels.len();
        let search = text::concat5(&self.root, " ", &self.levels[n - 1].display, " ", term);
        let l = Level {
            display: node.to_owned(),
            search,
            term: term.to_owned(),
            graph: None,
        };
        let ghost before = self.levels@;
        self.levels.push(l);
        assert(self.levels@.drop_last() =~= before);
        assert forall|i: int| 0 <= i < n && known_above(before) && before.last().graph is Some implies (
        #[trigger] self.levels@[i]).graph is Some by {
            assert(self.levels@[i] == before[i]);
        }
    }
}

/// Going down and back again leads to the levels as they were, with every graph that was known.
pub proof fn going_back_finds_what_was_left(
    a: Navigation,
    b: Navigation,
    c: Navigation,
    node: Seq<char>,
    term: Seq<char>,
)
    requires
        went_down(a, b, node, term),
        went_back(b, c),
    ensures
        c.root == a.root,
        c.levels@ == a.levels@,
{
}

/// Going back never leads to a search: the level above is shown from the graph that is known, or
/// the way is at its end.
pub proof fn going_back_needs_no_search(a: Navigation, b: Navigation)
    requires
        a.levels@.len() > 0,
        known_above(a.levels@),
        went_back(a, b),
    ensures
        known_above(b.levels@),
        next_step(b.levels@) == (if a.levels@.len() == 1 {
            NavStep::Leave
        } else {
            NavStep::Show
        }),
{
    let n = b.levels@.len();
    assert forall|i: int| 0 <= i < n implies (#[trigger] b.levels@[i]).graph is Some by {
        assert(b.levels@[i] == a.levels@[i]);
    }
}

/// A node that is listed is found by its line, if no other has the same line before it.
pub proof fn listed_nodes_are_found(choices: Seq<Choice>, i: int)
    requires
        0 <= i < choices.len(),
        forall|j: int| 0 <= j < i ==> #[trigger] choices[j].line != choices[i].line,
    ensures
        chosen(choices, choices[i].line) == Some(choices[i]),
    decreases i,
{
    if i > 0 {
        assert(choices[0].line != choices[i].line);
        let rest = choices.skip(1);
        assert forall|j: int| 0 <= j < i - 1 implies #[trigger] rest[j].line != rest[i - 1].line by {
            assert(choices[j + 1].line != choices[i].line);
        }
        listed_nodes_are_found(rest, i - 1);
    }
}

/// What to do with a node.
#[derive(Debug, Clone, Copy, PartialEq, Eq, Structural)]
pub enum NodeAction {
    Graph,
    Repos,
    Back,
}

/// The labels of what can be done with a node.
pub const NODE_ACTIONS: [&'static str; 3] = [
    "知識圖譜 — 深入搜尋",
    "GitHub Repos — 搜尋開源專案",
    "← 返回",
];

/// What was chosen to do with a node.
pub fn node_action(label: &str) -> (r: NodeAction)
    ensures
        r == (if text::begins(label@, "←"@) {
            NodeAction::Back
        } else if text::holds(label@, "知識圖譜"@) {
            NodeAction::Graph
        } else if text::holds(label@, "GitHub Repos"@) {
            NodeAction::Repos
        } else {
            NodeAction::Back
        }),
{
    if text::starts_with(label, "←") {
        NodeAction::Back
    } else if text::contains(label, "知識圖譜") {
        NodeAction::Graph
    } else if text::contains(label, "GitHub Repos") {
        NodeAction::Repos
    } else {
        NodeAction::Back
    }
}

/// The action that is offered first for a node of a cluster.
pub fn first_action(cluster: &str) -> (r: usize)
    ensures
        r == (if cluster@ == knowledge::REPO_CLUSTER@ {
            1int
        } else {
            0
        }),
{
    if same(cluster, knowledge::REPO_CLUSTER) {
        1
    } else {
        0
    }
}

// ── Search words ───────────────────────────────────────────────────────────────

/// Whether a character is one of the common Chinese ones.
pub open spec fn is_cjk(c: char) -> bool {
    '\u{4E00}' <= c <= '\u{9FFF}'
}

/// Whether a text has Chinese characters, so that it is translated for a search.
pub open spec fn has_cjk(s: Seq<char>) -> bool {
    exists|i: int| 0 <= i < s.len() && is_cjk(#[trigger] s[i])
}

/// Whether a text is translated for a search.
pub fn needs_translation(s: &str) -> (r: bool)
    ensures
        r == has_cjk(s@),
{
    for c in it: s.chars()
        invariant
            it.seq() == s@,
            forall|j: int| 0 <= j < it.index() ==> !is_cjk(#[trigger] s@[j]),
    {
        if '\u{4E00}' <= c && c <= '\u{9FFF}' {
            assert(is_cjk(s@[it.index() as int]));
            return true;
        }
    }
    false
}

/// What the language model is asked for a translation.
pub fn translation_prompt(s: &str) -> (r: String)
    ensures
        r@ == "Translate the following technical term to a concise English search keyword (≤4 words, no explanation): "@
            + s@,
{
    text::concat2(
        "Translate the following technical term to a concise English search keyword (≤4 words, no explanation): ",
        s,
    )
}

/// The word for a search: the first line of the reply, or of the text where there is no reply.
pub open spec fn search_word(s: Seq<char>, reply: Option<Seq<char>>) -> Seq<char> {
    let all = match reply {
        Some(t) => t,
        None => s,
    };
    let lines = text::line_seq(all);
    text::trimmed(
        if lines.len() > 0 {
            lines[0]
        } else {
            s
        },
    )
}

/// The word for a search: `reply` is what the language model said, if it said anything.
pub fn translated(s: &str, reply: Option<&str>) -> (r: String)
    ensures
        r@ == search_word(s@, text::opt_str(reply)),
{
    let all = match reply {
        Some(t) => t,
        None => s,
    };
    let lines = text::lines(all);
    assert(text::views(lines@).len() == lines@.len());
    if lines.len() > 0 {
        assert(text::views(lines@)[0] == lines@[0]@);
        text::trim(&lines[0])
    } else {
        text::trim(s)
    }
}

/// A repository as it can be chosen.
pub fn repo_choice(title: &str) -> (r: String)
    ensures
        r@ == "▲ "@ + title@ + " — 深入知識圖譜"@,
{
    text::concat3("▲ ", title, " — 深入知識圖譜")
}

/// The repository in a choice: what stands between its mark and the first dash; `None` where the
/// choice leads back or has no mark.
pub open spec fn repo_in_choice(sel: Seq<char>) -> Option<Seq<char>> {
    if text::begins(sel, "←"@) {
        None
    } else {
        match text::after_prefix(sel, "▲ "@) {
            Some(s) => Some(
                match text::find(s, " — "@) {
                    Some(i) => s.take(i),
                    None => s,
                },
            ),
            None => None,
        }
    }
}

/// The repository in a choice.
pub fn chosen_repo(sel: &str) -> (r: Option<String>)
    ensures
        text::opt(r) == repo_in_choice(sel@),
{
    if text::starts_with(sel, "←") {
        return None;
    }
    match text::strip_prefix(sel, "▲ ") {
        Some(s) => {
            let v = text::chars_of(&s);
            let dash = text::chars_of(" — ");
            match text::find_chars(&v, &dash, 0) {
                Some(i) => {
                    let r = text::string_of(&v, 0, i);
                    assert(r@ =~= s@.take(i as int));
                    Some(r)
                },
                None => Some(s),
            }
        },
        None => None,
    }
}

// ── Laws ─────────────────────────────────────────────────────────────────────

/// Every node of a graph can be chosen: its cluster and its name stand in a choice, and in the line
/// that is shown of it, with its description.
pub proof fn every_node_can_be_chosen(clusters: Seq<KGCluster>, i: int, j: int)
    requires
        0 <= i < clusters.len(),
        0 <= j < clusters[i].nodes@.len(),
    ensures
        exists|k: int|
            0 <= k < all_choices(clusters).len() && {
                let c = #[trigger] all_choices(clusters)[k];
                &&& c.cluster == clusters[i].name@
                &&& c.node == clusters[i].nodes@[j].name@
                &&& text::holds(c.line, c.cluster)
                &&& text::holds(c.line, c.node)
                &&& text::holds(c.line, clusters[i].nodes@[j].description@)
            },
    decreases clusters.len(),
{
    broadcast use {text::holds_in_front, text::holds_at_end};

    let a = clusters.drop_last();
    let x = all_choices(a);
    let y = cluster_choices(clusters.last());
    let all = all_choices(clusters);
    if i < clusters.len() - 1 {
        every_node_can_be_chosen(a, i, j);
        let k = choose|k: int|
            0 <= k < x.len() && {
                let c = #[trigger] x[k];
                &&& c.cluster == a[i].name@
                &&& c.node == a[i].nodes@[j].name@
                &&& text::holds(c.line, c.cluster)
                &&& text::holds(c.line, c.node)
                &&& text::holds(c.line, a[i].nodes@[j].description@)
            };
        assert(all[k] == x[k]);
        assert(a[i] == clusters[i]);
    } else {
        let n = clusters[i].nodes@[j];
        let c = node_choice(clusters[i].name@, n);
        assert(y[j] == c);
        assert(all[x.len() + j] == c);
        let front = knowledge::cluster_mark(clusters[i].name@) + " ["@ + clusters[i].name@ + "]  "@
            + n.name@;
        assert(text::holds(front, clusters[i].name@) && text::holds(front, n.name@));
        if n.description@.len() == 0 {
            assert(n.description@ =~= Seq::empty());
            text::holds_nothing(front);
        } else {
            assert(c.line == front + "  — "@ + n.description@);
            assert(text::holds(c.line, clusters[i].name@) && text::holds(c.line, n.name@));
            assert(text::holds(c.line, n.description@));
        }
    }
}

/// What is chosen by a line is a choice with that line.
pub proof fn chosen_lines_are_listed(choices: Seq<Choice>, line: Seq<char>)
    ensures
        chosen(choices, line) matches Some(c) ==> c.line == line && choices.contains(c),
        chosen(choices, line) is None ==> forall|i: int|
            0 <= i < choices.len() ==> (#[trigger] choices[i]).line != line,
    decreases choices.len(),
{
    if choices.len() > 0 {
        if choices[0].line == line {
            assert(choices.contains(choices[0]));
        } else {
            let rest = choices.skip(1);
            chosen_lines_are_listed(rest, line);
            if let Some(c) = chosen(rest, line) {
                let k = choose|k: int| 0 <= k < rest.len() && rest[k] == c;
                assert(choices[k + 1] == c);
            } else {
                assert forall|i: int| 0 <= i < choices.len() implies (#[trigger] choices[i]).line
                    != line by {
                    if i > 0 {
                        assert(rest[i - 1].line != line);
                    }
                }
            }
        }
    }
}

/// Below the first level a search begins with the keyword, the level above and the word, goes on
/// with the keyword and the word, and ends with the word alone; on the first level the keyword is
/// searched.
pub proof fn searches_become_shorter(a: Navigation, b: Navigation, node: Seq<char>, term: Seq<char>)
    requires
        a.levels@.len() > 0,
        went_down(a, b, node, term),
    ensures
        ({
            let q = level_queries(b.root@, b.levels@);
            &&& q.len() == 3
            &&& q[0] == a.root@ + " "@ + a.levels@.last().display@ + " "@ + term
            &&& q[1] == a.root@ + " "@ + term
            &&& q[2] == term
        }),
        a.levels@.len() == 1 ==> level_queries(a.root@, a.levels@) == seq![a.levels@[0].search@],
{
}

/// The way shows every level from the first to the present one.
pub proof fn the_way_shows_every_level(levels: Seq<Level>, i: int)
    requires
        0 <= i < levels.len(),
    ensures
        text::holds(text::joined(displays(levels), " › "@), levels[i].display@),
{
    text::joined_holds_each(displays(levels), " › "@, i);
}

/// A repository that is listed is the one that is chosen by its line.
pub proof fn listed_repositories_are_chosen(title: Seq<char>)
    requires
        !text::holds(title + " —"@, " — "@),
    ensures
        repo_in_choice("▲ "@ + title + " — 深入知識圖譜"@) == Some(title),
{
    let front = "▲ "@;
    let tail = " — 深入知識圖譜"@;
    let dash = " — "@;
    let sel = front + title + tail;
    reveal_strlit("▲ ");
    reveal_strlit("←");
    reveal_strlit(" — ");
    reveal_strlit(" —");
    reveal_strlit(" — 深入知識圖譜");
    assert(!text::begins(sel, "←"@)) by {
        if text::begins(sel, "←"@) {
            assert(sel.subrange(0, 1)[0] == '←');
            assert(sel[0] == '▲');
        }
    }
    assert(sel.subrange(0, 2) =~= front);
    let s = title + tail;
    assert(sel.skip(2) =~= s);
    let rest = tail.skip(3);
    assert(tail =~= dash + rest);
    assert(s =~= title + dash + rest);
    assert(dash.drop_last() =~= " —"@);
    text::found_behind(title, dash, rest);
    assert(s.take(title.len() as int) =~= title);
}

/// A text is translated exactly where it has a Chinese character, and the word for a search is the
/// first line of the reply without white space round it.
pub proof fn words_come_from_the_first_line(s: Seq<char>, line: Seq<char>, rest: Seq<char>)
    requires
        !line.contains('\n'),
        line.len() > 0,
        line.last() != '\r',
    ensures
        search_word(s, Some(line + seq!['\n'] + rest)) == text::trimmed(line),
        search_word(s, Some(line)) == text::trimmed(line),
        search_word(line, None) == text::trimmed(line),
{
    text::first_line(line, rest);
}

/// A text with any common Chinese character is translated, and one of other characters is not.
pub proof fn chinese_texts_are_translated(s: Seq<char>, i: int)
    requires
        0 <= i < s.len(),
    ensures
        '\u{4E00}' <= s[i] <= '\u{9FFF}' ==> has_cjk(s),
        (forall|j: int| 0 <= j < s.len() ==> #[trigger] s[j] < '\u{4E00}') ==> !has_cjk(s),
        (forall|j: int| 0 <= j < s.len() ==> #[trigger] s[j] > '\u{9FFF}') ==> !has_cjk(s),
{
    if '\u{4E00}' <= s[i] <= '\u{9FFF}' {
        assert(is_cjk(s[i]));
    }
}

} // verus!
