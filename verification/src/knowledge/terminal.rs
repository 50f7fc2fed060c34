//! A graph of knowledge on a terminal.
use vstd::prelude::*;
use crate::knowledge::{KGCluster, KGNode, KGRelation};
use crate::lists;
use crate::text;
use crate::ui;

verus! {

/// The width of the picture in columns.
pub const WIDTH: usize = 76;

/// The width of a node's name before its description.
pub const NAME_WIDTH: usize = 22;

/// Spaces.
pub open spec fn spaces(n: nat) -> Seq<char> {
    Seq::new(n, |i: int| ' ')
}

/// A text in the middle of a line between borders: the spaces on the left are half of what is
/// left beside it, rounded down, and those on the right are the rest.
pub open spec fn centered(s: Seq<char>, inner: nat) -> Seq<char> {
    let left = ui::room(s, inner) / 2;
    let right = ui::room(s, inner) - left;
    "│"@ + spaces(left) + s + spaces(right as nat) + "│"@
}

/// A text in the middle of a line between borders.
pub fn center_line(s: &str, inner: usize) -> (r: String)
    ensures
        r@ == centered(s@, inner as nat),
{
    let room = ui::padding(s, inner);
    let left: usize = room / 2;
    text::concat5(
        "│",
        &text::repeat_char(' ', left),
        s,
        &text::repeat_char(' ', room - left),
        "│",
    )
}

/// A line of a cluster: the branch before a node, the node's name, the spaces behind it, and its
/// description.
pub struct NodeLine {
    pub branch: &'static str,
    pub name: String,
    pub pad: usize,
    pub description: String,
}

/// Whether a line is that of a node; `last` says whether it is the last of its cluster.
pub open spec fn is_line_of(l: NodeLine, n: KGNode, last: bool) -> bool {
    &&& l.branch@ == (if last {
        "└─"@
    } else {
        "├─"@
    })
    &&& l.name@ == n.name@
    &&& l.pad == ui::room(n.name@, NAME_WIDTH as nat)
    &&& l.description@ == n.description@
}

/// The lines of a cluster.
pub fn cluster_lines(cluster: &KGCluster) -> (r: Vec<NodeLine>)
    ensures
        r@.len() == cluster.nodes@.len(),
        forall|i: int|
            0 <= i < r@.len() ==> is_line_of(
                #[trigger] r@[i],
                cluster.nodes@[i],
                i == cluster.nodes@.len() - 1,
            ),
{
    let mut r: Vec<NodeLine> = Vec::new();
    let mut i: usize = 0;
    while i < cluster.nodes.len()
        invariant
            i <= cluster.nodes@.len(),
            r@.len() == i,
            forall|j: int|
                0 <= j < i ==> is_line_of(
                    #[trigger] r@[j],
                    cluster.nodes@[j],
                    j == cluster.nodes@.len() - 1,
                ),
        decreases cluster.nodes.len() - i,
    {
        let n = &cluster.nodes[i];
        r.push(
            NodeLine {
                branch: if i == cluster.nodes.len() - 1 {
                    "└─"
                } else {
                    "├─"
                },
                name: n.name.clone(),
                pad: ui::padding(&n.name, NAME_WIDTH),
                description: n.description.clone(),
            },
        );
        i += 1;
    }
    r
}

/// The widest of some texts, in columns.
pub open spec fn widest(s: Seq<KGRelation>) -> usize
    decreases s.len(),
{
    if s.len() == 0 {
        0
    } else {
        let w = widest(s.drop_last());
        if ui::columns(s.last().from@) > w {
            ui::columns(s.last().from@)
        } else {
            w
        }
    }
}

/// The spaces behind the first node of each relation, so that what follows is aligned.
pub fn relation_pads(relations: &Vec<KGRelation>) -> (r: Vec<usize>)
    ensures
        r@.len() == relations@.len(),
        forall|i: int|
            0 <= i < r@.len() ==> #[trigger] r@[i] == widest(relations@) - ui::columns(
                relations@[i].from@,
            ),
{
    let ghost all = relations@;
    let mut w: usize = 0;
    let mut i: usize = 0;
    while i < relations.len()
        invariant
            i <= relations@.len(),
            all == relations@,
            w == widest(all.take(i as int)),
        decreases relations.len() - i,
    {
        proof {
            assert(all.take(i + 1).drop_last() =~= all.take(i as int));
            assert(all.take(i + 1).last() == relations@[i as int]);
        }
        let d = ui::display_width(&relations[i].from);
        if d > w {
            w = d;
        }
        i += 1;
    }
    proof {
        lists::take_all(all);
    }
    let mut r: Vec<usize> = Vec::new();
    let mut i: usize = 0;
    while i < relations.len()
        invariant
            i <= relations@.len(),
            all == relations@,
            w == widest(all),
            r@.len() == i,
            forall|j: int|
                0 <= j < i ==> #[trigger] r@[j] == widest(all) - ui::columns(all[j].from@),
        decreases relations.len() - i,
    {
        proof {
            widest_is_widest(all, i as int);
        }
        r.push(w - ui::display_width(&relations[i].from));
        i += 1;
    }
    r
}

/// No text is wider than the widest.
pub proof fn widest_is_widest(s: Seq<KGRelation>, i: int)
    requires
        0 <= i < s.len(),
    ensures
        ui::columns(s[i].from@) <= widest(s),
    decreases s.len(),
{
    if i < s.len() - 1 {
        widest_is_widest(s.drop_last(), i);
    }
}

/// The lines round the centre: the upper border of its box, what stands before and in it, the
/// lower border, and the stem.
pub struct CenterBox {
    pub top: String,
    pub indent: String,
    pub label: String,
    pub bottom: String,
    pub stem: String,
}

/// The columns before the box of a label.
pub open spec fn box_indent(label: Seq<char>) -> nat {
    if ui::columns(label) + 2 <= WIDTH {
        ((WIDTH - (ui::columns(label) + 2)) / 2) as nat
    } else {
        0
    }
}

/// Dashes.
pub open spec fn dashes(n: nat) -> Seq<char> {
    Seq::new(n, |i: int| '─')
}

/// The lines round a centre.
pub fn center_box(center: &str) -> (r: CenterBox)
    ensures
        ({
            let label = "  "@ + center@ + "  "@;
            let w = ui::columns(label) as nat;
            &&& r.label@ == label
            &&& r.indent@ == spaces(box_indent(label))
            &&& r.top@ == spaces(box_indent(label)) + "┌"@ + dashes(w) + "┐"@
            &&& r.bottom@ == spaces(box_indent(label)) + "└"@ + dashes(w) + "┘"@
            &&& r.stem@ == spaces(box_indent(label) + w / 2 + 1) + "│"@
        }),
{
    let label = text::concat3("  ", center, "  ");
    let w = ui::display_width(&label);
    let n: usize = if w <= WIDTH - 2 {
        (WIDTH - (w + 2)) / 2
    } else {
        0
    };
    let indent = text::repeat_char(' ', n);
    let line = text::repeat_char('─', w);
    CenterBox {
        top: text::concat4(&indent, "┌", &line, "┐"),
        bottom: text::concat4(&indent, "└", &line, "┘"),
        stem: text::concat2(&text::repeat_char(' ', n + w / 2 + 1), "│"),
        indent,
        label,
    }
}

/// The title of the picture.
pub fn graph_title(center: &str) -> (r: String)
    ensures
        r@ == "知識圖譜："@ + center@,
{
    text::concat2("知識圖譜：", center)
}

// ── Laws ─────────────────────────────────────────────────────────────────────

/// A text stands in the middle of its line: the spaces on both sides fill the line and differ by
/// one at most.
pub proof fn texts_stand_in_the_middle(s: Seq<char>, inner: nat)
    requires
        ui::columns(s) <= inner,
    ensures
        exists|left: nat, right: nat|
            #![trigger spaces(left), spaces(right)]
            {
                &&& centered(s, inner) == "│"@ + spaces(left) + s + spaces(right) + "│"@
                &&& left + ui::columns(s) + right == inner
                &&& left <= right <= left + 1
            },
{
    let left = ui::room(s, inner) / 2;
    let right = (ui::room(s, inner) - left) as nat;
    assert(centered(s, inner) == "│"@ + spaces(left) + s + spaces(right) + "│"@);
    assert(spaces(left).len() == left && spaces(right).len() == right);
}

/// The line of a node shows its name and its description, and only the last closes the branch.
pub proof fn lines_show_their_nodes(l: NodeLine, n: KGNode, last: bool)
    requires
        is_line_of(l, n, last),
    ensures
        l.name@ == n.name@,
        l.description@ == n.description@,
        last <==> l.branch@ == "└─"@,
        ui::columns(n.name@) <= 22 ==> l.pad + ui::columns(n.name@) == 22,
{
    reveal_strlit("└─");
    reveal_strlit("├─");
    assert("└─"@[0] != "├─"@[0]);
}

/// The widest text is one of the texts.
pub proof fn the_widest_is_there(s: Seq<KGRelation>)
    requires
        s.len() > 0,
    ensures
        exists|i: int| 0 <= i < s.len() && ui::columns((#[trigger] s[i]).from@) == widest(s),
    decreases s.len(),
{
    let a = s.drop_last();
    let n = s.len() - 1;
    if a.len() == 0 {
        assert(widest(a) == 0);
        assert(ui::columns(s[n].from@) == widest(s));
    } else {
        the_widest_is_there(a);
        let i = choose|i: int| 0 <= i < a.len() && ui::columns((#[trigger] a[i]).from@) == widest(a);
        assert(s[i] == a[i]);
        assert(s[n] == s.last());
    }
}

/// The box of a label stands in the middle of the picture, one column more on the right at most.
pub proof fn boxes_stand_in_the_middle(label: Seq<char>)
    requires
        ui::columns(label) + 2 <= WIDTH,
    ensures
        2 * box_indent(label) + ui::columns(label) + 2 <= WIDTH,
        WIDTH <= 2 * box_indent(label) + ui::columns(label) + 3,
{
}

} // verus!
