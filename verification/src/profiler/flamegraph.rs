//! The flame graph: one rectangle for each call, as wide as the call
//! was long and one row below the call that made it, drawn as an SVG
//! document.

use vstd::prelude::*;
use vstd::string::StringExecFns;
use crate::text::{decimal, escaped, push_decimal, push_escaped};
use super::profile::{ProfileData, ProfileDataView};
use super::tree::{node_views, CallNodeView, CallTree, CallTreeView};
use super::units::Duration;

verus! {

/// Width of the drawing that [`generate_flame_graph`] makes.
pub const CANVAS_WIDTH: u32 = 1200;

/// Height of one row of rectangles.
pub const ROW_HEIGHT: u32 = 16;

/// The rectangle of one call.
#[derive(Clone, Debug, PartialEq, Eq)]
pub struct FlameRect {
    /// Name of the called function.
    pub name: String,
    /// Row of the rectangle, counted from the top.
    pub depth: usize,
    /// Left edge.
    pub x: u64,
    /// Width.
    pub width: u64,
    /// Inclusive time of the call.
    pub duration: Duration,
}

/// A `FlameRect` as plain mathematical values.
pub struct FlameRectView {
    pub name: Seq<char>,
    pub depth: nat,
    pub x: nat,
    pub width: nat,
    pub duration: nat,
}

impl View for FlameRect {
    type V = FlameRectView;

    open spec fn view(&self) -> FlameRectView {
        FlameRectView {
            name: self.name@,
            depth: self.depth as nat,
            x: self.x as nat,
            width: self.width as nat,
            duration: self.duration.nanos as nat,
        }
    }
}

/// The views of a sequence of rectangles, in the same order.
pub open spec fn rect_views(rects: Seq<FlameRect>) -> Seq<FlameRectView> {
    Seq::new(rects.len(), |i: int| rects[i]@)
}

/// Where the time `at` of a run of length `span` falls on a canvas of
/// the given width: in proportion, rounded down. In a run of no length
/// everything falls on the left edge.
pub open spec fn edge(at: nat, span: nat, canvas: nat) -> nat {
    if span == 0 {
        0
    } else {
        ((at * canvas) / span) as nat
    }
}

/// The rectangle of a call: from where its entry falls to where its end
/// falls.
pub open spec fn rect_of(node: CallNodeView, span: nat, canvas: nat) -> FlameRectView {
    FlameRectView {
        name: node.name,
        depth: node.depth,
        x: edge(node.start, span, canvas),
        width: (edge(node.start + node.duration, span, canvas) - edge(node.start, span, canvas)) as nat,
        duration: node.duration,
    }
}

/// The rectangles of a call tree, one for each call in the order of
/// entry.
pub open spec fn layout_of(tree: CallTreeView, canvas: nat) -> Seq<FlameRectView> {
    Seq::new(tree.nodes.len(), |i: int| rect_of(tree.nodes[i], tree.span, canvas))
}

/// A later time falls no further left than an earlier one, and no time
/// of the run falls outside the canvas.
pub proof fn lemma_edge(earlier: nat, later: nat, span: nat, canvas: nat)
    requires
        earlier <= later <= span,
    ensures
        edge(earlier, span, canvas) <= edge(later, span, canvas) <= canvas,
{
    if span > 0 {
        assert((earlier * canvas) / span <= (later * canvas) / span) by (nonlinear_arith)
            requires
                0 <= earlier <= later,
                span > 0,
                canvas >= 0,
        ;
        assert((later * canvas) / span <= canvas) by (nonlinear_arith)
            requires
                0 <= later <= span,
                span > 0,
                canvas >= 0,
        ;
        assert(0 <= (earlier * canvas) / span) by (nonlinear_arith)
            requires
                0 <= earlier,
                span > 0,
                canvas >= 0,
        ;
    }
}

/// In the layout of a call tree every rectangle lies on the canvas, and
/// the rectangle of a call lies within that of the call that made it,
/// one row below.
pub proof fn lemma_layout_nested(tree: CallTreeView, canvas: nat, i: int)
    requires
        tree.wf(),
        0 <= i < tree.nodes.len(),
    ensures
        layout_of(tree, canvas)[i].x + layout_of(tree, canvas)[i].width <= canvas,
        tree.nodes[i].parent matches Some(p) ==> {
            let child = layout_of(tree, canvas)[i];
            let parent = layout_of(tree, canvas)[p];
            &&& child.depth == parent.depth + 1
            &&& parent.x <= child.x
            &&& child.x + child.width <= parent.x + parent.width
        },
{
    let node = tree.nodes[i];
    assert(tree.node_ok(i));
    lemma_edge(node.start, node.start + node.duration, tree.span, canvas);
    if let Some(p) = node.parent {
        let caller = tree.nodes[p];
        assert(tree.node_ok(p));
        lemma_edge(caller.start, caller.start + caller.duration, tree.span, canvas);
        lemma_edge(caller.start, node.start, tree.span, canvas);
        lemma_edge(node.start + node.duration, caller.start + caller.duration, tree.span, canvas);
    }
}

fn place(at: u64, span: u64, canvas: u32) -> (x: u64)
    requires
        at <= span,
    ensures
        x == edge(at as nat, span as nat, canvas as nat),
        x <= canvas,
{
    if span == 0 {
        return 0;
    }
    proof {
        lemma_edge(at as nat, at as nat, span as nat, canvas as nat);
        assert(at * canvas <= u64::MAX * u32::MAX) by (nonlinear_arith)
            requires
                at <= u64::MAX,
                canvas <= u32::MAX,
        ;
    }
    let scaled: u128 = at as u128 * canvas as u128;
    (scaled / span as u128) as u64
}

/// Lays the calls of a tree out on a canvas of the given width.
pub fn layout(tree: &CallTree, canvas: u32) -> (rects: Vec<FlameRect>)
    ensures
        rect_views(rects@) == layout_of(tree@, canvas as nat),
{
    let nodes = tree.nodes();
    let span: u64 = tree.span();
    let mut rects: Vec<FlameRect> = Vec::new();
    let mut i: usize = 0;
    while i < nodes.len()
        invariant
            i <= nodes.len(),
            rects.len() == i,
            span == tree@.span,
            tree@.wf(),
            node_views(nodes@) == tree@.nodes,
            forall|k: int|
                0 <= k < i ==> (#[trigger] rects[k])@ == rect_of(
                    tree@.nodes[k],
                    tree@.span,
                    canvas as nat,
                ),
        decreases nodes.len() - i,
    {
        let node = &nodes[i];
        proof {
            assert(tree@.nodes[i as int] == node@);
            assert(tree@.node_ok(i as int));
            lemma_edge(
                node.start as nat,
                (node.start + node.duration) as nat,
                span as nat,
                canvas as nat,
            );
        }
        let left: u64 = place(node.start, span, canvas);
        let right: u64 = place(node.start + node.duration, span, canvas);
        rects.push(
            FlameRect {
                name: node.name.clone(),
                depth: node.depth,
                x: left,
                width: right - left,
                duration: Duration { nanos: node.duration },
            },
        );
        i += 1;
    }
    proof {
        assert(rect_views(rects@) =~= layout_of(tree@, canvas as nat));
    }
    rects
}

/// The number of rows that the rectangles take up.
pub open spec fn rows(rects: Seq<FlameRectView>) -> nat
    decreases rects.len(),
{
    if rects.len() == 0 {
        0
    } else {
        let above = rows(rects.drop_last());
        if rects.last().depth + 1 > above {
            rects.last().depth + 1
        } else {
            above
        }
    }
}

/// The line that draws one rectangle.
pub open spec fn rect_line(rect: FlameRectView) -> Seq<char> {
    "<rect x=\""@ + decimal(rect.x) + "\" y=\""@ + decimal(rect.depth * ROW_HEIGHT as nat)
        + "\" width=\""@ + decimal(rect.width) + "\" height=\"16\" fill=\"#d9602b\"><title>"@
        + escaped(rect.name) + " ("@ + decimal(rect.duration) + " ns)</title></rect>\n"@
}

/// The lines that draw the rectangles, in their order.
pub open spec fn rect_lines(rects: Seq<FlameRectView>) -> Seq<char>
    decreases rects.len(),
{
    if rects.len() == 0 {
        Seq::empty()
    } else {
        rect_lines(rects.drop_last()) + rect_line(rects.last())
    }
}

/// The SVG document that shows the rectangles under the given title.
pub open spec fn document(title: Seq<char>, rects: Seq<FlameRectView>, canvas: nat) -> Seq<char> {
    "<svg xmlns=\"http://www.w3.org/2000/svg\" width=\""@ + decimal(canvas) + "\" height=\""@
        + decimal(rows(rects) * ROW_HEIGHT as nat) + "\">\n<title>"@ + escaped(title)
        + "</title>\n"@ + rect_lines(rects) + "</svg>\n"@
}

fn count_rows(rects: &Vec<FlameRect>) -> (n: u128)
    ensures
        n == rows(rect_views(rects@)),
        n <= usize::MAX + 1,
{
    let mut n: u128 = 0;
    let mut i: usize = 0;
    proof {
        assert(rect_views(rects@).take(0) =~= Seq::<FlameRectView>::empty());
    }
    while i < rects.len()
        invariant
            i <= rects.len(),
            n == rows(rect_views(rects@).take(i as int)),
            n <= usize::MAX + 1,
        decreases rects.len() - i,
    {
        proof {
            let views = rect_views(rects@);
            assert(views.take(i + 1).drop_last() =~= views.take(i as int));
            assert(views.take(i + 1).last() == rects@[i as int]@);
        }
        let below: u128 = rects[i].depth as u128 + 1;
        if below > n {
            n = below;
        }
        i += 1;
    }
    proof {
        assert(rect_views(rects@).take(rects.len() as int) =~= rect_views(rects@));
    }
    n
}

fn push_rect_line(out: &mut String, rect: &FlameRect)
    ensures
        final(out)@ == old(out)@ + rect_line(rect@),
{
    out.append("<rect x=\"");
    push_decimal(out, rect.x as u128);
    out.append("\" y=\"");
    push_decimal(out, rect.depth as u128 * ROW_HEIGHT as u128);
    out.append("\" width=\"");
    push_decimal(out, rect.width as u128);
    out.append("\" height=\"16\" fill=\"#d9602b\"><title>");
    push_escaped(out, rect.name.as_str());
    out.append(" (");
    push_decimal(out, rect.duration.nanos as u128);
    out.append(" ns)</title></rect>\n");
    proof {
        assert(out@ =~= old(out)@ + rect_line(rect@));
    }
}

/// Draws the rectangles as an SVG document.
pub fn render(title: &str, rects: &Vec<FlameRect>, canvas: u32) -> (text: String)
    ensures
        text@ == document(title@, rect_views(rects@), canvas as nat),
{
    let height: u128 = count_rows(rects) * ROW_HEIGHT as u128;
    let mut out = String::from_str("<svg xmlns=\"http://www.w3.org/2000/svg\" width=\"");
    push_decimal(&mut out, canvas as u128);
    out.append("\" height=\"");
    push_decimal(&mut out, height);
    out.append("\">\n<title>");
    push_escaped(&mut out, title);
    out.append("</title>\n");
    let ghost head = out@;
    let ghost views = rect_views(rects@);
    let mut i: usize = 0;
    proof {
        assert(views.take(0) =~= Seq::<FlameRectView>::empty());
        assert(out@ =~= head + rect_lines(views.take(0)));
    }
    while i < rects.len()
        invariant
            i <= rects.len(),
            views == rect_views(rects@),
            out@ == head + rect_lines(views.take(i as int)),
        decreases rects.len() - i,
    {
        proof {
            assert(views.take(i + 1).drop_last() =~= views.take(i as int));
            assert(views.take(i + 1).last() == rects@[i as int]@);
        }
        push_rect_line(&mut out, &rects[i]);
        proof {
            assert(out@ =~= head + rect_lines(views.take(i + 1)));
        }
        i += 1;
    }
    out.append("</svg>\n");
    proof {
        assert(views.take(rects.len() as int) =~= views);
        assert(out@ =~= document(title@, views, canvas as nat));
    }
    out
}

/// The title of a profile's flame graph: the contract's path, followed
/// by `::` and the method where one was invoked.
pub open spec fn graph_title(profile: ProfileDataView) -> Seq<char> {
    match profile.method {
        Some(m) => profile.contract_path + "::"@ + m,
        None => profile.contract_path,
    }
}

/// Draws the flame graph of a run from its call tree, as an SVG document
/// on a canvas of [`CANVAS_WIDTH`]. The same run always gives the same
/// document.
pub fn generate_flame_graph(profile: &ProfileData, tree: &CallTree) -> (text: String)
    ensures
        text@ == document(
            graph_title(profile@),
            layout_of(tree@, CANVAS_WIDTH as nat),
            CANVAS_WIDTH as nat,
        ),
{
    let mut title = profile.contract_path().clone();
    match profile.method() {
        Some(m) => {
            title.append("::");
            title.append(m.as_str());
        },
        None => {},
    }
    let rects = layout(tree, CANVAS_WIDTH);
    render(title.as_str(), &rects, CANVAS_WIDTH)
}

} // verus!
