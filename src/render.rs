//! The translation of a document tree into scene commands.

use vstd::prelude::*;
use crate::geometry::{Affine, PathEl, Point, Transform, affine_of, outline_of, to_affine, to_bez_path};
use crate::paint::{Brush, Color, brush_of, resolvable, to_brush};
use crate::raster::{RasterImage, decode_rgba, decoded_rgba};
use crate::scene::{
    Clip, ClipView, Command, CommandView, Draw, DrawView, FillCommand, FillView, Flow, ImageCommand,
    ImageView, Layer, LayerView, Report, Scene, StrokeCommand, StrokeView, added, added_reports,
    appended, balanced, draw_views, draws_appended, extends_balanced, grows,
    lemma_draws_extend_balanced, lemma_extends_balanced_refl, lemma_extends_balanced_trans,
    lemma_grows_refl, lemma_grows_trans, lemma_wrap_balanced, reported_nodes, views,
};
use crate::style::{FillRule, copied, stroke_style_of, to_stroke};
use crate::tree::{Group, ImageKind, Node, PaintOrder, Path, Rect, Tree, node_bounds};

verus! {

/// Translation ended early because the error handler asked it to stop.
#[derive(Clone, Copy, Debug, PartialEq, Eq, Structural)]
pub struct Stopped;

/// Deals with the nodes that cannot be translated: a pattern paint, a raster
/// image that does not decode, text that was not flattened.
pub trait ErrorHandler<S> {
    /// Called once for each such report about `node`. What it leaves in
    /// `canvas` is drawn at that point of the scene, in order.
    fn handle(&mut self, canvas: &mut Vec<Draw<S>>, node: &Node<S>) -> Flow;
}

/// Marks each node that cannot be translated with a translucent red
/// rectangle over its bounding box, and goes on.
#[derive(Clone, Copy, Debug)]
pub struct DefaultErrorHandler;

/// The outline of a rectangle, clockwise from `(x0, y0)`.
pub open spec fn rect_outline<S>(r: Rect<S>) -> Seq<PathEl<S>> {
    seq![
        PathEl::MoveTo(Point { x: r.x0, y: r.y0 }),
        PathEl::LineTo(Point { x: r.x1, y: r.y0 }),
        PathEl::LineTo(Point { x: r.x1, y: r.y1 }),
        PathEl::LineTo(Point { x: r.x0, y: r.y1 }),
        PathEl::ClosePath,
    ]
}

/// Red at half alpha.
pub open spec fn placeholder_color() -> Color {
    Color { red: 255, green: 0, blue: 0, alpha: 128 }
}

/// Whether `d` is the placeholder for `node`: its bounding box, filled in red
/// at half alpha, untransformed.
pub open spec fn is_placeholder<S>(d: Draw<S>, node: Node<S>) -> bool {
    &&& d matches Draw::Fill(f)
    &&& f.rule == FillRule::NonZero
    &&& f.transform@ == Seq::<Affine<S>>::empty()
    &&& f.brush == Brush::<S>::Solid(placeholder_color())
    &&& f.brush_transform is None
    &&& f.shape@ == rect_outline(node_bounds(node))
}

/// The placeholder that the default handler draws for `node`.
pub fn placeholder<S: Copy>(node: &Node<S>) -> (r: Draw<S>)
    ensures
        is_placeholder(r, *node),
{
    let b = node.bounding_box();
    let mut shape: Vec<PathEl<S>> = Vec::new();
    shape.push(PathEl::MoveTo(Point { x: b.x0, y: b.y0 }));
    shape.push(PathEl::LineTo(Point { x: b.x1, y: b.y0 }));
    shape.push(PathEl::LineTo(Point { x: b.x1, y: b.y1 }));
    shape.push(PathEl::LineTo(Point { x: b.x0, y: b.y1 }));
    shape.push(PathEl::ClosePath);
    assert(shape@ =~= rect_outline(node_bounds(*node)));
    Draw::Fill(FillCommand {
        rule: FillRule::NonZero,
        transform: Vec::new(),
        brush: Brush::Solid(Color { red: 255, green: 0, blue: 0, alpha: 128 }),
        brush_transform: None,
        shape,
    })
}

impl<S: Copy> ErrorHandler<S> for DefaultErrorHandler {
    fn handle(&mut self, canvas: &mut Vec<Draw<S>>, node: &Node<S>) -> Flow {
        canvas.push(placeholder(node));
        Flow::Continue
    }
}

fn chain_with<S: Copy>(base: &Vec<Affine<S>>, t: &Transform<S>) -> (r: Vec<Affine<S>>)
    ensures
        r@ == base@.push(affine_of(*t)),
{
    let mut r = copied(base);
    r.push(to_affine(t));
    r
}

/// One step of drawing a path.
#[derive(Clone, Copy, Debug, PartialEq, Eq, Structural)]
pub enum Action {
    Fill,
    Stroke,
    Report,
}

/// What the fill of `path` asks for: nothing without a fill, a report for a
/// paint that cannot be resolved.
pub open spec fn fill_actions<S>(path: Path<S>) -> Seq<Action> {
    match path.fill {
        None => seq![],
        Some(f) => if resolvable(f.paint) { seq![Action::Fill] } else { seq![Action::Report] },
    }
}

/// What the stroke of `path` asks for.
pub open spec fn stroke_actions<S>(path: Path<S>) -> Seq<Action> {
    match path.stroke {
        None => seq![],
        Some(s) => if resolvable(s.paint) { seq![Action::Stroke] } else { seq![Action::Report] },
    }
}

/// The steps of drawing `path`, in order: none when it is hidden, else fill
/// and stroke in its paint order.
pub open spec fn path_actions<S>(path: Path<S>) -> Seq<Action> {
    if !path.visible {
        seq![]
    } else {
        match path.paint_order {
            PaintOrder::FillAndStroke => fill_actions(path) + stroke_actions(path),
            PaintOrder::StrokeAndFill => stroke_actions(path) + fill_actions(path),
        }
    }
}

/// Every paint of `path` can be resolved.
pub open spec fn fully_drawable<S>(path: Path<S>) -> bool {
    &&& (path.fill matches Some(f) ==> resolvable(f.paint))
    &&& (path.stroke matches Some(s) ==> resolvable(s.paint))
}

/// The path whose outline clips `group`: the first child of its clip path,
/// when that child is a path.
pub open spec fn clip_source<S>(group: Group<S>) -> Option<Path<S>> {
    match group.clip_path {
        Some(cp) => if cp.children.len() > 0 {
            match cp.children@[0] {
                Node::Path(p) => Some(p),
                _ => None,
            }
        } else {
            None
        },
        None => None,
    }
}

/// Nothing in `node` is reported: every paint of a visible path resolves,
/// every visible raster image decodes, and every text was flattened.
pub open spec fn translatable<S>(node: Node<S>) -> bool
    decreases node,
{
    match node {
        Node::Group(g) => group_translatable(g),
        Node::Path(p) => !p.visible || fully_drawable(p),
        Node::Image(i) => !i.visible || match i.kind {
            ImageKind::Raster(format, bytes) => decoded_rgba(format, bytes@) is Some,
            ImageKind::Svg(t) => group_translatable(t.root),
        },
        Node::Text(t) => match t.flattened {
            Some(g) => group_translatable(g),
            None => false,
        },
    }
}

/// Nothing among the children of `g` is reported.
pub open spec fn group_translatable<S>(g: Group<S>) -> bool
    decreases g,
{
    forall|i: int| 0 <= i < g.children.len() ==> translatable(#[trigger] g.children@[i])
}

/// A path or image that is not visible.
pub open spec fn hidden<S>(node: Node<S>) -> bool {
    match node {
        Node::Path(p) => !p.visible,
        Node::Image(i) => !i.visible,
        _ => false,
    }
}

/// What translating part of a tree gives: the commands, the nodes handed to
/// the error handler, in order, and whether the handler asked to stop.
pub struct Walk<S> {
    pub cmds: Seq<CommandView<S>>,
    pub reported: Seq<Node<S>>,
    pub stopped: bool,
}

/// Commands drawn without the error handler.
pub open spec fn quiet<S>(cmds: Seq<CommandView<S>>) -> Walk<S> {
    Walk { cmds, reported: seq![], stopped: false }
}

/// `a` followed by `b`, for an `a` that did not stop.
pub open spec fn then<S>(a: Walk<S>, b: Walk<S>) -> Walk<S> {
    Walk { cmds: a.cmds + b.cmds, reported: a.reported + b.reported, stopped: b.stopped }
}

/// Handing `node` to the error handler, whose call is the first of `rs`:
/// its draws, and a stop when it asked for one.
pub open spec fn report_walk<S>(node: Node<S>, rs: Seq<Report<S>>) -> Walk<S> {
    Walk { cmds: draw_views(rs[0].draws), reported: seq![node], stopped: rs[0].flow == Flow::Stop }
}

/// The fill of `path` through `chain`, for a fill whose paint resolves.
pub open spec fn fill_view<S>(path: Path<S>, chain: Seq<Affine<S>>) -> CommandView<S> {
    let f = path.fill->Some_0;
    let b = brush_of(f.paint, f.opacity)->Some_0;
    CommandView::Draw(DrawView::Fill(FillView {
        rule: f.rule,
        transform: chain,
        brush: b.0,
        brush_transform: b.1,
        shape: outline_of(path.segments@),
    }))
}

/// The stroke of `path` through `chain`, for a stroke whose paint resolves.
pub open spec fn stroke_view<S>(path: Path<S>, chain: Seq<Affine<S>>) -> CommandView<S> {
    let s = path.stroke->Some_0;
    let b = brush_of(s.paint, s.opacity)->Some_0;
    CommandView::Draw(DrawView::Stroke(StrokeView {
        style: stroke_style_of(s),
        transform: chain,
        brush: b.0,
        brush_transform: b.1,
        shape: outline_of(path.segments@),
    }))
}

/// Performing the drawing steps of `path` in order; a report that asks to
/// stop ends them.
pub open spec fn walk_steps<S>(
    steps: Seq<Action>,
    node: Node<S>,
    path: Path<S>,
    chain: Seq<Affine<S>>,
    rs: Seq<Report<S>>,
) -> Walk<S>
    decreases steps.len(),
{
    if steps.len() == 0 {
        quiet(seq![])
    } else {
        let rest = steps.subrange(1, steps.len() as int);
        match steps[0] {
            Action::Fill => then(quiet(seq![fill_view(path, chain)]), walk_steps(rest, node, path, chain, rs)),
            Action::Stroke => then(quiet(seq![stroke_view(path, chain)]), walk_steps(rest, node, path, chain, rs)),
            Action::Report => {
                let w = report_walk(node, rs);
                if w.stopped {
                    w
                } else {
                    then(w, walk_steps(rest, node, path, chain, rs.subrange(1, rs.len() as int)))
                }
            },
        }
    }
}

/// Drawing decoded pixels placed by `placement` inside `chain`, or
/// reporting `node` when there are none.
pub open spec fn image_walk<S>(
    decoded: Option<(u32, u32, Seq<u8>)>,
    node: Node<S>,
    placement: Transform<S>,
    chain: Seq<Affine<S>>,
    rs: Seq<Report<S>>,
) -> Walk<S> {
    match decoded {
        Some(px) => quiet(seq![CommandView::Draw(DrawView::Image(ImageView { image: px, transform: chain.push(affine_of(placement)) }))]),
        None => report_walk(node, rs),
    }
}

/// The clip of `group`: the outline of its clip source, or else its layer
/// bounding box.
pub open spec fn clip_view<S>(group: Group<S>) -> ClipView<S> {
    match clip_source(group) {
        Some(p) => ClipView::Outline(outline_of(p.segments@)),
        None => ClipView::Rect(group.layer_bounding_box),
    }
}

/// The layer of `group` inside a parent drawn through `chain`.
pub open spec fn layer_view<S>(group: Group<S>, chain: Seq<Affine<S>>) -> LayerView<S> {
    LayerView {
        blend_mode: group.blend_mode,
        alpha: group.opacity,
        transform: chain.push(affine_of(group.transform)),
        clip: clip_view(group),
    }
}

/// Translating `node` inside a parent drawn through `chain`, where `rs`
/// are the error handler's calls from this node on, in order.
pub open spec fn walk_node<S>(node: Node<S>, chain: Seq<Affine<S>>, rs: Seq<Report<S>>) -> Walk<S>
    decreases node,
{
    match node {
        Node::Group(g) => walk_group(g, chain, rs),
        Node::Path(p) => walk_steps(path_actions(p), node, p, chain, rs),
        Node::Image(i) => if !i.visible {
            quiet(seq![])
        } else {
            match i.kind {
                ImageKind::Raster(format, bytes) => image_walk(decoded_rgba(format, bytes@), node, i.transform, chain, rs),
                ImageKind::Svg(t) => walk_group(t.root, chain.push(affine_of(i.transform)), rs),
            }
        },
        Node::Text(t) => match t.flattened {
            Some(g) => walk_group(g, chain, rs),
            None => report_walk(node, rs),
        },
    }
}

/// Translating a group: its layer, its children in order through the
/// group's transform, and the closing of the layer.
pub open spec fn walk_group<S>(group: Group<S>, chain: Seq<Affine<S>>, rs: Seq<Report<S>>) -> Walk<S>
    decreases group,
{
    let inner = walk_children(group.children@, chain.push(affine_of(group.transform)), rs);
    Walk {
        cmds: seq![CommandView::PushLayer(layer_view(group, chain))] + inner.cmds + seq![CommandView::<S>::PopLayer],
        reported: inner.reported,
        stopped: inner.stopped,
    }
}

/// Translating sibling nodes in order, until one of them stops.
pub open spec fn walk_children<S>(children: Seq<Node<S>>, chain: Seq<Affine<S>>, rs: Seq<Report<S>>) -> Walk<S>
    decreases children,
{
    if children.len() == 0 {
        quiet(seq![])
    } else {
        let w = walk_node(children[0], chain, rs);
        if w.stopped {
            w
        } else {
            then(w, walk_children(children.subrange(1, children.len() as int), chain, rs.subrange(w.reported.len() as int, rs.len() as int)))
        }
    }
}

/// `w` is what was done between `before` and `after`, with `stopped` the
/// outcome.
pub open spec fn walked<S>(w: Walk<S>, before: Scene<S>, after: Scene<S>, stopped: bool) -> bool {
    &&& w.cmds == added(before, after)
    &&& w.reported == reported_nodes(added_reports(before, after))
    &&& w.stopped == stopped
}

proof fn lemma_then_quiet_empty<S>(w: Walk<S>)
    ensures
        then(w, quiet(seq![])) == (Walk { cmds: w.cmds, reported: w.reported, stopped: false }),
        then(quiet(seq![]), w) == w,
{
    assert(then(w, quiet(seq![])).cmds =~= w.cmds);
    assert(then(w, quiet(seq![])).reported =~= w.reported);
    assert(then(quiet(seq![]), w).cmds =~= w.cmds);
    assert(then(quiet(seq![]), w).reported =~= w.reported);
}

proof fn lemma_then_assoc<S>(a: Walk<S>, b: Walk<S>, c: Walk<S>)
    ensures
        then(then(a, b), c) == then(a, then(b, c)),
{
    assert(then(then(a, b), c).cmds =~= then(a, then(b, c)).cmds);
    assert(then(then(a, b), c).reported =~= then(a, then(b, c)).reported);
}

proof fn lemma_walked_then<S>(w1: Walk<S>, w2: Walk<S>, s0: Scene<S>, s1: Scene<S>, s2: Scene<S>, stopped: bool)
    requires
        grows(s0, s1),
        grows(s1, s2),
        walked(w1, s0, s1, false),
        walked(w2, s1, s2, stopped),
    ensures
        grows(s0, s2),
        walked(then(w1, w2), s0, s2, stopped),
{
    lemma_grows_trans(s0, s1, s2);
}

proof fn lemma_steps_single<S>(a: Action, node: Node<S>, path: Path<S>, chain: Seq<Affine<S>>, rs: Seq<Report<S>>)
    ensures
        walk_steps(seq![a], node, path, chain, rs) == match a {
            Action::Fill => quiet(seq![fill_view(path, chain)]),
            Action::Stroke => quiet(seq![stroke_view(path, chain)]),
            Action::Report => report_walk(node, rs),
        },
{
    let steps = seq![a];
    assert(steps.subrange(1, 1) =~= Seq::<Action>::empty());
    let empty = walk_steps(Seq::<Action>::empty(), node, path, chain, rs.subrange(1, rs.len() as int));
    assert(empty == quiet::<S>(seq![]));
    assert(walk_steps(Seq::<Action>::empty(), node, path, chain, rs) == quiet::<S>(seq![]));
    lemma_then_quiet_empty(quiet(seq![fill_view(path, chain)]));
    lemma_then_quiet_empty(quiet(seq![stroke_view(path, chain)]));
    lemma_then_quiet_empty(report_walk(node, rs));
}

proof fn lemma_steps_concat<S>(
    a: Seq<Action>,
    b: Seq<Action>,
    node: Node<S>,
    path: Path<S>,
    chain: Seq<Affine<S>>,
    rs: Seq<Report<S>>,
)
    requires
        walk_steps(a, node, path, chain, rs).reported.len() <= rs.len(),
    ensures
        ({
            let w = walk_steps(a, node, path, chain, rs);
            &&& w.stopped ==> walk_steps(a + b, node, path, chain, rs) == w
            &&& !w.stopped ==> walk_steps(a + b, node, path, chain, rs)
                == then(w, walk_steps(b, node, path, chain, rs.subrange(w.reported.len() as int, rs.len() as int)))
        }),
    decreases a.len(),
{
    let w = walk_steps(a, node, path, chain, rs);
    if a.len() == 0 {
        assert(a + b =~= b);
        assert(rs.subrange(0, rs.len() as int) =~= rs);
        lemma_then_quiet_empty(walk_steps(b, node, path, chain, rs));
    } else {
        let rest = a.subrange(1, a.len() as int);
        assert((a + b)[0] == a[0]);
        assert((a + b).subrange(1, (a + b).len() as int) =~= rest + b);
        match a[0] {
            Action::Report => {
                let r = report_walk(node, rs);
                if !r.stopped {
                    let rs1 = rs.subrange(1, rs.len() as int);
                    let wr = walk_steps(rest, node, path, chain, rs1);
                    assert(w == then(r, wr));
                    lemma_steps_concat(rest, b, node, path, chain, rs1);
                    assert(rs1.subrange(wr.reported.len() as int, rs1.len() as int)
                        =~= rs.subrange(w.reported.len() as int, rs.len() as int));
                    if !wr.stopped {
                        lemma_then_assoc(r, wr, walk_steps(b, node, path, chain, rs1.subrange(wr.reported.len() as int, rs1.len() as int)));
                    }
                }
            },
            _ => {
                let q = if a[0] == Action::Fill { quiet(seq![fill_view(path, chain)]) } else { quiet(seq![stroke_view(path, chain)]) };
                let wr = walk_steps(rest, node, path, chain, rs);
                assert(w == then(q, wr));
                assert(wr.reported =~= w.reported);
                lemma_steps_concat(rest, b, node, path, chain, rs);
                if !wr.stopped {
                    lemma_then_assoc(q, wr, walk_steps(b, node, path, chain, rs.subrange(wr.reported.len() as int, rs.len() as int)));
                }
            },
        }
    }
}

/// Paint order decides which of fill and stroke comes first: translating a
/// visible path with a fill and a stroke, both of which resolve, draws the
/// stroke then the fill under stroke-then-fill, the fill then the stroke
/// under fill-then-stroke, and reports nothing.
pub proof fn paint_order_is_kept<S>(path: Path<S>, chain: Seq<Affine<S>>, rs: Seq<Report<S>>)
    requires
        path.visible,
        path.fill matches Some(f) && resolvable(f.paint),
        path.stroke matches Some(s) && resolvable(s.paint),
    ensures
        walk_node(Node::Path(path), chain, rs) == quiet(match path.paint_order {
            PaintOrder::StrokeAndFill => seq![stroke_view(path, chain), fill_view(path, chain)],
            PaintOrder::FillAndStroke => seq![fill_view(path, chain), stroke_view(path, chain)],
        }),
{
    let node = Node::Path(path);
    let (first, second) = match path.paint_order {
        PaintOrder::StrokeAndFill => (Action::Stroke, Action::Fill),
        PaintOrder::FillAndStroke => (Action::Fill, Action::Stroke),
    };
    assert(path_actions(path) =~= seq![first] + seq![second]);
    lemma_steps_single(first, node, path, chain, rs);
    lemma_steps_single(second, node, path, chain, rs);
    lemma_steps_concat(seq![first], seq![second], node, path, chain, rs);
    assert(rs.subrange(0, rs.len() as int) =~= rs);
    let w = walk_node(node, chain, rs);
    assert(w.cmds =~= match path.paint_order {
        PaintOrder::StrokeAndFill => seq![stroke_view(path, chain), fill_view(path, chain)],
        PaintOrder::FillAndStroke => seq![fill_view(path, chain), stroke_view(path, chain)],
    });
    assert(w.reported =~= Seq::<Node<S>>::empty());
}

/// A visible path with a pattern fill and no stroke is handed to the error
/// handler exactly once, and all that is drawn for it is what that call
/// draws: no fill and no stroke.
pub proof fn pattern_fill_is_reported<S>(path: Path<S>, chain: Seq<Affine<S>>, rs: Seq<Report<S>>)
    requires
        path.visible,
        path.fill matches Some(f) && f.paint is Pattern,
        path.stroke is None,
    ensures
        walk_node(Node::Path(path), chain, rs) == report_walk(Node::Path(path), rs),
{
    assert(path_actions(path) =~= seq![Action::Report]);
    lemma_steps_single(Action::Report, Node::Path(path), path, chain, rs);
}

/// A path or image that is not visible draws nothing and is not reported.
pub proof fn hidden_node_draws_nothing<S>(node: Node<S>, chain: Seq<Affine<S>>, rs: Seq<Report<S>>)
    requires
        hidden(node),
    ensures
        walk_node(node, chain, rs) == quiet::<S>(seq![]),
{
    if let Node::Path(p) = node {
        assert(path_actions(p) =~= Seq::<Action>::empty());
    }
}

/// The siblings of a hidden node are translated as if it were not there.
pub proof fn hidden_sibling_changes_nothing<S>(children: Seq<Node<S>>, i: int, chain: Seq<Affine<S>>, rs: Seq<Report<S>>)
    requires
        0 <= i < children.len(),
        hidden(children[i]),
    ensures
        walk_children(children, chain, rs) == walk_children(children.remove(i), chain, rs),
    decreases i,
{
    let rest = children.subrange(1, children.len() as int);
    if i == 0 {
        hidden_node_draws_nothing(children[0], chain, rs);
        assert(children.remove(0) =~= rest);
        assert(rs.subrange(0, rs.len() as int) =~= rs);
        lemma_then_quiet_empty(walk_children(rest, chain, rs));
    } else {
        let shorter = children.remove(i);
        assert(shorter[0] == children[0]);
        assert(shorter.subrange(1, shorter.len() as int) =~= rest.remove(i - 1));
        let w = walk_node(children[0], chain, rs);
        hidden_sibling_changes_nothing(rest, i - 1, chain, rs.subrange(w.reported.len() as int, rs.len() as int));
    }
}

/// Hands `node` to the error handler and draws what it leaves.
fn report<S: Copy, H: ErrorHandler<S>>(scene: &mut Scene<S>, node: &Node<S>, handler: &mut H) -> (r: Result<(), Stopped>)
    ensures
        draws_appended(old(scene)@, final(scene)@),
        grows(*old(scene), *final(scene)),
        forall|extra: Seq<Report<S>>| walked(
            #[trigger] report_walk(*node, added_reports(*old(scene), *final(scene)) + extra),
            *old(scene), *final(scene), r is Err),
{
    let mut canvas: Vec<Draw<S>> = Vec::new();
    let flow = handler.handle(&mut canvas, node);
    let ghost s0 = *scene;
    let ghost drawn = canvas@;
    scene.append_report(node, canvas, flow);
    let r = match flow {
        Flow::Continue => Ok(()),
        Flow::Stop => Err(Stopped),
    };
    proof {
        let rep = Report { node: *node, draws: drawn, flow };
        let s1 = *scene;
        assert(s1@.subrange(0, s0@.len() as int) =~= s0@);
        assert(s1.reports().subrange(0, s0.reports().len() as int) =~= s0.reports());
        assert(added_reports(s0, s1) =~= seq![rep]);
        assert(appended(s0@, s1@) =~= drawn.map_values(|d: Draw<S>| Command::Draw(d)));
        assert(added(s0, s1) =~= draw_views(drawn));
        assert(reported_nodes(added_reports(s0, s1)) =~= seq![*node]);
        assert forall|k: int| s0@.len() <= k < s1@.len() implies #[trigger] s1@[k] is Draw by {
            assert(s1@[k] == appended(s0@, s1@)[k - s0@.len()]);
        }
        assert forall|extra: Seq<Report<S>>| walked(
            #[trigger] report_walk(*node, added_reports(s0, s1) + extra), s0, s1, r is Err) by {
            assert((added_reports(s0, s1) + extra)[0] == rep);
        }
    }
    r
}

fn fill_path<S: Copy, H: ErrorHandler<S>>(
    scene: &mut Scene<S>,
    node: &Node<S>,
    path: &Path<S>,
    outline: &Vec<PathEl<S>>,
    transform: &Vec<Affine<S>>,
    handler: &mut H,
) -> (r: Result<(), Stopped>)
    requires
        outline@ == outline_of(path.segments@),
    ensures
        draws_appended(old(scene)@, final(scene)@),
        grows(*old(scene), *final(scene)),
        (path.fill matches Some(f) ==> resolvable(f.paint)) ==> r is Ok,
        forall|extra: Seq<Report<S>>| walked(
            #[trigger] walk_steps(fill_actions(*path), *node, *path, transform@, added_reports(*old(scene), *final(scene)) + extra),
            *old(scene), *final(scene), r is Err),
{
    let ghost s0 = *scene;
    match &path.fill {
        None => {
            proof {
                lemma_grows_refl(s0);
                lemma_extends_balanced_refl(s0@);
                assert(fill_actions(*path) =~= Seq::<Action>::empty());
                assert(s0@.subrange(0, s0@.len() as int) =~= s0@);
            }
            Ok(())
        },
        Some(f) => match to_brush(&f.paint, f.opacity) {
            Some((brush, brush_transform)) => {
                let cmd = FillCommand {
                    rule: f.rule,
                    transform: copied(transform),
                    brush,
                    brush_transform,
                    shape: copied(outline),
                };
                let ghost cv = Command::Draw(Draw::Fill(cmd))@;
                scene.draw(Draw::Fill(cmd));
                proof {
                    let s1 = *scene;
                    assert(s1@.subrange(0, s0@.len() as int) =~= s0@);
                    assert(s1.reports().subrange(0, s0.reports().len() as int) =~= s0.reports());
                    assert(added_reports(s0, s1) =~= Seq::<Report<S>>::empty());
                    assert(reported_nodes(added_reports(s0, s1)) =~= Seq::<Node<S>>::empty());
                    assert(cv == fill_view(*path, transform@));
                    assert(added(s0, s1) =~= seq![fill_view(*path, transform@)]);
                    assert(fill_actions(*path) == seq![Action::Fill]);
                    assert forall|extra: Seq<Report<S>>| walked(
                        #[trigger] walk_steps(fill_actions(*path), *node, *path, transform@, added_reports(s0, s1) + extra),
                        s0, s1, false) by {
                        lemma_steps_single(Action::Fill, *node, *path, transform@, added_reports(s0, s1) + extra);
                    }
                }
                Ok(())
            },
            None => {
                let r = report(scene, node, handler);
                proof {
                    assert(fill_actions(*path) == seq![Action::Report]);
                    assert forall|extra: Seq<Report<S>>| walked(
                        #[trigger] walk_steps(fill_actions(*path), *node, *path, transform@, added_reports(s0, *scene) + extra),
                        s0, *scene, r is Err) by {
                        lemma_steps_single(Action::Report, *node, *path, transform@, added_reports(s0, *scene) + extra);
                        assert(walked(report_walk(*node, added_reports(s0, *scene) + extra), s0, *scene, r is Err));
                    }
                }
                r
            },
        },
    }
}

fn stroke_path<S: Copy, H: ErrorHandler<S>>(
    scene: &mut Scene<S>,
    node: &Node<S>,
    path: &Path<S>,
    outline: &Vec<PathEl<S>>,
    transform: &Vec<Affine<S>>,
    handler: &mut H,
) -> (r: Result<(), Stopped>)
    requires
        outline@ == outline_of(path.segments@),
    ensures
        draws_appended(old(scene)@, final(scene)@),
        grows(*old(scene), *final(scene)),
        (path.stroke matches Some(s) ==> resolvable(s.paint)) ==> r is Ok,
        forall|extra: Seq<Report<S>>| walked(
            #[trigger] walk_steps(stroke_actions(*path), *node, *path, transform@, added_reports(*old(scene), *final(scene)) + extra),
            *old(scene), *final(scene), r is Err),
{
    let ghost s0 = *scene;
    match &path.stroke {
        None => {
            proof {
                lemma_grows_refl(s0);
                assert(stroke_actions(*path) =~= Seq::<Action>::empty());
                assert(s0@.subrange(0, s0@.len() as int) =~= s0@);
            }
            Ok(())
        },
        Some(s) => match to_brush(&s.paint, s.opacity) {
            Some((brush, brush_transform)) => {
                let cmd = StrokeCommand {
                    style: to_stroke(s),
                    transform: copied(transform),
                    brush,
                    brush_transform,
                    shape: copied(outline),
                };
                let ghost cv = Command::Draw(Draw::Stroke(cmd))@;
                scene.draw(Draw::Stroke(cmd));
                proof {
                    let s1 = *scene;
                    assert(s1@.subrange(0, s0@.len() as int) =~= s0@);
                    assert(s1.reports().subrange(0, s0.reports().len() as int) =~= s0.reports());
                    assert(added_reports(s0, s1) =~= Seq::<Report<S>>::empty());
                    assert(reported_nodes(added_reports(s0, s1)) =~= Seq::<Node<S>>::empty());
                    assert(cv == stroke_view(*path, transform@));
                    assert(added(s0, s1) =~= seq![stroke_view(*path, transform@)]);
                    assert(stroke_actions(*path) == seq![Action::Stroke]);
                    assert forall|extra: Seq<Report<S>>| walked(
                        #[trigger] walk_steps(stroke_actions(*path), *node, *path, transform@, added_reports(s0, s1) + extra),
                        s0, s1, false) by {
                        lemma_steps_single(Action::Stroke, *node, *path, transform@, added_reports(s0, s1) + extra);
                    }
                }
                Ok(())
            },
            None => {
                let r = report(scene, node, handler);
                proof {
                    assert(stroke_actions(*path) == seq![Action::Report]);
                    assert forall|extra: Seq<Report<S>>| walked(
                        #[trigger] walk_steps(stroke_actions(*path), *node, *path, transform@, added_reports(s0, *scene) + extra),
                        s0, *scene, r is Err) by {
                        lemma_steps_single(Action::Report, *node, *path, transform@, added_reports(s0, *scene) + extra);
                        assert(walked(report_walk(*node, added_reports(s0, *scene) + extra), s0, *scene, r is Err));
                    }
                }
                r
            },
        },
    }
}

proof fn lemma_steps_stop<S>(
    a: Seq<Action>,
    b: Seq<Action>,
    node: Node<S>,
    path: Path<S>,
    chain: Seq<Affine<S>>,
    s0: Scene<S>,
    s1: Scene<S>,
)
    requires
        forall|extra: Seq<Report<S>>| walked(
            #[trigger] walk_steps(a, node, path, chain, added_reports(s0, s1) + extra), s0, s1, true),
    ensures
        forall|extra: Seq<Report<S>>| walked(
            #[trigger] walk_steps(a + b, node, path, chain, added_reports(s0, s1) + extra), s0, s1, true),
{
    assert forall|extra: Seq<Report<S>>| walked(
        #[trigger] walk_steps(a + b, node, path, chain, added_reports(s0, s1) + extra), s0, s1, true) by {
        let rs = added_reports(s0, s1) + extra;
        assert(walked(walk_steps(a, node, path, chain, rs), s0, s1, true));
        lemma_steps_concat(a, b, node, path, chain, rs);
    }
}

proof fn lemma_steps_halves<S>(
    a: Seq<Action>,
    b: Seq<Action>,
    node: Node<S>,
    path: Path<S>,
    chain: Seq<Affine<S>>,
    s0: Scene<S>,
    s1: Scene<S>,
    s2: Scene<S>,
    stopped: bool,
)
    requires
        grows(s0, s1),
        grows(s1, s2),
        forall|extra: Seq<Report<S>>| walked(
            #[trigger] walk_steps(a, node, path, chain, added_reports(s0, s1) + extra), s0, s1, false),
        forall|extra: Seq<Report<S>>| walked(
            #[trigger] walk_steps(b, node, path, chain, added_reports(s1, s2) + extra), s1, s2, stopped),
    ensures
        grows(s0, s2),
        forall|extra: Seq<Report<S>>| walked(
            #[trigger] walk_steps(a + b, node, path, chain, added_reports(s0, s2) + extra), s0, s2, stopped),
{
    lemma_grows_trans(s0, s1, s2);
    assert forall|extra: Seq<Report<S>>| walked(
        #[trigger] walk_steps(a + b, node, path, chain, added_reports(s0, s2) + extra), s0, s2, stopped) by {
        let r01 = added_reports(s0, s1);
        let r12 = added_reports(s1, s2);
        let rs = r01 + (r12 + extra);
        assert(added_reports(s0, s2) + extra =~= rs);
        let w1 = walk_steps(a, node, path, chain, rs);
        assert(walked(w1, s0, s1, false));
        lemma_steps_concat(a, b, node, path, chain, rs);
        assert(rs.subrange(w1.reported.len() as int, rs.len() as int) =~= r12 + extra);
        let w2 = walk_steps(b, node, path, chain, r12 + extra);
        assert(walked(w2, s1, s2, stopped));
        lemma_walked_then(w1, w2, s0, s1, s2, stopped);
    }
}

/// Draws a path: nothing when it is hidden, else its fill and its stroke in
/// its paint order, each either drawn or reported.
fn render_path<S: Copy, H: ErrorHandler<S>>(
    scene: &mut Scene<S>,
    node: &Node<S>,
    path: &Path<S>,
    transform: &Vec<Affine<S>>,
    handler: &mut H,
) -> (r: Result<(), Stopped>)
    ensures
        draws_appended(old(scene)@, final(scene)@),
        grows(*old(scene), *final(scene)),
        !path.visible ==> r is Ok && final(scene)@ == old(scene)@,
        fully_drawable(*path) ==> r is Ok,
        forall|extra: Seq<Report<S>>| walked(
            #[trigger] walk_steps(path_actions(*path), *node, *path, transform@, added_reports(*old(scene), *final(scene)) + extra),
            *old(scene), *final(scene), r is Err),
{
    let ghost s0 = *scene;
    if !path.visible {
        proof {
            lemma_grows_refl(s0);
            assert(path_actions(*path) =~= Seq::<Action>::empty());
            assert(s0@.subrange(0, s0@.len() as int) =~= s0@);
        }
        return Ok(());
    }
    let outline = to_bez_path(&path.segments);
    match path.paint_order {
        PaintOrder::FillAndStroke => {
            let r = fill_path(scene, node, path, &outline, transform, handler);
            let ghost s1 = *scene;
            if r.is_err() {
                proof {
                    lemma_steps_stop(fill_actions(*path), stroke_actions(*path), *node, *path, transform@, s0, s1);
                }
                return r;
            }
            let r2 = stroke_path(scene, node, path, &outline, transform, handler);
            proof {
                lemma_draws_appended_trans(s0@, s1@, scene@);
                lemma_steps_halves(fill_actions(*path), stroke_actions(*path), *node, *path, transform@, s0, s1, *scene, r2 is Err);
            }
            r2
        },
        PaintOrder::StrokeAndFill => {
            let r = stroke_path(scene, node, path, &outline, transform, handler);
            let ghost s1 = *scene;
            if r.is_err() {
                proof {
                    lemma_steps_stop(stroke_actions(*path), fill_actions(*path), *node, *path, transform@, s0, s1);
                }
                return r;
            }
            let r2 = fill_path(scene, node, path, &outline, transform, handler);
            proof {
                lemma_draws_appended_trans(s0@, s1@, scene@);
                lemma_steps_halves(stroke_actions(*path), fill_actions(*path), *node, *path, transform@, s0, s1, *scene, r2 is Err);
            }
            r2
        },
    }
}

proof fn lemma_draws_appended_trans<S>(s0: Seq<Command<S>>, s1: Seq<Command<S>>, s2: Seq<Command<S>>)
    requires
        draws_appended(s0, s1),
        draws_appended(s1, s2),
    ensures
        draws_appended(s0, s2),
{
    assert(s2.subrange(0, s0.len() as int) =~= s1.subrange(0, s0.len() as int));
    assert forall|k: int| s0.len() <= k < s2.len() implies #[trigger] s2[k] is Draw by {
        if k < s1.len() {
            assert(s2[k] == s1.subrange(0, s1.len() as int)[k]);
        }
    }
}

fn clip_of<S: Copy>(group: &Group<S>) -> (r: Clip<S>)
    ensures
        r@ == clip_view(*group),
{
    let mut clip = Clip::Rect(group.layer_bounding_box);
    if let Some(cp) = &group.clip_path {
        if cp.children.len() > 0 {
            if let Node::Path(p) = &cp.children[0] {
                clip = Clip::Outline(to_bez_path(&p.segments));
            }
        }
    }
    clip
}

/// The value of a decoding result.
pub open spec fn raster_view(decoded: Option<RasterImage>) -> Option<(u32, u32, Seq<u8>)> {
    match decoded {
        Some(img) => Some(img@),
        None => None,
    }
}

/// Draws decoded raster pixels placed by `placement` inside a parent drawn
/// through `transform`; where there are no pixels, reports `node`.
pub fn draw_raster<S: Copy, H: ErrorHandler<S>>(
    scene: &mut Scene<S>,
    node: &Node<S>,
    decoded: Option<RasterImage>,
    placement: &Transform<S>,
    transform: &Vec<Affine<S>>,
    handler: &mut H,
) -> (r: Result<(), Stopped>)
    ensures
        draws_appended(old(scene)@, final(scene)@),
        grows(*old(scene), *final(scene)),
        decoded is Some ==> r is Ok,
        forall|extra: Seq<Report<S>>| walked(
            #[trigger] image_walk(raster_view(decoded), *node, *placement, transform@, added_reports(*old(scene), *final(scene)) + extra),
            *old(scene), *final(scene), r is Err),
{
    let ghost s0 = *scene;
    match decoded {
        Some(image) => {
            let cmd = ImageCommand { image, transform: chain_with(transform, placement) };
            let ghost cv = Command::Draw(Draw::Image(cmd))@;
            scene.draw(Draw::Image(cmd));
            proof {
                let s1 = *scene;
                assert(s1@.subrange(0, s0@.len() as int) =~= s0@);
                assert(s1.reports().subrange(0, s0.reports().len() as int) =~= s0.reports());
                assert(added_reports(s0, s1) =~= Seq::<Report<S>>::empty());
                assert(reported_nodes(added_reports(s0, s1)) =~= Seq::<Node<S>>::empty());
                assert(added(s0, s1) =~= seq![cv]);
            }
            Ok(())
        },
        None => report(scene, node, handler),
    }
}

/// Translates one node inside a parent drawn through `transform`.
///
/// What it appends, and the calls of the error handler it makes, are
/// exactly those of `walk_node` over the calls it made; the calls that come
/// after them (`extra`) are not read. The layers it opens nest and are all
/// closed, also when the handler stops the translation. A hidden node
/// appends nothing, and a node in which nothing needs reporting succeeds.
pub fn render_node<S: Copy, H: ErrorHandler<S>>(
    scene: &mut Scene<S>,
    node: &Node<S>,
    transform: &Vec<Affine<S>>,
    handler: &mut H,
) -> (r: Result<(), Stopped>)
    ensures
        extends_balanced(old(scene)@, final(scene)@),
        grows(*old(scene), *final(scene)),
        translatable(*node) ==> r is Ok,
        hidden(*node) ==> r is Ok && final(scene)@ == old(scene)@,
        forall|extra: Seq<Report<S>>| walked(
            #[trigger] walk_node(*node, transform@, added_reports(*old(scene), *final(scene)) + extra),
            *old(scene), *final(scene), r is Err),
    decreases node,
{
    let ghost s0 = *scene;
    match node {
        Node::Group(g) => {
            let r = render_group(scene, g, transform, handler);
            proof {
                assert forall|extra: Seq<Report<S>>| walked(
                    #[trigger] walk_node(*node, transform@, added_reports(s0, *scene) + extra), s0, *scene, r is Err) by {
                    assert(walk_node(*node, transform@, added_reports(s0, *scene) + extra)
                        == walk_group(*g, transform@, added_reports(s0, *scene) + extra));
                }
            }
            r
        },
        Node::Path(p) => {
            let r = render_path(scene, node, p, transform, handler);
            proof {
                lemma_draws_extend_balanced(s0@, scene@);
            }
            r
        },
        Node::Image(img) => {
            if !img.visible {
                proof {
                    lemma_extends_balanced_refl(s0@);
                    lemma_grows_refl(s0);
                }
                return Ok(());
            }
            match &img.kind {
                ImageKind::Raster(format, bytes) => {
                    let decoded = decode_rgba(*format, bytes);
                    proof {
                        assert(raster_view(decoded) == decoded_rgba(*format, bytes@));
                    }
                    let r = draw_raster(scene, node, decoded, &img.transform, transform, handler);
                    proof {
                        lemma_draws_extend_balanced(s0@, scene@);
                    }
                    r
                },
                ImageKind::Svg(tree) => {
                    let chain = chain_with(transform, &img.transform);
                    let r = render_group(scene, &tree.root, &chain, handler);
                    proof {
                        assert forall|extra: Seq<Report<S>>| walked(
                            #[trigger] walk_node(*node, transform@, added_reports(s0, *scene) + extra), s0, *scene, r is Err) by {
                            assert(walk_node(*node, transform@, added_reports(s0, *scene) + extra)
                                == walk_group(tree.root, chain@, added_reports(s0, *scene) + extra));
                        }
                    }
                    r
                },
            }
        },
        Node::Text(t) => match &t.flattened {
            Some(g) => {
                let r = render_group(scene, g, transform, handler);
                proof {
                    assert forall|extra: Seq<Report<S>>| walked(
                        #[trigger] walk_node(*node, transform@, added_reports(s0, *scene) + extra), s0, *scene, r is Err) by {
                        assert(walk_node(*node, transform@, added_reports(s0, *scene) + extra)
                            == walk_group(*g, transform@, added_reports(s0, *scene) + extra));
                    }
                }
                r
            },
            None => {
                let r = report(scene, node, handler);
                proof {
                    lemma_draws_extend_balanced(s0@, scene@);
                }
                r
            },
        },
    }
}

/// Translates a group inside a parent drawn through `transform`: one layer
/// with the group's blend mode, opacity, transform and clip, holding its
/// children in order, each drawn through the group's transform, until the
/// error handler asks to stop; the layer is closed either way.
///
/// What it appends, and the calls of the error handler it makes, are
/// exactly those of `walk_group` over the calls it made.
pub fn render_group<S: Copy, H: ErrorHandler<S>>(
    scene: &mut Scene<S>,
    group: &Group<S>,
    transform: &Vec<Affine<S>>,
    handler: &mut H,
) -> (r: Result<(), Stopped>)
    ensures
        extends_balanced(old(scene)@, final(scene)@),
        grows(*old(scene), *final(scene)),
        group_translatable(*group) ==> r is Ok,
        forall|extra: Seq<Report<S>>| walked(
            #[trigger] walk_group(*group, transform@, added_reports(*old(scene), *final(scene)) + extra),
            *old(scene), *final(scene), r is Err),
    decreases group,
{
    let ghost s0 = *scene;
    let chain = chain_with(transform, &group.transform);
    let layer = Layer {
        blend_mode: group.blend_mode,
        alpha: group.opacity,
        transform: copied(&chain),
        clip: clip_of(group),
    };
    let ghost opened = layer;
    scene.push_layer(layer);
    let ghost s1 = *scene;
    let ghost cs = group.children@;
    let ghost c = chain@;
    proof {
        lemma_extends_balanced_refl(s1@);
        lemma_grows_refl(s1);
        assert forall|e: Seq<Report<S>>| #[trigger] walk_children(cs, c, added_reports(s1, s1) + e)
            == then(quiet(seq![]), walk_children(cs.subrange(0, cs.len() as int), c, e)) by {
            assert(added_reports(s1, s1) + e =~= e);
            assert(cs.subrange(0, cs.len() as int) =~= cs);
            lemma_then_quiet_empty(walk_children(cs, c, e));
        }
    }
    let mut result: Result<(), Stopped> = Ok(());
    let mut i: usize = 0;
    while i < group.children.len() && result.is_ok()
        invariant
            i <= group.children.len(),
            cs == group.children@,
            c == chain@,
            s1@ == s0@.push(Command::PushLayer(opened)),
            s1.reports() == s0.reports(),
            extends_balanced(s1@, scene@),
            grows(s1, *scene),
            group_translatable(*group) ==> result is Ok,
            forall|e: Seq<Report<S>>| #[trigger] walk_children(cs, c, added_reports(s1, *scene) + e) == ({
                let cur = Walk { cmds: added(s1, *scene), reported: reported_nodes(added_reports(s1, *scene)), stopped: result is Err };
                if result is Err { cur } else { then(cur, walk_children(cs.subrange(i as int, cs.len() as int), c, e)) }
            }),
        decreases group.children.len() - i,
    {
        let ghost sb = *scene;
        proof {
            assert(decreases_to!(group => group.children@[i as int]));
        }
        let r = render_node(scene, &group.children[i], &chain, handler);
        proof {
            lemma_extends_balanced_trans(s1@, sb@, scene@);
            lemma_grows_trans(s1, sb, *scene);
            let n = cs.len() as int;
            let rb = added_reports(s1, sb);
            let ri = added_reports(sb, *scene);
            let ra = added_reports(s1, *scene);
            let wb = Walk { cmds: added(s1, sb), reported: reported_nodes(rb), stopped: false };
            let wa = Walk { cmds: added(s1, *scene), reported: reported_nodes(ra), stopped: r is Err };
            assert forall|e: Seq<Report<S>>| #[trigger] walk_children(cs, c, ra + e)
                == (if r is Err { wa } else { then(wa, walk_children(cs.subrange(i + 1, n), c, e)) }) by {
                assert(ra + e =~= rb + (ri + e));
                assert(walk_children(cs, c, rb + (ri + e)) == then(wb, walk_children(cs.subrange(i as int, n), c, ri + e)));
                let tail = cs.subrange(i as int, n);
                assert(tail[0] == cs[i as int]);
                assert(tail.subrange(1, tail.len() as int) =~= cs.subrange(i + 1, n));
                let w = walk_node(cs[i as int], c, ri + e);
                assert(walked(w, sb, *scene, r is Err));
                assert(w.reported.len() == ri.len());
                assert((ri + e).subrange(ri.len() as int, (ri + e).len() as int) =~= e);
                assert(then(wb, w) == wa);
                if !(r is Err) {
                    lemma_then_assoc(wb, w, walk_children(cs.subrange(i + 1, n), c, e));
                }
            }
        }
        result = r;
        i += 1;
    }
    let ghost s2 = *scene;
    scene.pop_layer();
    proof {
        let inner = appended(s1@, s2@);
        lemma_wrap_balanced(opened, inner);
        assert(s2@.subrange(0, s1@.len() as int) == s1@);
        assert forall|k: int| 0 <= k < s1@.len() implies #[trigger] s2@[k] == s1@[k] by {
            assert(s2@.subrange(0, s1@.len() as int)[k] == s2@[k]);
        }
        assert(scene@ == s2@.push(Command::<S>::PopLayer));
        assert(scene@.subrange(0, s0@.len() as int) =~= s0@);
        let all = seq![Command::PushLayer(opened)] + inner + seq![Command::<S>::PopLayer];
        assert(appended(s0@, scene@) =~= all);
        assert(scene.reports().subrange(0, s0.reports().len() as int) =~= s0.reports());
        assert(added_reports(s0, *scene) =~= added_reports(s1, s2));
        assert(opened@ == layer_view(*group, transform@));
        assert(views(all) =~= seq![CommandView::PushLayer(layer_view(*group, transform@))] + added(s1, s2) + seq![CommandView::<S>::PopLayer]);
        let cur = Walk { cmds: added(s1, s2), reported: reported_nodes(added_reports(s1, s2)), stopped: result is Err };
        assert forall|e: Seq<Report<S>>| walked(
            #[trigger] walk_group(*group, transform@, added_reports(s0, *scene) + e), s0, *scene, result is Err) by {
            assert(walk_children(cs, c, added_reports(s1, s2) + e) == (if result is Err { cur } else {
                then(cur, walk_children(cs.subrange(cs.len() as int, cs.len() as int), c, e)) }));
            assert(cs.subrange(cs.len() as int, cs.len() as int) =~= Seq::<Node<S>>::empty());
            lemma_then_quiet_empty(cur);
        }
    }
    result
}

/// Appends the translation of `svg` to `scene`, reporting each node that
/// cannot be translated to `error_handler`: exactly what `walk_group` gives
/// for the root group over the handler calls made, the root in a layer of
/// its own as every group is.
pub fn append_tree_with<S: Copy, H: ErrorHandler<S>>(
    scene: &mut Scene<S>,
    svg: &Tree<S>,
    error_handler: &mut H,
) -> (r: Result<(), Stopped>)
    ensures
        extends_balanced(old(scene)@, final(scene)@),
        grows(*old(scene), *final(scene)),
        group_translatable(svg.root) ==> r is Ok,
        walked(walk_group(svg.root, Seq::<Affine<S>>::empty(), added_reports(*old(scene), *final(scene))),
            *old(scene), *final(scene), r is Err),
{
    let ghost s0 = *scene;
    let base: Vec<Affine<S>> = Vec::new();
    assert(base@ =~= Seq::<Affine<S>>::empty());
    let r = render_group(scene, &svg.root, &base, error_handler);
    proof {
        let rs = added_reports(s0, *scene);
        assert(rs + Seq::<Report<S>>::empty() =~= rs);
        assert(walked(walk_group(svg.root, base@, rs + Seq::<Report<S>>::empty()), s0, *scene, r is Err));
    }
    r
}

/// Appends the translation of `svg` to `scene`, marking what cannot be
/// translated with the default placeholder.
pub fn append_tree<S: Copy>(scene: &mut Scene<S>, svg: &Tree<S>)
    ensures
        extends_balanced(old(scene)@, final(scene)@),
        grows(*old(scene), *final(scene)),
        walk_group(svg.root, Seq::<Affine<S>>::empty(), added_reports(*old(scene), *final(scene))).cmds
            == added(*old(scene), *final(scene)),
        walk_group(svg.root, Seq::<Affine<S>>::empty(), added_reports(*old(scene), *final(scene))).reported
            == reported_nodes(added_reports(*old(scene), *final(scene))),
{
    let mut handler = DefaultErrorHandler;
    let _ = append_tree_with(scene, svg, &mut handler);
}

/// The scene of `svg`, with the default placeholder for what cannot be
/// translated: exactly what `walk_group` gives for the root group over the
/// handler calls made. Its layers nest: as many are pushed as popped, and
/// no prefix pops more than it pushes.
pub fn render_tree<S: Copy>(svg: &Tree<S>) -> (r: Scene<S>)
    ensures
        balanced(r@),
        walk_group(svg.root, Seq::<Affine<S>>::empty(), r.reports()).cmds == views(r@),
        walk_group(svg.root, Seq::<Affine<S>>::empty(), r.reports()).reported == reported_nodes(r.reports()),
{
    let mut scene: Scene<S> = Scene::new();
    let ghost s0 = scene;
    append_tree(&mut scene, svg);
    assert(appended(Seq::<Command<S>>::empty(), scene@) =~= scene@);
    assert(added_reports(s0, scene) =~= scene.reports());
    scene
}

} // verus!
