//! The scene: an append-only log of drawing commands, and what it means for
//! its layers to nest.

use vstd::prelude::*;
use crate::geometry::{Affine, PathEl};
use crate::paint::{Brush, BrushView};
use crate::raster::RasterImage;
use crate::style::{FillRule, StrokeStyle, StrokeStyleView};
use crate::tree::{BlendMode, Node, Rect};

verus! {

/// What a layer's content is clipped to.
#[derive(Clone, Debug, PartialEq)]
pub enum Clip<S> {
    Outline(Vec<PathEl<S>>),
    Rect(Rect<S>),
}

/// A layer: its content is clipped, then composited with `blend_mode` and
/// `alpha` (an opacity, in steps of 1/65535).
///
/// Every `transform` of a command is a chain of affine maps, outermost
/// first; the command is drawn through their product, and the empty chain is
/// the identity.
#[derive(Clone, Debug, PartialEq)]
pub struct Layer<S> {
    pub blend_mode: BlendMode,
    pub alpha: u16,
    pub transform: Vec<Affine<S>>,
    pub clip: Clip<S>,
}

/// Fills `shape` with `brush`, which is drawn through `brush_transform` in
/// paint space (none meaning the identity).
#[derive(Clone, Debug, PartialEq)]
pub struct FillCommand<S> {
    pub rule: FillRule,
    pub transform: Vec<Affine<S>>,
    pub brush: Brush<S>,
    pub brush_transform: Option<Affine<S>>,
    pub shape: Vec<PathEl<S>>,
}

/// Strokes `shape` with `brush`.
#[derive(Clone, Debug, PartialEq)]
pub struct StrokeCommand<S> {
    pub style: StrokeStyle<S>,
    pub transform: Vec<Affine<S>>,
    pub brush: Brush<S>,
    pub brush_transform: Option<Affine<S>>,
    pub shape: Vec<PathEl<S>>,
}

/// Draws decoded pixels, one unit per pixel before `transform`.
#[derive(Clone, Debug, PartialEq)]
pub struct ImageCommand<S> {
    pub image: RasterImage,
    pub transform: Vec<Affine<S>>,
}

/// A command that draws and opens no layer.
#[derive(Clone, Debug, PartialEq)]
pub enum Draw<S> {
    Fill(FillCommand<S>),
    Stroke(StrokeCommand<S>),
    Image(ImageCommand<S>),
}

/// One command of a scene.
#[derive(Clone, Debug, PartialEq)]
pub enum Command<S> {
    PushLayer(Layer<S>),
    PopLayer,
    Draw(Draw<S>),
}

/// A clip as a value.
pub enum ClipView<S> {
    Outline(Seq<PathEl<S>>),
    Rect(Rect<S>),
}

/// A layer as a value.
pub struct LayerView<S> {
    pub blend_mode: BlendMode,
    pub alpha: u16,
    pub transform: Seq<Affine<S>>,
    pub clip: ClipView<S>,
}

/// A fill as a value.
pub struct FillView<S> {
    pub rule: FillRule,
    pub transform: Seq<Affine<S>>,
    pub brush: BrushView<S>,
    pub brush_transform: Option<Affine<S>>,
    pub shape: Seq<PathEl<S>>,
}

/// A stroke as a value.
pub struct StrokeView<S> {
    pub style: StrokeStyleView<S>,
    pub transform: Seq<Affine<S>>,
    pub brush: BrushView<S>,
    pub brush_transform: Option<Affine<S>>,
    pub shape: Seq<PathEl<S>>,
}

/// An image draw as a value: width, height and pixels, and the chain.
pub struct ImageView<S> {
    pub image: (u32, u32, Seq<u8>),
    pub transform: Seq<Affine<S>>,
}

/// A draw as a value.
pub enum DrawView<S> {
    Fill(FillView<S>),
    Stroke(StrokeView<S>),
    Image(ImageView<S>),
}

/// A command as a value.
pub enum CommandView<S> {
    PushLayer(LayerView<S>),
    PopLayer,
    Draw(DrawView<S>),
}

impl<S> View for Clip<S> {
    type V = ClipView<S>;

    open spec fn view(&self) -> ClipView<S> {
        match self {
            Clip::Outline(o) => ClipView::Outline(o@),
            Clip::Rect(r) => ClipView::Rect(*r),
        }
    }
}

impl<S> View for Layer<S> {
    type V = LayerView<S>;

    open spec fn view(&self) -> LayerView<S> {
        LayerView { blend_mode: self.blend_mode, alpha: self.alpha, transform: self.transform@, clip: self.clip@ }
    }
}

impl<S> View for Draw<S> {
    type V = DrawView<S>;

    open spec fn view(&self) -> DrawView<S> {
        match self {
            Draw::Fill(f) => DrawView::Fill(FillView {
                rule: f.rule,
                transform: f.transform@,
                brush: f.brush@,
                brush_transform: f.brush_transform,
                shape: f.shape@,
            }),
            Draw::Stroke(s) => DrawView::Stroke(StrokeView {
                style: s.style@,
                transform: s.transform@,
                brush: s.brush@,
                brush_transform: s.brush_transform,
                shape: s.shape@,
            }),
            Draw::Image(i) => DrawView::Image(ImageView { image: i.image@, transform: i.transform@ }),
        }
    }
}

impl<S> View for Command<S> {
    type V = CommandView<S>;

    open spec fn view(&self) -> CommandView<S> {
        match self {
            Command::PushLayer(l) => CommandView::PushLayer(l@),
            Command::PopLayer => CommandView::PopLayer,
            Command::Draw(d) => CommandView::Draw(d@),
        }
    }
}

/// What an error handler asks for after a node that could not be translated.
#[derive(Clone, Copy, Debug, PartialEq, Eq, Structural)]
pub enum Flow {
    Continue,
    Stop,
}

/// One call of the error handler: the node it was given, the draws it left,
/// and what it asked for.
pub struct Report<S> {
    pub node: Node<S>,
    pub draws: Seq<Draw<S>>,
    pub flow: Flow,
}

/// An ordered log of commands, to be handed to a renderer, together with
/// the log of the error handler's calls that produced some of them.
pub struct Scene<S> {
    commands: Vec<Command<S>>,
    reports: Ghost<Seq<Report<S>>>,
}

impl<S> View for Scene<S> {
    type V = Seq<Command<S>>;

    closed spec fn view(&self) -> Seq<Command<S>> {
        self.commands@
    }
}

impl<S> Scene<S> {
    /// The calls of the error handler so far, in order.
    pub closed spec fn reports(&self) -> Seq<Report<S>> {
        self.reports@
    }

    /// An empty scene.
    pub fn new() -> (r: Scene<S>)
        ensures
            r@ == Seq::<Command<S>>::empty(),
            r.reports() == Seq::<Report<S>>::empty(),
    {
        Scene { commands: Vec::new(), reports: Ghost(Seq::empty()) }
    }

    /// Opens a layer.
    pub fn push_layer(&mut self, layer: Layer<S>)
        ensures
            final(self)@ == old(self)@.push(Command::PushLayer(layer)),
            final(self).reports() == old(self).reports(),
    {
        self.commands.push(Command::PushLayer(layer));
    }

    /// Closes the most recently opened layer.
    pub fn pop_layer(&mut self)
        ensures
            final(self)@ == old(self)@.push(Command::<S>::PopLayer),
            final(self).reports() == old(self).reports(),
    {
        self.commands.push(Command::PopLayer);
    }

    /// Appends a draw.
    pub fn draw(&mut self, d: Draw<S>)
        ensures
            final(self)@ == old(self)@.push(Command::Draw(d)),
            final(self).reports() == old(self).reports(),
    {
        self.commands.push(Command::Draw(d));
    }

    /// Appends, in order, the draws that the error handler left in `canvas`
    /// when given `node`, and logs the call with the `flow` it returned.
    pub fn append_report(&mut self, node: &Node<S>, canvas: Vec<Draw<S>>, flow: Flow)
        ensures
            final(self)@ == old(self)@ + canvas@.map_values(|d: Draw<S>| Command::Draw(d)),
            final(self).reports() == old(self).reports().push(Report { node: *node, draws: canvas@, flow }),
    {
        let ghost all = canvas@;
        let mut canvas = canvas;
        let total = canvas.len();
        let mut k: usize = 0;
        while canvas.len() > 0
            invariant
                k <= all.len(),
                k + canvas.len() == all.len(),
                all.len() == total,
                canvas@ == all.subrange(k as int, all.len() as int),
                self.reports == old(self).reports,
                self.commands@ == old(self).commands@ + all.subrange(0, k as int).map_values(|d: Draw<S>| Command::Draw(d)),
            decreases canvas.len(),
        {
            let d = canvas.remove(0);
            self.commands.push(Command::Draw(d));
            k += 1;
            assert(self.commands@ =~= old(self).commands@ + all.subrange(0, k as int).map_values(|d: Draw<S>| Command::Draw(d)));
        }
        assert(all.subrange(0, all.len() as int) =~= all);
        self.reports = Ghost(self.reports@.push(Report { node: *node, draws: all, flow }));
    }

    /// The commands so far, in order.
    pub fn commands(&self) -> (r: &Vec<Command<S>>)
        ensures
            r@ == self@,
    {
        &self.commands
    }

    /// The commands, in order, taking the scene apart.
    pub fn into_commands(self) -> (r: Vec<Command<S>>)
        ensures
            r@ == self@,
    {
        self.commands
    }
}

/// The values of `cmds`, in order.
pub open spec fn views<S>(cmds: Seq<Command<S>>) -> Seq<CommandView<S>> {
    cmds.map_values(|c: Command<S>| c@)
}

/// The values of `draws` as commands, in order.
pub open spec fn draw_views<S>(draws: Seq<Draw<S>>) -> Seq<CommandView<S>> {
    draws.map_values(|d: Draw<S>| CommandView::Draw(d@))
}

/// The nodes that `reports` were about, in order.
pub open spec fn reported_nodes<S>(reports: Seq<Report<S>>) -> Seq<Node<S>> {
    reports.map_values(|r: Report<S>| r.node)
}

/// `after` is `before` with commands and handler calls appended.
pub open spec fn grows<S>(before: Scene<S>, after: Scene<S>) -> bool {
    &&& extends(before@, after@)
    &&& before.reports().len() <= after.reports().len()
    &&& after.reports().subrange(0, before.reports().len() as int) == before.reports()
}

/// The values of the commands appended to `before` to give `after`.
pub open spec fn added<S>(before: Scene<S>, after: Scene<S>) -> Seq<CommandView<S>> {
    views(appended(before@, after@))
}

/// The handler calls logged between `before` and `after`.
pub open spec fn added_reports<S>(before: Scene<S>, after: Scene<S>) -> Seq<Report<S>> {
    after.reports().subrange(before.reports().len() as int, after.reports().len() as int)
}

pub proof fn lemma_grows_refl<S>(s: Scene<S>)
    ensures
        grows(s, s),
        added(s, s) == Seq::<CommandView<S>>::empty(),
        added_reports(s, s) == Seq::<Report<S>>::empty(),
        reported_nodes(added_reports(s, s)) == Seq::<Node<S>>::empty(),
{
    assert(s@.subrange(0, s@.len() as int) =~= s@);
    assert(s.reports().subrange(0, s.reports().len() as int) =~= s.reports());
    assert(added(s, s) =~= Seq::<CommandView<S>>::empty());
    assert(added_reports(s, s) =~= Seq::<Report<S>>::empty());
    assert(reported_nodes(added_reports(s, s)) =~= Seq::<Node<S>>::empty());
}

pub proof fn lemma_grows_trans<S>(s0: Scene<S>, s1: Scene<S>, s2: Scene<S>)
    requires
        grows(s0, s1),
        grows(s1, s2),
    ensures
        grows(s0, s2),
        added(s0, s2) == added(s0, s1) + added(s1, s2),
        added_reports(s0, s2) == added_reports(s0, s1) + added_reports(s1, s2),
        reported_nodes(added_reports(s0, s2)) == reported_nodes(added_reports(s0, s1)) + reported_nodes(added_reports(s1, s2)),
{
    assert(s2@.subrange(0, s0@.len() as int) =~= s1@.subrange(0, s0@.len() as int));
    assert(s2.reports().subrange(0, s0.reports().len() as int) =~= s1.reports().subrange(0, s0.reports().len() as int));
    assert(appended(s0@, s2@) =~= appended(s0@, s1@) + appended(s1@, s2@));
    assert(added(s0, s2) =~= added(s0, s1) + added(s1, s2));
    assert(added_reports(s0, s2) =~= added_reports(s0, s1) + added_reports(s1, s2));
    assert(reported_nodes(added_reports(s0, s2)) =~= reported_nodes(added_reports(s0, s1)) + reported_nodes(added_reports(s1, s2)));
}

/// How many commands of `cmds` open a layer.
pub open spec fn pushes<S>(cmds: Seq<Command<S>>) -> nat
    decreases cmds.len(),
{
    if cmds.len() == 0 {
        0
    } else {
        pushes(cmds.drop_last()) + if cmds.last() is PushLayer { 1nat } else { 0nat }
    }
}

/// How many commands of `cmds` close a layer.
pub open spec fn pops<S>(cmds: Seq<Command<S>>) -> nat
    decreases cmds.len(),
{
    if cmds.len() == 0 {
        0
    } else {
        pops(cmds.drop_last()) + if cmds.last() is PopLayer { 1nat } else { 0nat }
    }
}

/// No prefix of `cmds` closes more layers than it opens.
pub open spec fn never_overclosed<S>(cmds: Seq<Command<S>>) -> bool {
    forall|i: int| 0 <= i <= cmds.len() ==> #[trigger] pops(cmds.subrange(0, i)) <= pushes(cmds.subrange(0, i))
}

/// The layers of `cmds` nest: as many are closed as are opened, and no
/// prefix closes more than it opens.
pub open spec fn balanced<S>(cmds: Seq<Command<S>>) -> bool {
    &&& pushes(cmds) == pops(cmds)
    &&& never_overclosed(cmds)
}

/// `after` is `before` with commands appended.
pub open spec fn extends<S>(before: Seq<Command<S>>, after: Seq<Command<S>>) -> bool {
    &&& before.len() <= after.len()
    &&& after.subrange(0, before.len() as int) == before
}

/// The commands appended to `before` to give `after`.
pub open spec fn appended<S>(before: Seq<Command<S>>, after: Seq<Command<S>>) -> Seq<Command<S>> {
    after.subrange(before.len() as int, after.len() as int)
}

/// `after` is `before` with draws appended, and nothing else.
pub open spec fn draws_appended<S>(before: Seq<Command<S>>, after: Seq<Command<S>>) -> bool {
    &&& extends(before, after)
    &&& forall|k: int| before.len() <= k < after.len() ==> #[trigger] after[k] is Draw
}

/// `after` is `before` with a balanced run of commands appended.
pub open spec fn extends_balanced<S>(before: Seq<Command<S>>, after: Seq<Command<S>>) -> bool {
    &&& extends(before, after)
    &&& balanced(appended(before, after))
}

pub proof fn lemma_counts_concat<S>(a: Seq<Command<S>>, b: Seq<Command<S>>)
    ensures
        pushes(a + b) == pushes(a) + pushes(b),
        pops(a + b) == pops(a) + pops(b),
    decreases b.len(),
{
    if b.len() == 0 {
        assert(a + b =~= a);
    } else {
        assert((a + b).drop_last() =~= a + b.drop_last());
        lemma_counts_concat(a, b.drop_last());
    }
}

pub proof fn lemma_draws_count_nothing<S>(d: Seq<Command<S>>)
    requires
        forall|k: int| 0 <= k < d.len() ==> #[trigger] d[k] is Draw,
    ensures
        pushes(d) == 0,
        pops(d) == 0,
    decreases d.len(),
{
    if d.len() > 0 {
        lemma_draws_count_nothing(d.drop_last());
    }
}

pub proof fn lemma_draws_balanced<S>(d: Seq<Command<S>>)
    requires
        forall|k: int| 0 <= k < d.len() ==> #[trigger] d[k] is Draw,
    ensures
        balanced(d),
{
    lemma_draws_count_nothing(d);
    assert forall|i: int| 0 <= i <= d.len() implies #[trigger] pops(d.subrange(0, i)) <= pushes(d.subrange(0, i)) by {
        let p = d.subrange(0, i);
        assert forall|k: int| 0 <= k < p.len() implies #[trigger] p[k] is Draw by {
            assert(p[k] == d[k]);
        }
        lemma_draws_count_nothing(p);
    }
}

pub proof fn lemma_concat_never_overclosed<S>(a: Seq<Command<S>>, b: Seq<Command<S>>)
    requires
        never_overclosed(a),
        never_overclosed(b),
    ensures
        never_overclosed(a + b),
{
    let c = a + b;
    assert(pops(a.subrange(0, a.len() as int)) <= pushes(a.subrange(0, a.len() as int)));
    assert(a.subrange(0, a.len() as int) =~= a);
    assert forall|i: int| 0 <= i <= c.len() implies #[trigger] pops(c.subrange(0, i)) <= pushes(c.subrange(0, i)) by {
        if i <= a.len() {
            assert(c.subrange(0, i) =~= a.subrange(0, i));
        } else {
            let j = i - a.len();
            assert(c.subrange(0, i) =~= a + b.subrange(0, j));
            lemma_counts_concat(a, b.subrange(0, j));
            assert(pops(b.subrange(0, j)) <= pushes(b.subrange(0, j)));
        }
    }
}

pub proof fn lemma_concat_balanced<S>(a: Seq<Command<S>>, b: Seq<Command<S>>)
    requires
        balanced(a),
        balanced(b),
    ensures
        balanced(a + b),
{
    lemma_counts_concat(a, b);
    lemma_concat_never_overclosed(a, b);
}

/// A balanced run between a push and a pop is balanced.
pub proof fn lemma_wrap_balanced<S>(layer: Layer<S>, b: Seq<Command<S>>)
    requires
        balanced(b),
    ensures
        balanced(seq![Command::PushLayer(layer)] + b + seq![Command::<S>::PopLayer]),
{
    let open = seq![Command::PushLayer(layer)];
    let close = seq![Command::<S>::PopLayer];
    assert(open.drop_last() =~= Seq::<Command<S>>::empty());
    assert(close.drop_last() =~= Seq::<Command<S>>::empty());
    assert(pushes(Seq::<Command<S>>::empty()) == 0 && pops(Seq::<Command<S>>::empty()) == 0);
    assert(open.last() is PushLayer && !(open.last() is PopLayer));
    assert(close.last() is PopLayer && !(close.last() is PushLayer));
    assert(pushes(open) == 1 && pops(open) == 0);
    assert(pushes(close) == 0 && pops(close) == 1);
    assert forall|i: int| 0 <= i <= open.len() implies #[trigger] pops(open.subrange(0, i)) <= pushes(open.subrange(0, i)) by {
        if i == 0 {
            assert(open.subrange(0, i) =~= Seq::<Command<S>>::empty());
        } else {
            assert(open.subrange(0, i) =~= open);
        }
    }
    lemma_concat_never_overclosed(open, b);
    lemma_counts_concat(open, b);
    let ob = open + b;
    let c = ob + close;
    lemma_counts_concat(ob, close);
    assert forall|i: int| 0 <= i <= c.len() implies #[trigger] pops(c.subrange(0, i)) <= pushes(c.subrange(0, i)) by {
        if i <= ob.len() {
            assert(c.subrange(0, i) =~= ob.subrange(0, i));
        } else {
            assert(c.subrange(0, i) =~= c);
        }
    }
}

pub proof fn lemma_draws_extend_balanced<S>(before: Seq<Command<S>>, after: Seq<Command<S>>)
    requires
        draws_appended(before, after),
    ensures
        extends_balanced(before, after),
{
    let d = appended(before, after);
    assert forall|k: int| 0 <= k < d.len() implies #[trigger] d[k] is Draw by {
        assert(d[k] == after[k + before.len()]);
    }
    lemma_draws_balanced(d);
}

pub proof fn lemma_extends_balanced_trans<S>(s0: Seq<Command<S>>, s1: Seq<Command<S>>, s2: Seq<Command<S>>)
    requires
        extends_balanced(s0, s1),
        extends_balanced(s1, s2),
    ensures
        extends_balanced(s0, s2),
{
    assert(s2.subrange(0, s0.len() as int) =~= s1.subrange(0, s0.len() as int));
    assert(appended(s0, s2) =~= appended(s0, s1) + appended(s1, s2));
    lemma_concat_balanced(appended(s0, s1), appended(s1, s2));
}

pub proof fn lemma_extends_balanced_refl<S>(s: Seq<Command<S>>)
    ensures
        extends_balanced(s, s),
{
    assert(s.subrange(0, s.len() as int) =~= s);
    lemma_draws_balanced(appended(s, s));
}

} // verus!
