use vello_svg::geometry::{PathEl, Point, Segment, Transform};
use vello_svg::paint::{Brush, Color, LinearGradient, Paint, RadialGradient, Rgb, Stop, FULL_OPACITY};
use vello_svg::render::{
    append_tree_with, draw_raster, placeholder, render_group, render_node, DefaultErrorHandler,
    ErrorHandler, Stopped,
};
use vello_svg::raster::RasterImage;
use vello_svg::scene::{Clip, Command, Draw, Flow, Scene};
use vello_svg::style::{Fill, FillRule, Join, LineCap, LineJoin, Stroke};
use vello_svg::tree::{BlendMode, Group, Image, ImageKind, Node, PaintOrder, Path, RasterFormat, Rect, Text, Tree};
use vello_svg::{render_tree, to_bez_path, to_brush, to_stroke};

fn identity() -> Transform<f64> {
    Transform { sx: 1.0, kx: 0.0, ky: 0.0, sy: 1.0, tx: 0.0, ty: 0.0 }
}

fn translate(tx: f64, ty: f64) -> Transform<f64> {
    Transform { sx: 1.0, kx: 0.0, ky: 0.0, sy: 1.0, tx, ty }
}

fn pt(x: f64, y: f64) -> Point<f64> {
    Point { x, y }
}

fn unit_rect() -> Rect<f64> {
    Rect { x0: 0.0, y0: 0.0, x1: 10.0, y1: 10.0 }
}

fn red() -> Paint<f64> {
    Paint::Color(Color { red: 255, green: 0, blue: 0, alpha: 255 })
}

fn fill(paint: Paint<f64>) -> Fill<f64> {
    Fill { paint, opacity: FULL_OPACITY, rule: FillRule::NonZero }
}

fn stroke(paint: Paint<f64>) -> Stroke<f64> {
    Stroke {
        paint,
        opacity: FULL_OPACITY,
        width: 2.0,
        linecap: LineCap::Round,
        linejoin: LineJoin::MiterClip,
        miterlimit: 4.0,
        dasharray: None,
        dashoffset: 0.0,
    }
}

fn path(fill: Option<Fill<f64>>, stroke: Option<Stroke<f64>>, order: PaintOrder) -> Path<f64> {
    Path {
        visible: true,
        fill,
        stroke,
        paint_order: order,
        segments: vec![Segment::MoveTo(pt(0.0, 0.0)), Segment::LineTo(pt(5.0, 0.0)), Segment::Close],
        bounding_box: unit_rect(),
    }
}

fn group(children: Vec<Node<f64>>) -> Group<f64> {
    Group {
        transform: identity(),
        opacity: FULL_OPACITY,
        blend_mode: BlendMode::Normal,
        clip_path: None,
        layer_bounding_box: unit_rect(),
        bounding_box: unit_rect(),
        children,
    }
}

fn tree(children: Vec<Node<f64>>) -> Tree<f64> {
    Tree { root: group(children) }
}

/// Counts its calls and draws nothing.
struct Counter {
    calls: usize,
}

impl ErrorHandler<f64> for Counter {
    fn handle(&mut self, _canvas: &mut Vec<Draw<f64>>, _node: &Node<f64>) -> Flow {
        self.calls += 1;
        Flow::Continue
    }
}

/// Asks to stop at the first report.
struct Stopper {
    calls: usize,
}

impl ErrorHandler<f64> for Stopper {
    fn handle(&mut self, canvas: &mut Vec<Draw<f64>>, node: &Node<f64>) -> Flow {
        self.calls += 1;
        canvas.push(placeholder(node));
        Flow::Stop
    }
}

fn kinds(cmds: &[Command<f64>]) -> Vec<&'static str> {
    cmds.iter()
        .map(|c| match c {
            Command::PushLayer(_) => "push",
            Command::PopLayer => "pop",
            Command::Draw(Draw::Fill(_)) => "fill",
            Command::Draw(Draw::Stroke(_)) => "stroke",
            Command::Draw(Draw::Image(_)) => "image",
        })
        .collect()
}

fn assert_nested(cmds: &[Command<f64>]) {
    let mut depth: i64 = 0;
    for c in cmds {
        match c {
            Command::PushLayer(_) => depth += 1,
            Command::PopLayer => depth -= 1,
            Command::Draw(_) => {}
        }
        assert!(depth >= 0);
    }
    assert_eq!(depth, 0);
}

#[test]
fn close_then_line_moves_back_to_start() {
    let segs = vec![
        Segment::MoveTo(pt(0.0, 0.0)),
        Segment::LineTo(pt(1.0, 0.0)),
        Segment::Close,
        Segment::LineTo(pt(2.0, 2.0)),
    ];
    let out = to_bez_path(&segs);
    assert_eq!(
        out,
        vec![
            PathEl::MoveTo(pt(0.0, 0.0)),
            PathEl::LineTo(pt(1.0, 0.0)),
            PathEl::ClosePath,
            PathEl::MoveTo(pt(0.0, 0.0)),
            PathEl::LineTo(pt(2.0, 2.0)),
        ]
    );
}

#[test]
fn close_then_move_restarts_at_old_start_first() {
    let segs = vec![
        Segment::MoveTo(pt(1.0, 1.0)),
        Segment::QuadTo(pt(2.0, 2.0), pt(3.0, 1.0)),
        Segment::Close,
        Segment::MoveTo(pt(7.0, 7.0)),
        Segment::CubicTo(pt(8.0, 8.0), pt(9.0, 8.0), pt(10.0, 7.0)),
    ];
    let out = to_bez_path(&segs);
    assert_eq!(
        out,
        vec![
            PathEl::MoveTo(pt(1.0, 1.0)),
            PathEl::QuadTo(pt(2.0, 2.0), pt(3.0, 1.0)),
            PathEl::ClosePath,
            PathEl::MoveTo(pt(1.0, 1.0)),
            PathEl::MoveTo(pt(7.0, 7.0)),
            PathEl::CurveTo(pt(8.0, 8.0), pt(9.0, 8.0), pt(10.0, 7.0)),
        ]
    );
}

#[test]
fn empty_segments_give_empty_outline() {
    let segs: Vec<Segment<f64>> = vec![];
    assert!(to_bez_path(&segs).is_empty());
}

#[test]
fn solid_alpha_is_scaled_by_opacity() {
    let paint: Paint<f64> = Paint::Color(Color { red: 10, green: 20, blue: 30, alpha: 200 });
    let half = 32768;
    let first = to_brush(&paint, half).unwrap();
    let second = to_brush(&paint, half).unwrap();
    assert_eq!(first, second);
    assert_eq!(first.0, Brush::Solid(Color { red: 10, green: 20, blue: 30, alpha: 100 }));
    assert!(first.1.is_none());
    let full = to_brush(&paint, FULL_OPACITY).unwrap();
    assert_eq!(full.0, Brush::Solid(Color { red: 10, green: 20, blue: 30, alpha: 200 }));
    let none = to_brush(&paint, 0).unwrap();
    assert_eq!(none.0, Brush::Solid(Color { red: 10, green: 20, blue: 30, alpha: 0 }));
}

#[test]
fn linear_gradient_keeps_stops_and_transform() {
    let paint = Paint::LinearGradient(LinearGradient {
        x1: 0.0,
        y1: 1.0,
        x2: 2.0,
        y2: 3.0,
        transform: Transform { sx: 1.0, kx: 2.0, ky: 3.0, sy: 4.0, tx: 5.0, ty: 6.0 },
        stops: vec![
            Stop { offset: 0.0, color: Rgb { red: 1, green: 2, blue: 3 }, opacity: FULL_OPACITY },
            Stop { offset: 0.5, color: Rgb { red: 4, green: 5, blue: 6 }, opacity: 32768 },
        ],
    });
    let (brush, t) = to_brush(&paint, 32768).unwrap();
    assert_eq!(t.unwrap().coeffs(), [1.0, 3.0, 2.0, 4.0, 5.0, 6.0]);
    match brush {
        Brush::Linear { start, end, stops } => {
            assert_eq!(start, pt(0.0, 1.0));
            assert_eq!(end, pt(2.0, 3.0));
            assert_eq!(stops.len(), 2);
            assert_eq!(stops[0].offset, 0.0);
            assert_eq!(stops[0].color, Color { red: 1, green: 2, blue: 3, alpha: 128 });
            assert_eq!(stops[1].offset, 0.5);
            assert_eq!(stops[1].color, Color { red: 4, green: 5, blue: 6, alpha: 64 });
        }
        other => panic!("not a linear brush: {:?}", other),
    }
}

#[test]
fn radial_gradient_starts_at_focus() {
    let paint = Paint::RadialGradient(RadialGradient {
        cx: 5.0,
        cy: 6.0,
        r: 7.0,
        fx: 1.0,
        fy: 2.0,
        transform: identity(),
        stops: vec![Stop { offset: 1.0, color: Rgb { red: 9, green: 9, blue: 9 }, opacity: 0 }],
    });
    let (brush, t) = to_brush(&paint, FULL_OPACITY).unwrap();
    assert_eq!(t.unwrap().coeffs(), [1.0, 0.0, 0.0, 1.0, 0.0, 0.0]);
    match brush {
        Brush::Radial { start_center, end_center, end_radius, stops } => {
            assert_eq!(start_center, pt(1.0, 2.0));
            assert_eq!(end_center, pt(5.0, 6.0));
            assert_eq!(end_radius, 7.0);
            assert_eq!(stops[0].color.alpha, 0);
        }
        other => panic!("not a radial brush: {:?}", other),
    }
}

#[test]
fn pattern_does_not_resolve() {
    let paint: Paint<f64> = Paint::Pattern;
    assert!(to_brush(&paint, FULL_OPACITY).is_none());
}

#[test]
fn stroke_style_maps_caps_joins_and_dashes() {
    let mut s = stroke(red());
    let style = to_stroke(&s);
    assert_eq!(style.width, 2.0);
    assert_eq!(style.join, Join::Miter);
    assert_eq!(style.miter_limit, 4.0);
    assert_eq!(style.start_cap, LineCap::Round);
    assert_eq!(style.end_cap, LineCap::Round);
    assert!(style.dashes.is_none());

    s.linejoin = LineJoin::Bevel;
    s.linecap = LineCap::Square;
    s.dasharray = Some(vec![1.0, 2.0, 3.0]);
    s.dashoffset = 0.5;
    let style = to_stroke(&s);
    assert_eq!(style.join, Join::Bevel);
    assert_eq!(style.start_cap, LineCap::Square);
    let dashes = style.dashes.unwrap();
    assert_eq!(dashes.offset, 0.5);
    assert_eq!(dashes.pattern, vec![1.0, 2.0, 3.0]);
}

#[test]
fn stroke_then_fill_order_is_kept() {
    let p = path(Some(fill(red())), Some(stroke(red())), PaintOrder::StrokeAndFill);
    let scene = render_tree(&tree(vec![Node::Path(p)]));
    assert_eq!(kinds(scene.commands()), vec!["push", "stroke", "fill", "pop"]);
}

#[test]
fn fill_then_stroke_order_is_kept() {
    let p = path(Some(fill(red())), Some(stroke(red())), PaintOrder::FillAndStroke);
    let scene = render_tree(&tree(vec![Node::Path(p)]));
    assert_eq!(kinds(scene.commands()), vec!["push", "fill", "stroke", "pop"]);
}

#[test]
fn fill_command_carries_path_and_transform() {
    let p = path(Some(fill(red())), None, PaintOrder::FillAndStroke);
    let mut g = group(vec![Node::Path(p)]);
    g.transform = translate(3.0, 4.0);
    let scene = render_tree(&Tree { root: g });
    let cmds = scene.commands();
    match &cmds[1] {
        Command::Draw(Draw::Fill(f)) => {
            assert_eq!(f.rule, FillRule::NonZero);
            assert_eq!(f.transform.len(), 1);
            assert_eq!(f.transform[0].coeffs(), [1.0, 0.0, 0.0, 1.0, 3.0, 4.0]);
            assert_eq!(f.brush, Brush::Solid(Color { red: 255, green: 0, blue: 0, alpha: 255 }));
            assert!(f.brush_transform.is_none());
            assert_eq!(
                f.shape,
                vec![PathEl::MoveTo(pt(0.0, 0.0)), PathEl::LineTo(pt(5.0, 0.0)), PathEl::ClosePath]
            );
        }
        other => panic!("not a fill: {:?}", other),
    }
}

#[test]
fn pattern_fill_is_reported_once() {
    let p = path(Some(fill(Paint::Pattern)), None, PaintOrder::FillAndStroke);
    let mut scene = Scene::new();
    let mut counter = Counter { calls: 0 };
    let r = append_tree_with(&mut scene, &tree(vec![Node::Path(p)]), &mut counter);
    assert_eq!(r, Ok(()));
    assert_eq!(counter.calls, 1);
    assert_eq!(kinds(scene.commands()), vec!["push", "pop"]);
}

#[test]
fn pattern_stroke_is_reported_and_fill_still_drawn() {
    let p = path(Some(fill(red())), Some(stroke(Paint::Pattern)), PaintOrder::FillAndStroke);
    let mut scene = Scene::new();
    let mut counter = Counter { calls: 0 };
    let r = append_tree_with(&mut scene, &tree(vec![Node::Path(p)]), &mut counter);
    assert_eq!(r, Ok(()));
    assert_eq!(counter.calls, 1);
    assert_eq!(kinds(scene.commands()), vec!["push", "fill", "pop"]);
}

#[test]
fn default_handler_draws_red_box_over_bounds() {
    let mut p = path(Some(fill(Paint::Pattern)), None, PaintOrder::FillAndStroke);
    p.bounding_box = Rect { x0: 1.0, y0: 2.0, x1: 3.0, y1: 4.0 };
    let scene = render_tree(&tree(vec![Node::Path(p)]));
    let cmds = scene.commands();
    assert_eq!(kinds(cmds), vec!["push", "fill", "pop"]);
    match &cmds[1] {
        Command::Draw(Draw::Fill(f)) => {
            assert_eq!(f.brush, Brush::Solid(Color { red: 255, green: 0, blue: 0, alpha: 128 }));
            assert!(f.transform.is_empty());
            assert_eq!(
                f.shape,
                vec![
                    PathEl::MoveTo(pt(1.0, 2.0)),
                    PathEl::LineTo(pt(3.0, 2.0)),
                    PathEl::LineTo(pt(3.0, 4.0)),
                    PathEl::LineTo(pt(1.0, 4.0)),
                    PathEl::ClosePath,
                ]
            );
        }
        other => panic!("not a fill: {:?}", other),
    }
}

#[test]
fn hidden_nodes_draw_nothing_and_siblings_still_draw() {
    let mut hidden_path = path(Some(fill(red())), Some(stroke(red())), PaintOrder::FillAndStroke);
    hidden_path.visible = false;
    let hidden_image = Image {
        visible: false,
        transform: identity(),
        kind: ImageKind::Raster(RasterFormat::Png, vec![1, 2, 3]),
        bounding_box: unit_rect(),
    };
    let shown = path(Some(fill(red())), None, PaintOrder::FillAndStroke);
    let mut counter = Counter { calls: 0 };
    let mut scene = Scene::new();
    let r = append_tree_with(
        &mut scene,
        &tree(vec![Node::Path(hidden_path), Node::Image(hidden_image), Node::Path(shown)]),
        &mut counter,
    );
    assert_eq!(r, Ok(()));
    assert_eq!(counter.calls, 0);
    assert_eq!(kinds(scene.commands()), vec!["push", "fill", "pop"]);
}

#[test]
fn hidden_node_alone_appends_nothing() {
    let mut p = path(Some(fill(red())), None, PaintOrder::FillAndStroke);
    p.visible = false;
    let mut scene = Scene::new();
    let base = vec![];
    let r = render_node(&mut scene, &Node::Path(p), &base, &mut DefaultErrorHandler);
    assert_eq!(r, Ok(()));
    assert!(scene.commands().is_empty());
}

#[test]
fn nested_groups_nest_layers() {
    let inner = group(vec![Node::Path(path(Some(fill(red())), None, PaintOrder::FillAndStroke))]);
    let middle = group(vec![Node::Group(inner), Node::Group(group(vec![]))]);
    let text = Text { flattened: Some(group(vec![])), bounding_box: unit_rect() };
    let scene = render_tree(&tree(vec![Node::Group(middle), Node::Text(text)]));
    let cmds = scene.commands();
    assert_eq!(
        kinds(cmds),
        vec!["push", "push", "push", "fill", "pop", "push", "pop", "pop", "push", "pop", "pop"]
    );
    assert_nested(cmds);
}

#[test]
fn group_layer_carries_blend_opacity_and_chain() {
    let mut inner = group(vec![]);
    inner.transform = translate(1.0, 2.0);
    inner.opacity = 100;
    inner.blend_mode = BlendMode::Multiply;
    let mut outer = group(vec![Node::Group(inner)]);
    outer.transform = translate(5.0, 6.0);
    let scene = render_tree(&Tree { root: outer });
    match &scene.commands()[1] {
        Command::PushLayer(l) => {
            assert_eq!(l.blend_mode, BlendMode::Multiply);
            assert_eq!(l.alpha, 100);
            assert_eq!(l.transform.len(), 2);
            assert_eq!(l.transform[0].coeffs(), [1.0, 0.0, 0.0, 1.0, 5.0, 6.0]);
            assert_eq!(l.transform[1].coeffs(), [1.0, 0.0, 0.0, 1.0, 1.0, 2.0]);
            assert_eq!(l.clip, Clip::Rect(unit_rect()));
        }
        other => panic!("not a layer: {:?}", other),
    }
}

#[test]
fn clip_path_with_path_clips_to_its_outline() {
    let clip_shape = path(None, None, PaintOrder::FillAndStroke);
    let mut g = group(vec![]);
    g.clip_path = Some(Box::new(group(vec![Node::Path(clip_shape)])));
    g.layer_bounding_box = Rect { x0: 9.0, y0: 9.0, x1: 9.0, y1: 9.0 };
    let mut scene = Scene::new();
    let base = vec![];
    let r = render_group(&mut scene, &g, &base, &mut DefaultErrorHandler);
    assert_eq!(r, Ok(()));
    match &scene.commands()[0] {
        Command::PushLayer(l) => assert_eq!(
            l.clip,
            Clip::Outline(vec![PathEl::MoveTo(pt(0.0, 0.0)), PathEl::LineTo(pt(5.0, 0.0)), PathEl::ClosePath])
        ),
        other => panic!("not a layer: {:?}", other),
    }
}

#[test]
fn clip_path_without_path_clips_to_layer_bounds() {
    let mut g = group(vec![]);
    g.clip_path = Some(Box::new(group(vec![Node::Group(group(vec![]))])));
    g.layer_bounding_box = Rect { x0: 1.0, y0: 2.0, x1: 3.0, y1: 4.0 };
    let mut scene = Scene::new();
    let base = vec![];
    render_group(&mut scene, &g, &base, &mut DefaultErrorHandler).unwrap();
    match &scene.commands()[0] {
        Command::PushLayer(l) => assert_eq!(l.clip, Clip::Rect(Rect { x0: 1.0, y0: 2.0, x1: 3.0, y1: 4.0 })),
        other => panic!("not a layer: {:?}", other),
    }
}

#[test]
fn text_without_flattening_is_reported() {
    let text = Text { flattened: None, bounding_box: unit_rect() };
    let mut counter = Counter { calls: 0 };
    let mut scene = Scene::new();
    append_tree_with(&mut scene, &tree(vec![Node::Text(text)]), &mut counter).unwrap();
    assert_eq!(counter.calls, 1);
    assert_eq!(kinds(scene.commands()), vec!["push", "pop"]);
}

#[test]
fn stop_signal_ends_translation_with_layers_closed() {
    let bad = path(Some(fill(Paint::Pattern)), Some(stroke(red())), PaintOrder::FillAndStroke);
    let after = path(Some(fill(red())), None, PaintOrder::FillAndStroke);
    let inner = group(vec![Node::Path(bad), Node::Path(after)]);
    let later = path(Some(fill(red())), None, PaintOrder::FillAndStroke);
    let mut stopper = Stopper { calls: 0 };
    let mut scene = Scene::new();
    let r = append_tree_with(&mut scene, &tree(vec![Node::Group(inner), Node::Path(later)]), &mut stopper);
    assert_eq!(r, Err(Stopped));
    assert_eq!(stopper.calls, 1);
    assert_eq!(kinds(scene.commands()), vec!["push", "push", "fill", "pop", "pop"]);
    assert_nested(scene.commands());
}

#[test]
fn undecodable_raster_is_reported() {
    let img = Image {
        visible: true,
        transform: identity(),
        kind: ImageKind::Raster(RasterFormat::Png, vec![0, 1, 2, 3]),
        bounding_box: unit_rect(),
    };
    let mut counter = Counter { calls: 0 };
    let mut scene = Scene::new();
    append_tree_with(&mut scene, &tree(vec![Node::Image(img)]), &mut counter).unwrap();
    assert_eq!(counter.calls, 1);
    assert_eq!(kinds(scene.commands()), vec!["push", "pop"]);
}

#[test]
fn png_raster_is_decoded_and_drawn() {
    let pixels: Vec<u8> = vec![255, 0, 0, 255, 0, 0, 255, 128];
    let buffer = image::RgbaImage::from_raw(2, 1, pixels.clone()).unwrap();
    let mut bytes = std::io::Cursor::new(Vec::new());
    buffer.write_to(&mut bytes, image::ImageFormat::Png).unwrap();
    let img = Image {
        visible: true,
        transform: translate(7.0, 8.0),
        kind: ImageKind::Raster(RasterFormat::Png, bytes.into_inner()),
        bounding_box: unit_rect(),
    };
    let mut counter = Counter { calls: 0 };
    let mut scene = Scene::new();
    append_tree_with(&mut scene, &tree(vec![Node::Image(img)]), &mut counter).unwrap();
    assert_eq!(counter.calls, 0);
    let cmds = scene.commands();
    assert_eq!(kinds(cmds), vec!["push", "image", "pop"]);
    match &cmds[1] {
        Command::Draw(Draw::Image(ic)) => {
            assert_eq!(ic.image.width, 2);
            assert_eq!(ic.image.height, 1);
            assert_eq!(ic.image.pixels, pixels);
            assert_eq!(ic.transform.len(), 2);
            assert_eq!(ic.transform[1].coeffs(), [1.0, 0.0, 0.0, 1.0, 7.0, 8.0]);
        }
        other => panic!("not an image: {:?}", other),
    }
}

#[test]
fn decoded_pixels_are_drawn_where_placed() {
    let node: Node<f64> = Node::Text(Text { flattened: None, bounding_box: unit_rect() });
    let decoded = RasterImage { width: 1, height: 1, pixels: vec![1, 2, 3, 4] };
    let mut scene = Scene::new();
    let base = vec![vello_svg::to_affine(&translate(1.0, 1.0))];
    let mut counter = Counter { calls: 0 };
    let r = draw_raster(&mut scene, &node, Some(decoded.clone()), &translate(2.0, 3.0), &base, &mut counter);
    assert_eq!(r, Ok(()));
    assert_eq!(counter.calls, 0);
    match &scene.commands()[0] {
        Command::Draw(Draw::Image(ic)) => {
            assert_eq!(ic.image, decoded);
            assert_eq!(ic.transform[0].coeffs(), [1.0, 0.0, 0.0, 1.0, 1.0, 1.0]);
            assert_eq!(ic.transform[1].coeffs(), [1.0, 0.0, 0.0, 1.0, 2.0, 3.0]);
        }
        other => panic!("not an image: {:?}", other),
    }
    let r = draw_raster(&mut scene, &node, None, &translate(2.0, 3.0), &base, &mut counter);
    assert_eq!(r, Ok(()));
    assert_eq!(counter.calls, 1);
    assert_eq!(scene.commands().len(), 1);
}

#[test]
fn embedded_document_is_drawn_through_image_transform() {
    let sub = tree(vec![Node::Path(path(Some(fill(red())), None, PaintOrder::FillAndStroke))]);
    let img = Image { visible: true, transform: translate(4.0, 0.0), kind: ImageKind::Svg(sub), bounding_box: unit_rect() };
    let scene = render_tree(&tree(vec![Node::Image(img)]));
    let cmds = scene.commands();
    assert_eq!(kinds(cmds), vec!["push", "push", "fill", "pop", "pop"]);
    match &cmds[2] {
        Command::Draw(Draw::Fill(f)) => {
            assert_eq!(f.transform.len(), 3);
            assert_eq!(f.transform[1].coeffs(), [1.0, 0.0, 0.0, 1.0, 4.0, 0.0]);
        }
        other => panic!("not a fill: {:?}", other),
    }
}

/// Leaves two placeholders per call, in order.
struct Twice;

impl ErrorHandler<f64> for Twice {
    fn handle(&mut self, canvas: &mut Vec<Draw<f64>>, node: &Node<f64>) -> Flow {
        canvas.push(placeholder(node));
        canvas.push(placeholder(node));
        Flow::Continue
    }
}

#[test]
fn handler_draws_are_appended_in_order_where_reported() {
    let bad = path(Some(fill(Paint::Pattern)), Some(stroke(red())), PaintOrder::FillAndStroke);
    let mut scene = Scene::new();
    append_tree_with(&mut scene, &tree(vec![Node::Path(bad)]), &mut Twice).unwrap();
    assert_eq!(kinds(scene.commands()), vec!["push", "fill", "fill", "stroke", "pop"]);
}

#[test]
fn append_report_appends_canvas_in_order() {
    let node: Node<f64> = Node::Text(Text { flattened: None, bounding_box: unit_rect() });
    let mut scene: Scene<f64> = Scene::new();
    let first = placeholder(&node);
    let second = Draw::Image(vello_svg::scene::ImageCommand {
        image: RasterImage { width: 0, height: 0, pixels: vec![] },
        transform: vec![],
    });
    scene.append_report(&node, vec![first.clone(), second.clone()], Flow::Continue);
    assert_eq!(scene.commands(), &vec![Command::Draw(first), Command::Draw(second)]);
}

#[test]
fn same_tree_gives_same_commands() {
    let p = path(Some(fill(red())), Some(stroke(red())), PaintOrder::StrokeAndFill);
    let q = path(Some(fill(red())), Some(stroke(red())), PaintOrder::StrokeAndFill);
    let a = render_tree(&tree(vec![Node::Path(p)]));
    let b = render_tree(&tree(vec![Node::Path(q)]));
    assert_eq!(a.commands(), b.commands());
}
