use vello_svg::render_tree;

#[test]
fn dummy_test_until_we_have_a_real_test() {}

#[test]
fn empty_tree_is_one_layer() {
    let tree: vello_svg::tree::Tree<f64> = vello_svg::tree::Tree {
        root: vello_svg::tree::Group {
            transform: vello_svg::geometry::Transform { sx: 1.0, kx: 0.0, ky: 0.0, sy: 1.0, tx: 0.0, ty: 0.0 },
            opacity: vello_svg::paint::FULL_OPACITY,
            blend_mode: vello_svg::tree::BlendMode::Normal,
            clip_path: None,
            layer_bounding_box: vello_svg::tree::Rect { x0: 0.0, y0: 0.0, x1: 1.0, y1: 1.0 },
            bounding_box: vello_svg::tree::Rect { x0: 0.0, y0: 0.0, x1: 1.0, y1: 1.0 },
            children: vec![],
        },
    };
    let scene = render_tree(&tree);
    assert_eq!(scene.commands().len(), 2);
}
