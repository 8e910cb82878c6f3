//! The document tree: groups, paths, images and text, with plain values for
//! everything the translation reads.

use vstd::prelude::*;
use crate::geometry::{Segment, Transform};
use crate::style::{Fill, Stroke};

verus! {

/// How a layer is composited onto what lies below it.
#[derive(Clone, Copy, Debug, PartialEq, Eq, Structural)]
pub enum BlendMode {
    Normal,
    Multiply,
    Screen,
    Overlay,
    Darken,
    Lighten,
    ColorDodge,
    ColorBurn,
    HardLight,
    SoftLight,
    Difference,
    Exclusion,
    Hue,
    Saturation,
    Color,
    Luminosity,
}

/// An axis-aligned rectangle from `(x0, y0)` to `(x1, y1)`.
#[derive(Clone, Copy, Debug, PartialEq)]
pub struct Rect<S> {
    pub x0: S,
    pub y0: S,
    pub x1: S,
    pub y1: S,
}

/// Which of fill and stroke is drawn first.
#[derive(Clone, Copy, Debug, PartialEq, Eq, Structural)]
pub enum PaintOrder {
    FillAndStroke,
    StrokeAndFill,
}

/// A path: segments with an optional fill and an optional stroke.
#[derive(Clone, Debug, PartialEq)]
pub struct Path<S> {
    pub visible: bool,
    pub fill: Option<Fill<S>>,
    pub stroke: Option<Stroke<S>>,
    pub paint_order: PaintOrder,
    pub segments: Vec<Segment<S>>,
    pub bounding_box: Rect<S>,
}

/// The encoding of raster image bytes.
#[derive(Clone, Copy, Debug, PartialEq, Eq, Structural)]
pub enum RasterFormat {
    Jpeg,
    Png,
    Gif,
    Webp,
}

/// What an image shows: encoded raster bytes, or a whole document of its own.
#[derive(Debug)]
pub enum ImageKind<S> {
    Raster(RasterFormat, Vec<u8>),
    Svg(Tree<S>),
}

/// An image; `transform` places its content in the parent's space.
#[derive(Debug)]
pub struct Image<S> {
    pub visible: bool,
    pub transform: Transform<S>,
    pub kind: ImageKind<S>,
    pub bounding_box: Rect<S>,
}

/// Text, drawn through the group of paths it was flattened into, when it was.
#[derive(Debug)]
pub struct Text<S> {
    pub flattened: Option<Group<S>>,
    pub bounding_box: Rect<S>,
}

/// A group of nodes drawn in one layer. Its `transform` maps its children
/// into the parent's space. The first child of `clip_path`, when it is a
/// path, is the layer's clip; otherwise the layer is clipped to
/// `layer_bounding_box`.
#[derive(Debug)]
pub struct Group<S> {
    pub transform: Transform<S>,
    pub opacity: u16,
    pub blend_mode: BlendMode,
    pub clip_path: Option<Box<Group<S>>>,
    pub layer_bounding_box: Rect<S>,
    pub bounding_box: Rect<S>,
    pub children: Vec<Node<S>>,
}

/// A node of the document tree.
#[derive(Debug)]
pub enum Node<S> {
    Group(Group<S>),
    Path(Path<S>),
    Image(Image<S>),
    Text(Text<S>),
}

/// A whole document, rooted at one group.
#[derive(Debug)]
pub struct Tree<S> {
    pub root: Group<S>,
}

/// The rectangle a node covers.
pub open spec fn node_bounds<S>(node: Node<S>) -> Rect<S> {
    match node {
        Node::Group(g) => g.bounding_box,
        Node::Path(p) => p.bounding_box,
        Node::Image(i) => i.bounding_box,
        Node::Text(t) => t.bounding_box,
    }
}

impl<S: Copy> Node<S> {
    /// The rectangle this node covers.
    pub fn bounding_box(&self) -> (r: Rect<S>)
        ensures
            r == node_bounds(*self),
    {
        match self {
            Node::Group(g) => g.bounding_box,
            Node::Path(p) => p.bounding_box,
            Node::Image(i) => i.bounding_box,
            Node::Text(t) => t.bounding_box,
        }
    }
}

} // verus!
