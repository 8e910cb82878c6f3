//! Paints as a document gives them, brushes as the scene draws them, and the
//! conversion between the two.

use vstd::prelude::*;
use crate::geometry::{Affine, Point, Transform, affine_of, to_affine};

verus! {

/// Opacity is given in steps of 1/65535: 0 is transparent, this is opaque.
pub const FULL_OPACITY: u16 = 65535;

/// A color without alpha.
#[derive(Clone, Copy, Debug, PartialEq)]
pub struct Rgb {
    pub red: u8,
    pub green: u8,
    pub blue: u8,
}

/// A color with 8-bit alpha.
#[derive(Clone, Copy, Debug, PartialEq)]
pub struct Color {
    pub red: u8,
    pub green: u8,
    pub blue: u8,
    pub alpha: u8,
}

/// One stop of a document gradient.
#[derive(Clone, Copy, Debug, PartialEq)]
pub struct Stop<S> {
    pub offset: S,
    pub color: Rgb,
    pub opacity: u16,
}

/// A gradient along the line from `(x1, y1)` to `(x2, y2)`, in the
/// gradient's own space, which `transform` maps into the shape's space.
#[derive(Clone, Debug, PartialEq)]
pub struct LinearGradient<S> {
    pub x1: S,
    pub y1: S,
    pub x2: S,
    pub y2: S,
    pub transform: Transform<S>,
    pub stops: Vec<Stop<S>>,
}

/// A gradient from the focal point `(fx, fy)` to the circle of radius `r`
/// around `(cx, cy)`.
#[derive(Clone, Debug, PartialEq)]
pub struct RadialGradient<S> {
    pub cx: S,
    pub cy: S,
    pub r: S,
    pub fx: S,
    pub fy: S,
    pub transform: Transform<S>,
    pub stops: Vec<Stop<S>>,
}

/// A document paint. Patterns cannot be drawn.
#[derive(Clone, Debug, PartialEq)]
pub enum Paint<S> {
    Color(Color),
    LinearGradient(LinearGradient<S>),
    RadialGradient(RadialGradient<S>),
    Pattern,
}

/// A stop of a scene gradient.
#[derive(Clone, Copy, Debug, PartialEq)]
pub struct ColorStop<S> {
    pub offset: S,
    pub color: Color,
}

/// A paint ready to draw. A radial brush starts with radius zero at
/// `start_center` and ends with `end_radius` around `end_center`.
#[derive(Clone, Debug, PartialEq)]
pub enum Brush<S> {
    Solid(Color),
    Linear { start: Point<S>, end: Point<S>, stops: Vec<ColorStop<S>> },
    Radial { start_center: Point<S>, end_center: Point<S>, end_radius: S, stops: Vec<ColorStop<S>> },
}

/// `alpha` scaled by `opacity`, rounded to the nearest step.
pub open spec fn scaled_alpha(alpha: int, opacity: int) -> int {
    (alpha * opacity + 32767) / 65535
}

/// The alpha of a gradient stop: full alpha scaled by the stop's opacity and
/// by the paint's, rounded to the nearest step.
pub open spec fn stop_alpha(stop_opacity: int, opacity: int) -> int {
    (255 * stop_opacity * opacity + 2147418112) / 4294836225
}

/// A solid color with its alpha scaled by `opacity`.
pub open spec fn solid_color(c: Color, opacity: u16) -> Color {
    Color { red: c.red, green: c.green, blue: c.blue, alpha: scaled_alpha(c.alpha as int, opacity as int) as u8 }
}

/// A document stop as a scene stop under the paint's `opacity`.
pub open spec fn color_stop<S>(s: Stop<S>, opacity: u16) -> ColorStop<S> {
    ColorStop {
        offset: s.offset,
        color: Color {
            red: s.color.red,
            green: s.color.green,
            blue: s.color.blue,
            alpha: stop_alpha(s.opacity as int, opacity as int) as u8,
        },
    }
}

/// The stops of a document gradient as scene stops, in the same order.
pub open spec fn color_stops<S>(stops: Seq<Stop<S>>, opacity: u16) -> Seq<ColorStop<S>> {
    stops.map_values(|s: Stop<S>| color_stop(s, opacity))
}

/// A brush as a value: its stops as a sequence.
pub enum BrushView<S> {
    Solid(Color),
    Linear { start: Point<S>, end: Point<S>, stops: Seq<ColorStop<S>> },
    Radial { start_center: Point<S>, end_center: Point<S>, end_radius: S, stops: Seq<ColorStop<S>> },
}

impl<S> View for Brush<S> {
    type V = BrushView<S>;

    open spec fn view(&self) -> BrushView<S> {
        match self {
            Brush::Solid(c) => BrushView::Solid(*c),
            Brush::Linear { start, end, stops } => BrushView::Linear { start: *start, end: *end, stops: stops@ },
            Brush::Radial { start_center, end_center, end_radius, stops } => BrushView::Radial {
                start_center: *start_center,
                end_center: *end_center,
                end_radius: *end_radius,
                stops: stops@,
            },
        }
    }
}

/// What `paint` resolves to under `opacity`: a brush and the transform to
/// draw it through in paint space (none meaning the identity); nothing for
/// a pattern.
pub open spec fn brush_of<S>(paint: Paint<S>, opacity: u16) -> Option<(BrushView<S>, Option<Affine<S>>)> {
    match paint {
        Paint::Color(c) => Some((BrushView::Solid(solid_color(c, opacity)), None)),
        Paint::LinearGradient(g) => Some((
            BrushView::Linear {
                start: Point { x: g.x1, y: g.y1 },
                end: Point { x: g.x2, y: g.y2 },
                stops: color_stops(g.stops@, opacity),
            },
            Some(affine_of(g.transform)),
        )),
        Paint::RadialGradient(g) => Some((
            BrushView::Radial {
                start_center: Point { x: g.fx, y: g.fy },
                end_center: Point { x: g.cx, y: g.cy },
                end_radius: g.r,
                stops: color_stops(g.stops@, opacity),
            },
            Some(affine_of(g.transform)),
        )),
        Paint::Pattern => None,
    }
}

/// Whether a brush can be made of `paint`: every paint but a pattern.
pub open spec fn resolvable<S>(paint: Paint<S>) -> bool {
    !(paint is Pattern)
}

/// Resolving a solid color depends on the color and the opacity alone, and
/// gives a solid brush of the same color whose alpha is the color's alpha
/// scaled by the opacity and rounded, drawn without a paint transform. Full
/// opacity keeps the alpha, and no opacity raises it.
pub proof fn solid_alpha_composition<S>(c: Color, opacity: u16)
    ensures
        brush_of::<S>(Paint::Color(c), opacity) matches Some((BrushView::Solid(k), None))
            && k.red == c.red && k.green == c.green && k.blue == c.blue
            && k.alpha as int == scaled_alpha(c.alpha as int, opacity as int)
            && k.alpha <= c.alpha
            && (opacity == FULL_OPACITY ==> k.alpha == c.alpha),
{
    let a = c.alpha as int;
    let o = opacity as int;
    assert(a * o <= a * 65535) by (nonlinear_arith)
        requires 0 <= a, o <= 65535;
    assert((a * o + 32767) / 65535 <= a) by (nonlinear_arith)
        requires 0 <= a <= 255, 0 <= a * o <= a * 65535;
    assert(0 <= (a * o + 32767) / 65535) by (nonlinear_arith)
        requires 0 <= a, 0 <= o;
    assert(o == 65535 ==> (a * o + 32767) / 65535 == a) by (nonlinear_arith)
        requires 0 <= a <= 255;
}

fn scale_alpha(alpha: u8, opacity: u16) -> (r: u8)
    ensures
        r as int == scaled_alpha(alpha as int, opacity as int),
{
    let a = alpha as u32;
    let o = opacity as u32;
    assert(a * o <= 255 * 65535) by (nonlinear_arith)
        requires a <= 255, o <= 65535;
    assert((a * o + 32767) / 65535 <= 255) by (nonlinear_arith)
        requires a * o <= 255 * 65535;
    ((a * o + 32767) / 65535) as u8
}

fn scale_stop_alpha(stop_opacity: u16, opacity: u16) -> (r: u8)
    ensures
        r as int == stop_alpha(stop_opacity as int, opacity as int),
{
    let s = stop_opacity as u64;
    let o = opacity as u64;
    assert(s * o <= 65535 * 65535) by (nonlinear_arith)
        requires s <= 65535, o <= 65535;
    assert((255 * (s * o) + 2147418112) / 4294836225 <= 255) by (nonlinear_arith)
        requires s * o <= 65535 * 65535;
    assert(255 * s * o == 255 * (s * o)) by (nonlinear_arith);
    ((255 * (s * o) + 2147418112) / 4294836225) as u8
}

fn to_color_stops<S: Copy>(stops: &Vec<Stop<S>>, opacity: u16) -> (r: Vec<ColorStop<S>>)
    ensures
        r@ == color_stops(stops@, opacity),
{
    let mut out: Vec<ColorStop<S>> = Vec::new();
    let mut i: usize = 0;
    while i < stops.len()
        invariant
            i <= stops.len(),
            out@ =~= stops@.subrange(0, i as int).map_values(|s: Stop<S>| color_stop(s, opacity)),
        decreases stops.len() - i,
    {
        let s = stops[i];
        let alpha = scale_stop_alpha(s.opacity, opacity);
        out.push(ColorStop {
            offset: s.offset,
            color: Color { red: s.color.red, green: s.color.green, blue: s.color.blue, alpha },
        });
        i += 1;
        assert(out@ =~= stops@.subrange(0, i as int).map_values(|s: Stop<S>| color_stop(s, opacity)));
    }
    assert(stops@.subrange(0, stops.len() as int) =~= stops@);
    out
}

/// Resolves a paint under an opacity into a brush and the transform to apply
/// to it in paint space (none meaning the identity). A pattern resolves to
/// nothing.
pub fn to_brush<S: Copy>(paint: &Paint<S>, opacity: u16) -> (r: Option<(Brush<S>, Option<Affine<S>>)>)
    ensures
        r is Some <==> resolvable(*paint),
        match r {
            None => brush_of(*paint, opacity) is None,
            Some((b, t)) => brush_of(*paint, opacity) == Some((b@, t)),
        },
{
    match paint {
        Paint::Color(c) => {
            let alpha = scale_alpha(c.alpha, opacity);
            Some((Brush::Solid(Color { red: c.red, green: c.green, blue: c.blue, alpha }), None))
        },
        Paint::LinearGradient(g) => {
            let stops = to_color_stops(&g.stops, opacity);
            let brush = Brush::Linear {
                start: Point { x: g.x1, y: g.y1 },
                end: Point { x: g.x2, y: g.y2 },
                stops,
            };
            Some((brush, Some(to_affine(&g.transform))))
        },
        Paint::RadialGradient(g) => {
            let stops = to_color_stops(&g.stops, opacity);
            let brush = Brush::Radial {
                start_center: Point { x: g.fx, y: g.fy },
                end_center: Point { x: g.cx, y: g.cy },
                end_radius: g.r,
                stops,
            };
            Some((brush, Some(to_affine(&g.transform))))
        },
        Paint::Pattern => None,
    }
}

} // verus!
