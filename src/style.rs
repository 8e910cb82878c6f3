//! Fill and stroke as a document declares them, and the stroke description
//! that the scene draws with.

use vstd::prelude::*;
use crate::paint::Paint;

verus! {

/// Which points a fill covers.
#[derive(Clone, Copy, Debug, PartialEq, Eq, Structural)]
pub enum FillRule {
    NonZero,
    EvenOdd,
}

/// The fill of a document path.
#[derive(Clone, Debug, PartialEq)]
pub struct Fill<S> {
    pub paint: Paint<S>,
    pub opacity: u16,
    pub rule: FillRule,
}

/// How a stroke ends.
#[derive(Clone, Copy, Debug, PartialEq, Eq, Structural)]
pub enum LineCap {
    Butt,
    Round,
    Square,
}

/// How a document joins two stroked segments.
#[derive(Clone, Copy, Debug, PartialEq, Eq, Structural)]
pub enum LineJoin {
    Miter,
    MiterClip,
    Round,
    Bevel,
}

/// How the scene joins two stroked segments.
#[derive(Clone, Copy, Debug, PartialEq, Eq, Structural)]
pub enum Join {
    Bevel,
    Miter,
    Round,
}

/// The stroke of a document path. A width is positive; no dash array means
/// a solid stroke.
#[derive(Clone, Debug, PartialEq)]
pub struct Stroke<S> {
    pub paint: Paint<S>,
    pub opacity: u16,
    pub width: S,
    pub linecap: LineCap,
    pub linejoin: LineJoin,
    pub miterlimit: S,
    pub dasharray: Option<Vec<S>>,
    pub dashoffset: S,
}

/// A dash pattern and where in it the stroke starts.
#[derive(Clone, Debug, PartialEq)]
pub struct Dashes<S> {
    pub offset: S,
    pub pattern: Vec<S>,
}

/// How the scene strokes an outline.
#[derive(Clone, Debug, PartialEq)]
pub struct StrokeStyle<S> {
    pub width: S,
    pub join: Join,
    pub miter_limit: S,
    pub start_cap: LineCap,
    pub end_cap: LineCap,
    pub dashes: Option<Dashes<S>>,
}

/// The scene join for a document join: a clipped miter is drawn as a miter.
pub open spec fn join_of(j: LineJoin) -> Join {
    match j {
        LineJoin::Miter | LineJoin::MiterClip => Join::Miter,
        LineJoin::Round => Join::Round,
        LineJoin::Bevel => Join::Bevel,
    }
}

/// A stroke description as a value: the dashes as an offset and a sequence.
pub struct StrokeStyleView<S> {
    pub width: S,
    pub join: Join,
    pub miter_limit: S,
    pub start_cap: LineCap,
    pub end_cap: LineCap,
    pub dashes: Option<(S, Seq<S>)>,
}

impl<S> View for StrokeStyle<S> {
    type V = StrokeStyleView<S>;

    open spec fn view(&self) -> StrokeStyleView<S> {
        StrokeStyleView {
            width: self.width,
            join: self.join,
            miter_limit: self.miter_limit,
            start_cap: self.start_cap,
            end_cap: self.end_cap,
            dashes: match self.dashes {
                Some(d) => Some((d.offset, d.pattern@)),
                None => None,
            },
        }
    }
}

/// How the scene strokes what `stroke` declares: both ends get its cap, and
/// a dash array becomes a dash pattern that starts at the dash offset.
pub open spec fn stroke_style_of<S>(stroke: Stroke<S>) -> StrokeStyleView<S> {
    StrokeStyleView {
        width: stroke.width,
        join: join_of(stroke.linejoin),
        miter_limit: stroke.miterlimit,
        start_cap: stroke.linecap,
        end_cap: stroke.linecap,
        dashes: match stroke.dasharray {
            Some(a) => Some((stroke.dashoffset, a@)),
            None => None,
        },
    }
}

/// A copy of a vector of copyable values.
pub fn copied<T: Copy>(v: &Vec<T>) -> (r: Vec<T>)
    ensures
        r@ == v@,
{
    let mut out: Vec<T> = Vec::new();
    let mut i: usize = 0;
    while i < v.len()
        invariant
            i <= v.len(),
            out@ =~= v@.subrange(0, i as int),
        decreases v.len() - i,
    {
        out.push(v[i]);
        i += 1;
    }
    assert(v@.subrange(0, v.len() as int) =~= v@);
    out
}

/// Converts a document stroke into the scene's stroke description.
pub fn to_stroke<S: Copy>(stroke: &Stroke<S>) -> (r: StrokeStyle<S>)
    ensures
        r@ == stroke_style_of(*stroke),
{
    let join = match stroke.linejoin {
        LineJoin::Miter | LineJoin::MiterClip => Join::Miter,
        LineJoin::Round => Join::Round,
        LineJoin::Bevel => Join::Bevel,
    };
    let dashes = match &stroke.dasharray {
        None => None,
        Some(a) => Some(Dashes { offset: stroke.dashoffset, pattern: copied(a) }),
    };
    StrokeStyle {
        width: stroke.width,
        join,
        miter_limit: stroke.miterlimit,
        start_cap: stroke.linecap,
        end_cap: stroke.linecap,
        dashes,
    }
}

} // verus!
