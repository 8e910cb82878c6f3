//! Points, transforms and path outlines.

use vstd::prelude::*;

verus! {

/// A point in a coordinate space.
#[derive(Clone, Copy, Debug, PartialEq)]
pub struct Point<S> {
    pub x: S,
    pub y: S,
}

/// A 2×3 affine transform as a document writes it: the matrix
/// `[sx kx tx; ky sy ty]`.
#[derive(Clone, Copy, Debug, PartialEq)]
pub struct Transform<S> {
    pub sx: S,
    pub kx: S,
    pub ky: S,
    pub sy: S,
    pub tx: S,
    pub ty: S,
}

/// An affine map in column order, which sends `(x, y)` to
/// `(a x + c y + e, b x + d y + f)`.
#[derive(Clone, Copy, Debug, PartialEq)]
pub struct Affine<S> {
    pub a: S,
    pub b: S,
    pub c: S,
    pub d: S,
    pub e: S,
    pub f: S,
}

impl<S: Copy> Affine<S> {
    /// The coefficients `[a, b, c, d, e, f]`.
    pub fn coeffs(&self) -> (r: [S; 6])
        ensures
            r@ == seq![self.a, self.b, self.c, self.d, self.e, self.f],
    {
        let r = [self.a, self.b, self.c, self.d, self.e, self.f];
        assert(r@ =~= seq![self.a, self.b, self.c, self.d, self.e, self.f]);
        r
    }
}

/// The affine map of a document transform: the same map, with the skews in
/// column order.
pub open spec fn affine_of<S>(t: Transform<S>) -> Affine<S> {
    Affine { a: t.sx, b: t.ky, c: t.kx, d: t.sy, e: t.tx, f: t.ty }
}

/// Converts a document transform to an affine map with the same meaning.
pub fn to_affine<S: Copy>(t: &Transform<S>) -> (r: Affine<S>)
    ensures
        r == affine_of(*t),
{
    Affine { a: t.sx, b: t.ky, c: t.kx, d: t.sy, e: t.tx, f: t.ty }
}

/// One segment of a document path.
#[derive(Clone, Copy, Debug, PartialEq)]
pub enum Segment<S> {
    MoveTo(Point<S>),
    LineTo(Point<S>),
    QuadTo(Point<S>, Point<S>),
    CubicTo(Point<S>, Point<S>, Point<S>),
    Close,
}

/// One element of an outline, as the scene draws it.
#[derive(Clone, Copy, Debug, PartialEq)]
pub enum PathEl<S> {
    MoveTo(Point<S>),
    LineTo(Point<S>),
    QuadTo(Point<S>, Point<S>),
    CurveTo(Point<S>, Point<S>, Point<S>),
    ClosePath,
}

/// The move that restarts drawing at the most recent sub-path start, owed
/// when the previous segment closed the sub-path.
pub open spec fn reopen<S>(start: Option<Point<S>>, just_closed: bool) -> Seq<PathEl<S>> {
    if just_closed && start is Some {
        seq![PathEl::MoveTo(start->0)]
    } else {
        seq![]
    }
}

/// The outline element that a drawing segment becomes.
pub open spec fn drawn<S>(seg: Segment<S>) -> PathEl<S> {
    match seg {
        Segment::MoveTo(p) => PathEl::MoveTo(p),
        Segment::LineTo(p) => PathEl::LineTo(p),
        Segment::QuadTo(p1, p2) => PathEl::QuadTo(p1, p2),
        Segment::CubicTo(p1, p2, p3) => PathEl::CurveTo(p1, p2, p3),
        Segment::Close => PathEl::ClosePath,
    }
}

/// The state after reading `segs` from the left: the outline emitted so far,
/// the start of the most recent sub-path, and whether the last segment was a
/// close.
pub open spec fn outline_scan<S>(segs: Seq<Segment<S>>) -> (Seq<PathEl<S>>, Option<Point<S>>, bool)
    decreases segs.len(),
{
    if segs.len() == 0 {
        (seq![], None, false)
    } else {
        let prev = outline_scan(segs.drop_last());
        let seg = segs.last();
        match seg {
            Segment::Close => (prev.0.push(PathEl::ClosePath), prev.1, true),
            Segment::MoveTo(p) => (prev.0 + reopen(prev.1, prev.2) + seq![drawn(seg)], Some(p), false),
            _ => (prev.0 + reopen(prev.1, prev.2) + seq![drawn(seg)], prev.1, false),
        }
    }
}

/// The outline of a segment sequence: each segment in order, where a drawing
/// segment that follows a close first moves back to the start of the most
/// recent sub-path.
pub open spec fn outline_of<S>(segs: Seq<Segment<S>>) -> Seq<PathEl<S>> {
    outline_scan(segs).0
}

/// After a close, drawing goes on from the start of the closed sub-path: a
/// move, a line, a close and a second line give the move, the line, the
/// close, a move back to the start, and the second line.
pub proof fn close_then_draw_restarts<S>(p0: Point<S>, p1: Point<S>, p2: Point<S>)
    ensures
        outline_of(seq![Segment::MoveTo(p0), Segment::LineTo(p1), Segment::Close, Segment::LineTo(p2)])
            == seq![PathEl::MoveTo(p0), PathEl::LineTo(p1), PathEl::ClosePath, PathEl::MoveTo(p0), PathEl::LineTo(p2)],
{
    let s1 = seq![Segment::MoveTo(p0)];
    let s2 = s1.push(Segment::LineTo(p1));
    let s3 = s2.push(Segment::Close);
    let s4 = s3.push(Segment::LineTo(p2));
    assert(s4 =~= seq![Segment::MoveTo(p0), Segment::LineTo(p1), Segment::Close, Segment::LineTo(p2)]);
    assert(s4.drop_last() =~= s3);
    assert(s3.drop_last() =~= s2);
    assert(s2.drop_last() =~= s1);
    assert(s1.drop_last() =~= Seq::<Segment<S>>::empty());
    assert(outline_scan(Seq::<Segment<S>>::empty()) == (Seq::<PathEl<S>>::empty(), None::<Point<S>>, false));
    assert(reopen(None::<Point<S>>, false) =~= Seq::<PathEl<S>>::empty());
    assert(reopen(Some(p0), false) =~= Seq::<PathEl<S>>::empty());
    assert(reopen(Some(p0), true) =~= seq![PathEl::MoveTo(p0)]);
    assert(outline_scan(s1).0 =~= seq![PathEl::MoveTo(p0)]);
    assert(outline_scan(s2).0 =~= seq![PathEl::MoveTo(p0), PathEl::LineTo(p1)]);
    assert(outline_scan(s3).0 =~= seq![PathEl::MoveTo(p0), PathEl::LineTo(p1), PathEl::ClosePath]);
    assert(outline_scan(s4).0 =~= seq![PathEl::MoveTo(p0), PathEl::LineTo(p1), PathEl::ClosePath, PathEl::MoveTo(p0), PathEl::LineTo(p2)]);
}

fn push_reopen<S: Copy>(out: &mut Vec<PathEl<S>>, start: Option<Point<S>>, just_closed: bool)
    ensures
        final(out)@ == old(out)@ + reopen(start, just_closed),
{
    if just_closed {
        if let Some(p) = start {
            out.push(PathEl::MoveTo(p));
        }
    }
    assert(out@ =~= old(out)@ + reopen(start, just_closed));
}

/// Builds the outline of a segment sequence.
pub fn to_bez_path<S: Copy>(segments: &Vec<Segment<S>>) -> (r: Vec<PathEl<S>>)
    ensures
        r@ == outline_of(segments@),
{
    let mut out: Vec<PathEl<S>> = Vec::new();
    let mut start: Option<Point<S>> = None;
    let mut just_closed = false;
    let mut i: usize = 0;
    while i < segments.len()
        invariant
            i <= segments.len(),
            outline_scan(segments@.subrange(0, i as int)) == (out@, start, just_closed),
        decreases segments.len() - i,
    {
        let seg = segments[i];
        proof {
            assert(segments@.subrange(0, i + 1).drop_last() =~= segments@.subrange(0, i as int));
        }
        match seg {
            Segment::Close => {
                out.push(PathEl::ClosePath);
            },
            Segment::MoveTo(p) => {
                push_reopen(&mut out, start, just_closed);
                out.push(PathEl::MoveTo(p));
                start = Some(p);
            },
            Segment::LineTo(p) => {
                push_reopen(&mut out, start, just_closed);
                out.push(PathEl::LineTo(p));
            },
            Segment::QuadTo(p1, p2) => {
                push_reopen(&mut out, start, just_closed);
                out.push(PathEl::QuadTo(p1, p2));
            },
            Segment::CubicTo(p1, p2, p3) => {
                push_reopen(&mut out, start, just_closed);
                out.push(PathEl::CurveTo(p1, p2, p3));
            },
        }
        just_closed = matches!(seg, Segment::Close);
        proof {
            assert(out@ =~= outline_scan(segments@.subrange(0, i + 1)).0);
        }
        i += 1;
    }
    assert(segments@.subrange(0, segments.len() as int) =~= segments@);
    out
}

} // verus!
