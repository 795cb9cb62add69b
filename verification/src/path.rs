//! Walking a path: from an ordered sequence of segments to the ordered
//! sequence of tagged grid points.
//!
//! The walker keeps a cursor, the end of the last segment that set one, which
//! starts at the origin. A move or a line emits its end point, tagged with the
//! index of the segment. A curve emits `resolution` samples at
//! `t = 0, 1 / resolution, ..`, each tagged with its index within the curve;
//! `t = 1` is never sampled. Closing a path emits nothing and leaves the
//! cursor where it is.

use crate::bezier::{
    calculate_cubic_bezier_point,
    calculate_quad_bezier_point,
    cubic_axis,
    quad_axis,
};
use crate::error::ConversionError;
use crate::point::{grid_cell, FullUPoint, Point, UPoint};
use vstd::prelude::*;

verus! {

/// One drawing step of a path.
#[derive(Clone, Copy, Debug, PartialEq, Eq, Structural)]
pub enum Segment {
    /// Lifts the pen and puts it down at the point.
    MoveTo(Point),
    /// A straight line from the cursor to the point.
    LineTo(Point),
    /// A quadratic curve from the cursor, with one control point, to the end
    /// point.
    QuadTo(Point, Point),
    /// A cubic curve from the cursor, with two control points, to the end
    /// point.
    CubicTo(Point, Point, Point),
    /// Closes the current outline.
    Close,
}

/// A continuous point on its way to the grid: coordinates in fixed-point
/// units, and the tag that the grid point will carry.
pub struct Sample {
    pub x: int,
    pub y: int,
    pub tag: int,
}

impl Sample {
    /// Whether the sample rounds to a cell of the grid.
    pub open spec fn on_grid(self) -> bool {
        grid_cell(self.x) >= 0 && grid_cell(self.y) >= 0
    }

    /// The tagged grid point of a sample that is on the grid.
    pub open spec fn quantized(self) -> FullUPoint {
        FullUPoint {
            x: grid_cell(self.x) as u64,
            y: grid_cell(self.y) as u64,
            segment: self.tag as u64,
        }
    }
}

/// Whether every sample rounds to a cell of the grid.
pub open spec fn all_on_grid(samples: Seq<Sample>) -> bool {
    forall|k: int| 0 <= k < samples.len() ==> (#[trigger] samples[k]).on_grid()
}

/// The tagged grid points of a sequence of samples, in the same order.
pub open spec fn quantized_samples(samples: Seq<Sample>) -> Seq<FullUPoint> {
    Seq::new(samples.len(), |k: int| samples[k].quantized())
}

impl Segment {
    /// Where the cursor stands after the segment, having stood at `cursor`
    /// before it.
    pub open spec fn end_point(self, cursor: Point) -> Point {
        match self {
            Segment::MoveTo(p) => p,
            Segment::LineTo(p) => p,
            Segment::QuadTo(_, end) => end,
            Segment::CubicTo(_, _, end) => end,
            Segment::Close => cursor,
        }
    }

    /// The samples that the segment emits when the cursor stands at `cursor`
    /// and the segment is the `index`-th of its path.
    pub open spec fn samples(self, cursor: Point, index: int, resolution: int) -> Seq<Sample> {
        match self {
            Segment::MoveTo(p) => seq![Sample { x: p.x@, y: p.y@, tag: index }],
            Segment::LineTo(p) => seq![Sample { x: p.x@, y: p.y@, tag: index }],
            Segment::QuadTo(c1, end) => Seq::new(
                resolution as nat,
                |i: int|
                    Sample {
                        x: quad_axis(cursor.x@, c1.x@, end.x@, i, resolution),
                        y: quad_axis(cursor.y@, c1.y@, end.y@, i, resolution),
                        tag: i,
                    },
            ),
            Segment::CubicTo(c1, c2, end) => Seq::new(
                resolution as nat,
                |i: int|
                    Sample {
                        x: cubic_axis(cursor.x@, c1.x@, c2.x@, end.x@, i, resolution),
                        y: cubic_axis(cursor.y@, c1.y@, c2.y@, end.y@, i, resolution),
                        tag: i,
                    },
            ),
            Segment::Close => Seq::empty(),
        }
    }

    /// Computes [`Segment::end_point`].
    pub fn next_cursor(&self, cursor: &Point) -> (r: Point)
        ensures
            r == self.end_point(*cursor),
    {
        match self {
            Segment::MoveTo(p) => *p,
            Segment::LineTo(p) => *p,
            Segment::QuadTo(_, end) => *end,
            Segment::CubicTo(_, _, end) => *end,
            Segment::Close => *cursor,
        }
    }

    /// The tagged grid points that the segment emits, in order, when the cursor
    /// stands at `cursor` and the segment is the `index`-th of its path. Fails
    /// when one of them would land on a negative cell.
    pub fn points(&self, cursor: &Point, index: u64, resolution: u16) -> (r: Result<
        Vec<FullUPoint>,
        ConversionError,
    >)
        ensures
            match r {
                Ok(v) => all_on_grid(self.samples(*cursor, index as int, resolution as int))
                    && v@ == quantized_samples(
                    self.samples(*cursor, index as int, resolution as int),
                ),
                Err(e) => !all_on_grid(self.samples(*cursor, index as int, resolution as int))
                    && e == ConversionError::QuantizationDomainError,
            },
    {
        let ghost samples = self.samples(*cursor, index as int, resolution as int);
        let mut out: Vec<FullUPoint> = Vec::new();
        match self {
            Segment::MoveTo(p) | Segment::LineTo(p) => {
                assert(samples =~= seq![Sample { x: p.x@, y: p.y@, tag: index as int }]);
                match UPoint::from_point(p) {
                    Ok(q) => {
                        out.push(FullUPoint::from_upoint(&q, index));
                        assert(out@ =~= quantized_samples(samples));
                        Ok(out)
                    },
                    Err(e) => {
                        assert(!samples[0].on_grid());
                        Err(e)
                    },
                }
            },
            Segment::QuadTo(c1, end) => {
                let mut i: u16 = 0;
                while i < resolution
                    invariant
                        i <= resolution,
                        samples == self.samples(*cursor, index as int, resolution as int),
                        *self == Segment::QuadTo(*c1, *end),
                        all_on_grid(samples.take(i as int)),
                        out@ == quantized_samples(samples.take(i as int)),
                    decreases resolution - i,
                {
                    let p = calculate_quad_bezier_point(cursor, c1, end, i, resolution);
                    match UPoint::from_point(&p) {
                        Ok(q) => {
                            out.push(FullUPoint::from_upoint(&q, i as u64));
                        },
                        Err(e) => {
                            assert(!samples[i as int].on_grid());
                            return Err(e);
                        },
                    }
                    assert(samples.take(i + 1) =~= samples.take(i as int).push(samples[i as int]));
                    assert(out@ =~= quantized_samples(samples.take(i + 1)));
                    i = i + 1;
                }
                assert(samples.take(i as int) =~= samples);
                Ok(out)
            },
            Segment::CubicTo(c1, c2, end) => {
                let mut i: u16 = 0;
                while i < resolution
                    invariant
                        i <= resolution,
                        samples == self.samples(*cursor, index as int, resolution as int),
                        *self == Segment::CubicTo(*c1, *c2, *end),
                        all_on_grid(samples.take(i as int)),
                        out@ == quantized_samples(samples.take(i as int)),
                    decreases resolution - i,
                {
                    let p = calculate_cubic_bezier_point(cursor, c1, c2, end, i, resolution);
                    match UPoint::from_point(&p) {
                        Ok(q) => {
                            out.push(FullUPoint::from_upoint(&q, i as u64));
                        },
                        Err(e) => {
                            assert(!samples[i as int].on_grid());
                            return Err(e);
                        },
                    }
                    assert(samples.take(i + 1) =~= samples.take(i as int).push(samples[i as int]));
                    assert(out@ =~= quantized_samples(samples.take(i + 1)));
                    i = i + 1;
                }
                assert(samples.take(i as int) =~= samples);
                Ok(out)
            },
            Segment::Close => {
                assert(out@ =~= quantized_samples(samples));
                Ok(out)
            },
        }
    }
}

/// Where the cursor stands after the segments, having started at `start`.
pub open spec fn cursor_after(segments: Seq<Segment>, start: Point) -> Point
    decreases segments.len(),
{
    if segments.len() == 0 {
        start
    } else {
        segments.last().end_point(cursor_after(segments.drop_last(), start))
    }
}

/// The samples that the segments emit, in traversal order, when the cursor
/// starts at `start` and the first segment has the index `offset`: those of
/// all segments but the last, followed by those of the last.
pub open spec fn walk_samples(
    segments: Seq<Segment>,
    start: Point,
    offset: int,
    resolution: int,
) -> Seq<Sample>
    decreases segments.len(),
{
    if segments.len() == 0 {
        Seq::empty()
    } else {
        let before = segments.drop_last();
        walk_samples(before, start, offset, resolution) + segments.last().samples(
            cursor_after(before, start),
            offset + before.len(),
            resolution,
        )
    }
}

/// The samples of a whole path: the cursor starts at the origin and the first
/// segment has the index 0.
pub open spec fn path_samples(segments: Seq<Segment>, resolution: int) -> Seq<Sample> {
    walk_samples(segments, Point::origin(), 0, resolution)
}

/// The cursor after two runs of segments is the cursor after the second run,
/// started where the first run ends.
pub proof fn lemma_cursor_after_concat(a: Seq<Segment>, b: Seq<Segment>, start: Point)
    ensures
        cursor_after(a + b, start) == cursor_after(b, cursor_after(a, start)),
    decreases b.len(),
{
    if b.len() == 0 {
        assert(a + b =~= a);
    } else {
        assert((a + b).drop_last() =~= a + b.drop_last());
        assert((a + b).last() == b.last());
        lemma_cursor_after_concat(a, b.drop_last(), start);
    }
}

/// The output follows the traversal order of the input: the samples of a path
/// cut in two are the samples of the first part followed by the samples of
/// the second part, which starts where the first part ends and counts its
/// segments on from there.
pub proof fn lemma_walk_samples_concat(
    a: Seq<Segment>,
    b: Seq<Segment>,
    start: Point,
    offset: int,
    resolution: int,
)
    ensures
        walk_samples(a + b, start, offset, resolution) == walk_samples(
            a,
            start,
            offset,
            resolution,
        ) + walk_samples(b, cursor_after(a, start), offset + a.len(), resolution),
    decreases b.len(),
{
    if b.len() == 0 {
        assert(a + b =~= a);
        assert(walk_samples(a, start, offset, resolution) + Seq::<Sample>::empty() =~= walk_samples(
            a,
            start,
            offset,
            resolution,
        ));
    } else {
        let before = b.drop_last();
        assert((a + b).drop_last() =~= a + before);
        assert((a + b).last() == b.last());
        lemma_walk_samples_concat(a, before, start, offset, resolution);
        lemma_cursor_after_concat(a, before, start);
        let mid = cursor_after(a, start);
        assert(walk_samples(a + b, start, offset, resolution) =~= walk_samples(
            a,
            start,
            offset,
            resolution,
        ) + (walk_samples(before, mid, offset + a.len(), resolution) + b.last().samples(
            cursor_after(before, mid),
            offset + a.len() + before.len(),
            resolution,
        )));
    }
}

/// Quantizing keeps the order: the grid points of two runs of samples are the
/// grid points of the first run followed by those of the second.
pub proof fn lemma_quantized_samples_concat(a: Seq<Sample>, b: Seq<Sample>)
    ensures
        quantized_samples(a + b) == quantized_samples(a) + quantized_samples(b),
        all_on_grid(a + b) <==> all_on_grid(a) && all_on_grid(b),
{
    assert(quantized_samples(a + b) =~= quantized_samples(a) + quantized_samples(b));
    if all_on_grid(a + b) {
        assert forall|k: int| 0 <= k < a.len() implies (#[trigger] a[k]).on_grid() by {
            assert((a + b)[k] == a[k]);
        }
        assert forall|k: int| 0 <= k < b.len() implies (#[trigger] b[k]).on_grid() by {
            assert((a + b)[a.len() + k] == b[k]);
        }
    }
}

/// Walks a path: the tagged grid points of its segments in traversal order,
/// with the cursor starting at the origin. Fails when a point of the path
/// would land on a negative cell.
pub fn walk_path(segments: &Vec<Segment>, resolution: u16) -> (r: Result<
    Vec<FullUPoint>,
    ConversionError,
>)
    ensures
        match r {
            Ok(v) => all_on_grid(path_samples(segments@, resolution as int)) && v@
                == quantized_samples(path_samples(segments@, resolution as int)),
            Err(e) => !all_on_grid(path_samples(segments@, resolution as int)) && e
                == ConversionError::QuantizationDomainError,
        },
{
    let ghost origin = Point::origin();
    let ghost res = resolution as int;
    let mut cursor = Point::at_origin();
    let mut out: Vec<FullUPoint> = Vec::new();
    let mut i: usize = 0;
    assert(out@ =~= quantized_samples(walk_samples(segments@.take(0), origin, 0, res)));
    while i < segments.len()
        invariant
            i <= segments.len(),
            origin == Point::origin(),
            res == resolution as int,
            cursor == cursor_after(segments@.take(i as int), origin),
            all_on_grid(walk_samples(segments@.take(i as int), origin, 0, res)),
            out@ == quantized_samples(walk_samples(segments@.take(i as int), origin, 0, res)),
        decreases segments.len() - i,
    {
        let segment = &segments[i];
        let ghost before = segments@.take(i as int);
        let ghost emitted = segment.samples(cursor, i as int, res);
        proof {
            assert(segments@.take(i + 1).drop_last() =~= before);
            assert(segments@.take(i + 1).last() == *segment);
            lemma_quantized_samples_concat(walk_samples(before, origin, 0, res), emitted);
        }
        match segment.points(&cursor, i as u64, resolution) {
            Ok(mut points) => {
                out.append(&mut points);
            },
            Err(e) => {
                proof {
                    let rest = segments@.skip(i + 1);
                    assert(segments@ =~= segments@.take(i + 1) + rest);
                    lemma_walk_samples_concat(segments@.take(i + 1), rest, origin, 0, res);
                    lemma_quantized_samples_concat(
                        walk_samples(segments@.take(i + 1), origin, 0, res),
                        walk_samples(
                            rest,
                            cursor_after(segments@.take(i + 1), origin),
                            i + 1,
                            res,
                        ),
                    );
                }
                return Err(e);
            },
        }
        cursor = segment.next_cursor(&cursor);
        i = i + 1;
    }
    assert(segments@.take(i as int) =~= segments@);
    Ok(out)
}

} // verus!
