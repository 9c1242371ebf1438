//! A flattened path: a start point, the points that follow it, and whether
//! the path returns to its start.

use vstd::prelude::*;
use crate::geometry::{Point, Segment};

verus! {

/// An open or closed chain of straight segments.
///
/// Segment `k` runs from `vertex(k)` to `vertex(k + 1)`. A closed contour has
/// one segment more, from its last point back to `start`.
pub struct Contour {
    pub start: Point,
    pub vertices: Vec<Point>,
    pub closed: bool,
}

/// The summed length of the first `k` segments of `segs`.
pub open spec fn length_before(segs: Seq<Segment>, k: int) -> nat
    decreases k,
{
    if k <= 0 || k > segs.len() {
        0
    } else {
        length_before(segs, k - 1) + segs[k - 1].spec_length()
    }
}

/// The summed length of all of `segs`.
pub open spec fn summed_length(segs: Seq<Segment>) -> nat {
    length_before(segs, segs.len() as int)
}

/// The length walked never shrinks as more segments are taken in.
pub proof fn lemma_length_before_monotone(segs: Seq<Segment>, a: int, b: int)
    requires
        0 <= a <= b <= segs.len(),
    ensures
        length_before(segs, a) <= length_before(segs, b),
    decreases b - a,
{
    if a < b {
        lemma_length_before_monotone(segs, a, b - 1);
    }
}

/// The first `k` segments weigh the same in a sequence and in any extension
/// of it.
pub proof fn lemma_length_before_prefix(short: Seq<Segment>, long: Seq<Segment>, k: int)
    requires
        0 <= k <= short.len() <= long.len(),
        forall|i: int| 0 <= i < short.len() ==> short[i] == long[i],
    ensures
        length_before(short, k) == length_before(long, k),
    decreases k,
{
    if k > 0 {
        lemma_length_before_prefix(short, long, k - 1);
    }
}

impl Contour {
    /// The `j`-th point on the contour: `start`, then the vertices in order.
    pub open spec fn vertex(&self, j: int) -> Point {
        if j <= 0 {
            self.start
        } else {
            self.vertices@[j - 1]
        }
    }

    /// The segments between consecutive points, without the closing one.
    pub open spec fn open_segments(&self) -> Seq<Segment> {
        Seq::new(
            self.vertices@.len(),
            |k: int| (Segment { from: self.vertex(k), to: self.vertex(k + 1) }),
        )
    }

    /// The segment from the last point back to the start.
    pub open spec fn closing_segment(&self) -> Segment {
        Segment { from: self.vertex(self.vertices@.len() as int), to: self.start }
    }

    /// All segments in the order they are walked.
    pub open spec fn segments(&self) -> Seq<Segment> {
        if self.closed {
            self.open_segments().push(self.closing_segment())
        } else {
            self.open_segments()
        }
    }

    /// The arc length of the whole contour.
    pub open spec fn spec_total_length(&self) -> nat {
        summed_length(self.segments())
    }

    /// Closing a contour adds the length of its closing segment, and
    /// nothing else.
    pub proof fn lemma_total_length(&self)
        ensures
            self.spec_total_length() == summed_length(self.open_segments()) + (if self.closed {
                self.closing_segment().spec_length()
            } else {
                0
            }),
    {
        if self.closed {
            let n = self.open_segments().len() as int;
            lemma_length_before_prefix(self.open_segments(), self.segments(), n);
            assert(self.segments()[n] == self.closing_segment());
        }
    }

    /// A contour that begins at `start` and has no segment yet.
    pub fn new(start: Point) -> (c: Contour)
        ensures
            c.start == start,
            c.vertices@.len() == 0,
            !c.closed,
    {
        Contour { start, vertices: Vec::new(), closed: false }
    }

    /// Appends the segment from the current last point to `to`.
    pub fn line_to(&mut self, to: Point)
        ensures
            final(self).start == old(self).start,
            final(self).closed == old(self).closed,
            final(self).vertices@ == old(self).vertices@.push(to),
    {
        self.vertices.push(to);
    }

    /// Marks the contour as closed.
    pub fn close(&mut self)
        ensures
            final(self).start == old(self).start,
            final(self).vertices@ == old(self).vertices@,
            final(self).closed,
    {
        self.closed = true;
    }

    /// The last point of the open part of the contour.
    pub fn last_point(&self) -> (p: Point)
        ensures
            p == self.vertex(self.vertices@.len() as int),
    {
        if self.vertices.len() == 0 {
            self.start
        } else {
            self.vertices[self.vertices.len() - 1]
        }
    }
}

/// Sums the lengths of all segments of `contour`, the closing segment
/// included when the contour is closed. A contour without segments has
/// length 0.
pub fn compute_path_length(contour: &Contour) -> (total: u128)
    ensures
        total == contour.spec_total_length(),
{
    let ghost segs = contour.open_segments();
    let mut total: u128 = 0;
    let mut from: Point = contour.start;
    let mut j: usize = 0;
    while j < contour.vertices.len()
        invariant
            0 <= j <= contour.vertices@.len(),
            segs == contour.open_segments(),
            from == contour.vertex(j as int),
            total == length_before(segs, j as int),
            total <= j * 0x2_0000_0000,
        decreases contour.vertices@.len() - j,
    {
        let to: Point = contour.vertices[j];
        let seg = Segment { from, to };
        assert(segs[j as int] == seg);
        total = total + seg.length() as u128;
        from = to;
        j = j + 1;
    }
    proof {
        contour.lemma_total_length();
    }
    if contour.closed {
        let seg = Segment { from, to: contour.start };
        total = total + seg.length() as u128;
    }
    total
}

} // verus!
