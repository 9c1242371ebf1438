//! Uniform arc-length sampling of a contour.
//!
//! Sample `i` of `n` lies at arc length `i * total / n` from the start of the
//! contour. Positions are compared as exact fractions, so nothing drifts: a
//! target that falls on the joint of two segments is taken once, at the end
//! of the earlier one, and a segment of length 0 never takes a sample.

use vstd::prelude::*;
use crate::contour::{
    compute_path_length, length_before, lemma_length_before_monotone, summed_length, Contour,
};
use crate::geometry::{Point, Segment};

verus! {

/// Why a contour could not be sampled.
#[derive(Clone, Copy, Debug, PartialEq, Eq, Structural)]
pub enum ResampleError {
    /// Zero samples were asked for.
    InvalidSampleCount,
    /// The contour has arc length 0, so no spacing exists.
    DegenerateContour,
    /// The total length does not fit in 64 bits.
    LengthOutOfRange,
}

/// The arc-length position `num / den` lies on segment `k`: after its start,
/// and not after its end.
pub open spec fn lies_on(segs: Seq<Segment>, k: int, num: nat, den: nat) -> bool {
    &&& 0 <= k < segs.len()
    &&& length_before(segs, k) * den < num
    &&& num <= length_before(segs, k + 1) * den
}

/// The point of segment `k` at arc-length position `num / den` of the whole
/// sequence.
pub open spec fn point_on(segs: Seq<Segment>, k: int, num: nat, den: nat) -> Point {
    segs[k].lerp((num - length_before(segs, k) * den) as nat, segs[k].spec_length() * den)
}

/// `p` is the point at arc-length position `num / den` along `segs`.
pub open spec fn is_point_at(segs: Seq<Segment>, num: nat, den: nat, p: Point) -> bool {
    exists|k: int| #[trigger] lies_on(segs, k, num, den) && p == point_on(segs, k, num, den)
}

/// `samples` are the `n` points that divide `contour` into `n` stretches of
/// equal arc length, the first of them the start point.
pub open spec fn is_resampling(contour: &Contour, n: nat, samples: Seq<Point>) -> bool {
    &&& samples.len() == n
    &&& n > 0 ==> samples[0] == contour.start
    &&& forall|i: int|
        1 <= i < n ==> is_point_at(
            contour.segments(),
            (i * contour.spec_total_length()) as nat,
            n,
            #[trigger] samples[i],
        )
}

/// `samples` are `n` points spaced `total / n` apart by arc length along
/// `contour`, the first of them the start point. Where `total` is more than
/// the contour's own length, a sample whose position lies beyond the end of
/// the contour repeats the sample before it; where it is less, the samples
/// stop short of the end.
pub open spec fn is_padded_sampling(contour: &Contour, total: nat, n: nat, samples: Seq<Point>) -> bool {
    &&& samples.len() == n
    &&& n > 0 ==> samples[0] == contour.start
    &&& forall|i: int|
        1 <= i < n ==> if i * total <= contour.spec_total_length() * n {
            is_point_at(contour.segments(), (i * total) as nat, n, #[trigger] samples[i])
        } else {
            samples[i] == samples[i - 1]
        }
}

/// A position that lies on a segment does not lie beyond the end of the
/// sequence.
pub proof fn lemma_point_at_within(segs: Seq<Segment>, num: nat, den: nat, p: Point)
    requires
        is_point_at(segs, num, den, p),
    ensures
        num <= summed_length(segs) * den,
{
    let k = choose|k: int| #[trigger] lies_on(segs, k, num, den) && p == point_on(segs, k, num, den);
    lemma_length_before_monotone(segs, k + 1, segs.len() as int);
    assert(length_before(segs, k + 1) * den <= summed_length(segs) * den) by (nonlinear_arith)
        requires
            length_before(segs, k + 1) <= summed_length(segs),
    ;
}

/// With the contour's own length as the total, no sample is a repeat: each
/// lies at its position on the contour.
pub proof fn lemma_exact_total_needs_no_padding(contour: &Contour, n: nat, samples: Seq<Point>)
    requires
        is_padded_sampling(contour, contour.spec_total_length(), n, samples),
    ensures
        is_resampling(contour, n, samples),
{
    let total = contour.spec_total_length();
    assert forall|i: int| 1 <= i < n implies is_point_at(
        contour.segments(),
        (i * total) as nat,
        n,
        #[trigger] samples[i],
    ) by {
        assert(i * total <= total * n) by (nonlinear_arith)
            requires
                1 <= i < n,
                total >= 0,
        ;
    }
}

/// Each sample of a resampling lies one `n`-th of the contour's length
/// further along the contour than the sample before it.
pub proof fn lemma_even_spacing(contour: &Contour, n: nat, samples: Seq<Point>, i: int)
    requires
        is_resampling(contour, n, samples),
        1 <= i,
        i + 1 < n,
    ensures
        is_point_at(
            contour.segments(),
            (i * contour.spec_total_length()) as nat,
            n,
            samples[i],
        ),
        is_point_at(
            contour.segments(),
            (i * contour.spec_total_length() + contour.spec_total_length()) as nat,
            n,
            samples[i + 1],
        ),
{
    let total = contour.spec_total_length();
    assert((i + 1) * total == i * total + total) by (nonlinear_arith);
    assert(is_point_at(contour.segments(), ((i + 1) * total) as nat, n, samples[i + 1]));
}

/// Positions come in the order in which the segments are walked: a later
/// position never lies on an earlier segment.
pub proof fn lemma_traversal_order(
    segs: Seq<Segment>,
    k1: int,
    k2: int,
    num1: nat,
    num2: nat,
    den: nat,
)
    requires
        lies_on(segs, k1, num1, den),
        lies_on(segs, k2, num2, den),
        num1 <= num2,
    ensures
        k1 <= k2,
{
    if k2 < k1 {
        lemma_length_before_monotone(segs, k2 + 1, k1);
        assert(length_before(segs, k2 + 1) * den <= length_before(segs, k1) * den)
            by (nonlinear_arith)
            requires
                length_before(segs, k2 + 1) <= length_before(segs, k1),
        ;
    }
}

/// A position lies on one segment at most.
pub proof fn lemma_lies_on_unique(segs: Seq<Segment>, k1: int, k2: int, num: nat, den: nat)
    requires
        lies_on(segs, k1, num, den),
        lies_on(segs, k2, num, den),
    ensures
        k1 == k2,
{
    lemma_traversal_order(segs, k1, k2, num, num, den);
    lemma_traversal_order(segs, k2, k1, num, num, den);
}

/// A contour and a sample count have one resampling at most.
pub proof fn lemma_resampling_unique(contour: &Contour, n: nat, a: Seq<Point>, b: Seq<Point>)
    requires
        is_resampling(contour, n, a),
        is_resampling(contour, n, b),
    ensures
        a == b,
{
    let segs = contour.segments();
    let total = contour.spec_total_length();
    assert forall|i: int| 0 <= i < n implies a[i] == b[i] by {
        if i >= 1 {
            let num = (i * total) as nat;
            assert(is_point_at(segs, num, n, a[i]));
            assert(is_point_at(segs, num, n, b[i]));
            let ka = choose|k: int| #[trigger]
                lies_on(segs, k, num, n) && a[i] == point_on(segs, k, num, n);
            let kb = choose|k: int| #[trigger]
                lies_on(segs, k, num, n) && b[i] == point_on(segs, k, num, n);
            lemma_lies_on_unique(segs, ka, kb, num, n);
        }
    }
    assert(a =~= b);
}

/// Where the walk along a contour stands: the arc length behind it, the
/// index of the sample it places next, and the samples placed so far.
struct Walk {
    traveled: u128,
    next_index: u32,
    samples: Vec<Point>,
}

impl Walk {
    /// The walk has taken in the first `k` segments of `segs` and has placed
    /// every sample whose position lies on them, or all `n` of them.
    spec fn inv(&self, segs: Seq<Segment>, k: int, total: nat, n: nat) -> bool {
        &&& 0 <= k <= segs.len()
        &&& 0 < total <= u64::MAX
        &&& self.traveled == length_before(segs, k)
        &&& 1 <= self.next_index <= n
        &&& self.samples@.len() == self.next_index
        &&& (self.next_index == n || self.next_index * total > self.traveled * n)
        &&& forall|i: int|
            1 <= i < self.next_index ==> is_point_at(
                segs,
                (i * total) as nat,
                n,
                #[trigger] self.samples@[i],
            )
    }

    /// Takes in segment `k`: places every sample whose position lies on it,
    /// however many, until `n` are placed, then moves to its end.
    fn advance(
        self,
        seg: &Segment,
        total: u64,
        n: u32,
        Ghost(segs): Ghost<Seq<Segment>>,
        Ghost(k): Ghost<int>,
    ) -> (w: Walk)
        requires
            self.inv(segs, k, total as nat, n as nat),
            self.next_index < n,
            k < segs.len(),
            segs[k] == *seg,
        ensures
            w.inv(segs, k + 1, total as nat, n as nat),
            w.samples@[0] == self.samples@[0],
    {
        let mut w = self;
        let len: u64 = seg.length();
        proof {
            // Samples are still owed, so the walk has not come as far as `total`.
            if w.traveled >= total {
                assert(w.traveled * n >= total * n) by (nonlinear_arith)
                    requires
                        w.traveled >= total,
                        n >= 0,
                ;
                assert(total * n >= w.next_index * total) by (nonlinear_arith)
                    requires
                        w.next_index <= n,
                        total >= 0,
                ;
            }
        }
        let end: u128 = w.traveled + len as u128;
        assert(w.traveled * n <= end * n && end * n <= 0x1_0000_0002_0000_0000 * 0xFFFF_FFFF && len
            * n <= 0x2_0000_0000 * 0xFFFF_FFFF && end * n - w.traveled * n == len * n)
            by (nonlinear_arith)
            requires
                end == w.traveled + len,
                0 <= w.traveled,
                end <= 0x1_0000_0002_0000_0000,
                0 <= len <= 0x2_0000_0000,
                0 <= n <= 0xFFFF_FFFF,
        ;
        let base: u128 = w.traveled * n as u128;
        let reach: u128 = end * n as u128;
        let den: u128 = len as u128 * n as u128;
        loop
            invariant
                0 <= k < segs.len(),
                segs[k] == *seg,
                0 < total,
                len == seg.spec_length(),
                w.traveled == length_before(segs, k),
                end == length_before(segs, k + 1),
                base == w.traveled * n,
                reach == end * n,
                den == len * n,
                reach - base == den,
                den < 0x1_0000_0000_0000_0000_0000_0000,
                1 <= w.next_index <= n,
                w.samples@.len() == w.next_index,
                w.samples@[0] == self.samples@[0],
                w.next_index == n || w.next_index * total > w.traveled * n,
                forall|i: int|
                    1 <= i < w.next_index ==> is_point_at(
                        segs,
                        (i * total) as nat,
                        n as nat,
                        #[trigger] w.samples@[i],
                    ),
            ensures
                w.next_index == n || w.next_index * total > end * n,
            decreases n - w.next_index,
        {
            if w.next_index >= n {
                break ;
            }
            assert(w.next_index * total <= 0xFFFF_FFFF * 0xFFFF_FFFF_FFFF_FFFF
                && (w.next_index + 1) * total >= w.next_index * total) by (nonlinear_arith)
                requires
                    0 <= w.next_index <= 0xFFFF_FFFF,
                    0 <= total <= 0xFFFF_FFFF_FFFF_FFFF,
            ;
            let target: u128 = w.next_index as u128 * total as u128;
            if target > reach {
                break ;
            }
            let p: Point = seg.point_at(target - base, den);
            proof {
                assert(lies_on(segs, k, target as nat, n as nat));
                assert(p == point_on(segs, k, target as nat, n as nat));
                assert(is_point_at(segs, target as nat, n as nat, p));
            }
            w.samples.push(p);
            w.next_index = w.next_index + 1;
        }
        w.traveled = end;
        w
    }
}

/// Places `n_sample` samples on `contour`, spaced `total_length / n_sample`
/// apart by arc length and beginning at its start point.
///
/// `total_length` is meant to be the contour's arc length; the samples then
/// divide the contour evenly. With a larger total the samples that would lie
/// beyond the end repeat the last one placed; with a smaller one the walk
/// stops as soon as all samples are placed.
///
/// Fails when no sample is asked for, when `total_length` is 0, and when it
/// does not fit in 64 bits; in that order.
pub fn construct_sample_points(contour: &Contour, total_length: u128, n_sample: u32) -> (r: Result<
    Vec<Point>,
    ResampleError,
>)
    ensures
        n_sample == 0 ==> r matches Err(ResampleError::InvalidSampleCount),
        n_sample != 0 && total_length == 0 ==> r matches Err(ResampleError::DegenerateContour),
        n_sample != 0 && total_length > u64::MAX ==> r matches Err(ResampleError::LengthOutOfRange),
        n_sample != 0 && 0 < total_length <= u64::MAX ==> (r matches Ok(samples)
            && is_padded_sampling(contour, total_length as nat, n_sample as nat, samples@)),
        n_sample != 0 && 0 < total_length <= u64::MAX && total_length
            == contour.spec_total_length() ==> (r matches Ok(samples) && is_resampling(
            contour,
            n_sample as nat,
            samples@,
        )),
{
    if n_sample == 0 {
        return Err(ResampleError::InvalidSampleCount);
    }
    if total_length == 0 {
        return Err(ResampleError::DegenerateContour);
    }
    if total_length > u64::MAX as u128 {
        return Err(ResampleError::LengthOutOfRange);
    }
    let total: u64 = total_length as u64;
    let ghost segs = contour.segments();
    let mut first: Vec<Point> = Vec::new();
    first.push(contour.start);
    let mut walk = Walk { traveled: 0, next_index: 1, samples: first };
    assert(1 * total > 0 * n_sample);
    let mut from: Point = contour.start;
    let mut j: usize = 0;
    while j < contour.vertices.len() && walk.next_index < n_sample
        invariant
            0 <= j <= contour.vertices@.len(),
            segs == contour.segments(),
            from == contour.vertex(j as int),
            walk.inv(segs, j as int, total as nat, n_sample as nat),
            walk.samples@[0] == contour.start,
        decreases contour.vertices@.len() - j,
    {
        let to: Point = contour.vertices[j];
        let seg = Segment { from, to };
        assert(segs[j as int] == seg);
        walk = walk.advance(&seg, total, n_sample, Ghost(segs), Ghost(j as int));
        from = to;
        j = j + 1;
    }
    if contour.closed && walk.next_index < n_sample {
        let seg = Segment { from, to: contour.start };
        assert(segs[j as int] == seg);
        walk = walk.advance(&seg, total, n_sample, Ghost(segs), Ghost(j as int));
    }
    // Either every sample is placed, or the whole contour is behind the walk.
    assert(walk.next_index < n_sample ==> walk.traveled == contour.spec_total_length());
    let ghost placed = walk.next_index as int;
    let mut samples: Vec<Point> = walk.samples;
    let mut count: u32 = walk.next_index;
    while count < n_sample
        invariant
            1 <= placed <= count <= n_sample,
            samples@.len() == count,
            samples@[0] == contour.start,
            forall|i: int|
                1 <= i < placed ==> is_point_at(
                    segs,
                    (i * total) as nat,
                    n_sample as nat,
                    #[trigger] samples@[i],
                ),
            forall|i: int| placed <= i < count ==> #[trigger] samples@[i] == samples@[i - 1],
        decreases n_sample - count,
    {
        let last: Point = samples[count as usize - 1];
        samples.push(last);
        count = count + 1;
    }
    proof {
        let own = contour.spec_total_length();
        assert forall|i: int| 1 <= i < n_sample implies if i * total <= own * n_sample {
            is_point_at(segs, (i * total) as nat, n_sample as nat, #[trigger] samples@[i])
        } else {
            samples@[i] == samples@[i - 1]
        } by {
            if i < placed {
                lemma_point_at_within(segs, (i * total) as nat, n_sample as nat, samples@[i]);
            } else {
                assert(i * total >= placed * total) by (nonlinear_arith)
                    requires
                        i >= placed,
                        total >= 0,
                ;
            }
        }
        if total_length == own {
            lemma_exact_total_needs_no_padding(contour, n_sample as nat, samples@);
        }
    }
    Ok(samples)
}

/// Measures `contour` and places `n_sample` evenly spaced samples on it.
pub fn sample_path(contour: &Contour, n_sample: u32) -> (r: Result<Vec<Point>, ResampleError>)
    ensures
        n_sample == 0 ==> r matches Err(ResampleError::InvalidSampleCount),
        n_sample != 0 && contour.spec_total_length() == 0 ==> r matches Err(
            ResampleError::DegenerateContour,
        ),
        n_sample != 0 && contour.spec_total_length() > u64::MAX ==> r matches Err(
            ResampleError::LengthOutOfRange,
        ),
        n_sample != 0 && 0 < contour.spec_total_length() <= u64::MAX ==> (r matches Ok(samples)
            && is_resampling(contour, n_sample as nat, samples@)),
{
    let total_length = compute_path_length(contour);
    construct_sample_points(contour, total_length, n_sample)
}

} // verus!
