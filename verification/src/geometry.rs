//! Points and straight segments on an integer grid.
//!
//! Coordinates are fixed-point numbers: the caller picks the scale (say, 1024
//! grid units per drawing unit) and every length is measured in grid units,
//! rounded down to a whole number.

use vstd::prelude::*;

verus! {

/// A grid point.
#[derive(Clone, Copy, Debug, PartialEq, Eq, Structural)]
pub struct Point {
    pub x: i32,
    pub y: i32,
}

/// A straight line from one grid point to another.
#[derive(Clone, Copy, Debug, PartialEq, Eq, Structural)]
pub struct Segment {
    pub from: Point,
    pub to: Point,
}

/// `r` is the square root of `n`, rounded down.
pub open spec fn is_floor_sqrt(n: nat, r: nat) -> bool {
    r * r <= n < (r + 1) * (r + 1)
}

/// The square root of `n`, rounded down.
pub open spec fn floor_sqrt(n: nat) -> nat {
    choose|r: nat| is_floor_sqrt(n, r)
}

/// The distance between two coordinates.
pub open spec fn gap(a: int, b: int) -> nat {
    if b >= a {
        (b - a) as nat
    } else {
        (a - b) as nat
    }
}

/// The coordinate that lies `num / den` of the way from `a` to `b`, rounded
/// towards `a`.
pub open spec fn lerp_coord(a: int, b: int, num: nat, den: nat) -> int {
    if b >= a {
        a + (gap(a, b) * num) / den
    } else {
        a - (gap(a, b) * num) / den
    }
}

/// Every number has a rounded-down square root.
pub proof fn lemma_floor_sqrt_exists(n: nat) -> (r: nat)
    ensures
        is_floor_sqrt(n, r),
    decreases n,
{
    if n == 0 {
        assert(is_floor_sqrt(0, 0)) by (nonlinear_arith);
        0
    } else {
        let s = lemma_floor_sqrt_exists((n - 1) as nat);
        let t = s + 1;
        if t * t <= n {
            assert((t + 1) * (t + 1) > t * t) by (nonlinear_arith);
            t
        } else {
            s
        }
    }
}

/// Only one number is the rounded-down square root of `n`.
pub proof fn lemma_floor_sqrt_unique(n: nat, r: nat)
    requires
        is_floor_sqrt(n, r),
    ensures
        floor_sqrt(n) == r,
{
    let s = floor_sqrt(n);
    assert(is_floor_sqrt(n, s));
    if s < r {
        assert((s + 1) * (s + 1) <= r * r) by (nonlinear_arith)
            requires
                s + 1 <= r,
        ;
    }
    if r < s {
        assert((r + 1) * (r + 1) <= s * s) by (nonlinear_arith)
            requires
                r + 1 <= s,
        ;
    }
}

/// The square root of `n`, rounded down, found by bisection.
pub fn integer_sqrt(n: u128) -> (r: u64)
    ensures
        r == floor_sqrt(n as nat),
        is_floor_sqrt(n as nat, r as nat),
{
    let mut lo: u128 = 0;
    let mut hi: u128 = 0x1_0000_0000_0000_0000;
    assert(0x1_0000_0000_0000_0000int * 0x1_0000_0000_0000_0000int > u128::MAX);
    while hi - lo > 1
        invariant
            lo < hi <= 0x1_0000_0000_0000_0000,
            lo * lo <= n,
            n < hi * hi,
        decreases hi - lo,
    {
        let mid: u128 = lo + (hi - lo) / 2;
        assert(mid * mid <= u128::MAX) by (nonlinear_arith)
            requires
                mid <= 0xFFFF_FFFF_FFFF_FFFF,
        ;
        if mid * mid <= n {
            lo = mid;
        } else {
            hi = mid;
        }
    }
    proof {
        assert(hi == lo + 1);
        lemma_floor_sqrt_unique(n as nat, lo as nat);
    }
    lo as u64
}

/// The distance between two coordinates.
pub fn coord_gap(a: i32, b: i32) -> (d: u64)
    ensures
        d == gap(a as int, b as int),
        d <= 0xFFFF_FFFF,
{
    if b >= a {
        (b as i64 - a as i64) as u64
    } else {
        (a as i64 - b as i64) as u64
    }
}

/// The coordinate `num / den` of the way from `a` to `b`.
pub fn interpolate_coord(a: i32, b: i32, num: u128, den: u128) -> (r: i32)
    requires
        0 < den,
        num <= den,
        den < 0x1_0000_0000_0000_0000_0000_0000,
    ensures
        r == lerp_coord(a as int, b as int, num as nat, den as nat),
{
    let d: u128 = coord_gap(a, b) as u128;
    assert(d * num <= d * den && d * den <= 0xFFFF_FFFF * den) by (nonlinear_arith)
        requires
            num <= den,
            d <= 0xFFFF_FFFF,
    ;
    let off: u128 = d * num / den;
    proof {
        vstd::arithmetic::div_mod::lemma_div_is_ordered((d * num) as int, (d * den) as int, den as int);
        vstd::arithmetic::div_mod::lemma_div_multiples_vanish(d as int, den as int);
        assert(d * den == den * d) by (nonlinear_arith);
        assert(off <= d);
    }
    if b >= a {
        (a as i64 + off as i64) as i32
    } else {
        (a as i64 - off as i64) as i32
    }
}

impl Segment {
    /// The squared Euclidean length, which is a whole number.
    pub open spec fn squared_length(self) -> nat {
        gap(self.from.x as int, self.to.x as int) * gap(self.from.x as int, self.to.x as int)
            + gap(self.from.y as int, self.to.y as int) * gap(self.from.y as int, self.to.y as int)
    }

    /// The Euclidean length in grid units, rounded down.
    pub open spec fn spec_length(self) -> nat {
        floor_sqrt(self.squared_length())
    }

    /// The point `num / den` of the way from `from` to `to`, each coordinate
    /// rounded towards `from`.
    pub open spec fn lerp(self, num: nat, den: nat) -> Point {
        Point {
            x: lerp_coord(self.from.x as int, self.to.x as int, num, den) as i32,
            y: lerp_coord(self.from.y as int, self.to.y as int, num, den) as i32,
        }
    }

    /// A segment's length is less than 2^33 grid units.
    pub proof fn lemma_length_bound(self)
        ensures
            self.spec_length() < 0x2_0000_0000,
            is_floor_sqrt(self.squared_length(), self.spec_length()),
    {
        let dx = gap(self.from.x as int, self.to.x as int);
        let dy = gap(self.from.y as int, self.to.y as int);
        let n = self.squared_length();
        assert(dx * dx + dy * dy < 0x2_0000_0000 * 0x2_0000_0000) by (nonlinear_arith)
            requires
                dx <= 0xFFFF_FFFF,
                dy <= 0xFFFF_FFFF,
        ;
        let w = lemma_floor_sqrt_exists(n);
        let r = self.spec_length();
        assert(is_floor_sqrt(n, r));
        if r >= 0x2_0000_0000 {
            assert(r * r >= 0x2_0000_0000 * 0x2_0000_0000) by (nonlinear_arith)
                requires
                    r >= 0x2_0000_0000,
            ;
        }
    }

    /// The Euclidean length in grid units, rounded down.
    pub fn length(&self) -> (r: u64)
        ensures
            r == self.spec_length(),
            r < 0x2_0000_0000,
    {
        let dx: u128 = coord_gap(self.from.x, self.to.x) as u128;
        let dy: u128 = coord_gap(self.from.y, self.to.y) as u128;
        assert(dx * dx <= 0xFFFF_FFFF * 0xFFFF_FFFF && dy * dy <= 0xFFFF_FFFF * 0xFFFF_FFFF)
            by (nonlinear_arith)
            requires
                dx <= 0xFFFF_FFFF,
                dy <= 0xFFFF_FFFF,
        ;
        proof {
            self.lemma_length_bound();
        }
        integer_sqrt(dx * dx + dy * dy)
    }

    /// The point `num / den` of the way along the segment.
    pub fn point_at(&self, num: u128, den: u128) -> (p: Point)
        requires
            0 < den,
            num <= den,
            den < 0x1_0000_0000_0000_0000_0000_0000,
        ensures
            p == self.lerp(num as nat, den as nat),
    {
        Point {
            x: interpolate_coord(self.from.x, self.to.x, num, den),
            y: interpolate_coord(self.from.y, self.to.y, num, den),
        }
    }
}

} // verus!
