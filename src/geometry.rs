use vstd::prelude::*;

verus! {

/// Number of fixed-point length units in one distance unit.
pub const LENGTH_SCALE: i64 = 1000;

/// Largest magnitude a coordinate may take (2^60), so that squared
/// distances between two points always fit in a `u128`.
pub const COORD_LIMIT: i64 = 1_152_921_504_606_846_976;

/// A point of space; each coordinate counts thousandths of a distance unit.
#[derive(Clone, Copy, Debug, PartialEq, Eq, Structural)]
pub struct Point {
    pub x: i64,
    pub y: i64,
    pub z: i64,
}

pub open spec fn in_range(c: int) -> bool {
    -COORD_LIMIT <= c <= COORD_LIMIT
}

/// Every coordinate of `p` lies within the representable box.
pub open spec fn in_box(p: Point) -> bool {
    in_range(p.x as int) && in_range(p.y as int) && in_range(p.z as int)
}

/// Squared Euclidean distance between two points.
pub open spec fn dist_sq(a: Point, b: Point) -> int {
    (a.x - b.x) * (a.x - b.x) + (a.y - b.y) * (a.y - b.y) + (a.z - b.z) * (a.z - b.z)
}

/// `p` moved by the vector `(dx, dy, dz)`.
pub open spec fn offset(p: Point, dx: int, dy: int, dz: int) -> Point {
    Point { x: (p.x + dx) as i64, y: (p.y + dy) as i64, z: (p.z + dz) as i64 }
}

/// `r` is the integer square root of `n`.
pub open spec fn is_isqrt(n: int, r: int) -> bool {
    0 <= r && r * r <= n < (r + 1) * (r + 1)
}

proof fn lemma_square_monotone(a: int, b: int)
    requires
        0 <= a <= b,
    ensures
        a * a <= b * b,
{
    assert(a * a <= a * b) by (nonlinear_arith)
        requires
            0 <= a <= b,
    ;
    assert(a * b <= b * b) by (nonlinear_arith)
        requires
            0 <= a <= b,
    ;
}

/// The integer square root is unique.
pub proof fn lemma_isqrt_unique(n: int, r: int, s: int)
    requires
        is_isqrt(n, r),
        is_isqrt(n, s),
    ensures
        r == s,
{
    if r < s {
        lemma_square_monotone(r + 1, s);
    } else if s < r {
        lemma_square_monotone(s + 1, r);
    }
}

pub proof fn lemma_dist_sq_symmetric(a: Point, b: Point)
    ensures
        dist_sq(a, b) == dist_sq(b, a),
{
    assert(dist_sq(a, b) == dist_sq(b, a)) by (nonlinear_arith);
}

pub proof fn lemma_dist_sq_nonneg(a: Point, b: Point)
    ensures
        dist_sq(a, b) >= 0,
        dist_sq(a, b) == 0 <==> a == b,
{
    assert((a.x - b.x) * (a.x - b.x) >= 0) by (nonlinear_arith);
    assert((a.y - b.y) * (a.y - b.y) >= 0) by (nonlinear_arith);
    assert((a.z - b.z) * (a.z - b.z) >= 0) by (nonlinear_arith);
    if a != b {
        if a.x != b.x {
            assert((a.x - b.x) * (a.x - b.x) > 0) by (nonlinear_arith)
                requires
                    a.x != b.x,
            ;
        } else if a.y != b.y {
            assert((a.y - b.y) * (a.y - b.y) > 0) by (nonlinear_arith)
                requires
                    a.y != b.y,
            ;
        } else {
            assert((a.z - b.z) * (a.z - b.z) > 0) by (nonlinear_arith)
                requires
                    a.z != b.z,
            ;
        }
    } else {
        assert(a.x - b.x == 0 && a.y - b.y == 0 && a.z - b.z == 0);
        assert(dist_sq(a, b) == 0) by (nonlinear_arith)
            requires
                a.x - b.x == 0 && a.y - b.y == 0 && a.z - b.z == 0,
        ;
    }
}

fn axis_sq(a: i64, b: i64) -> (r: u128)
    requires
        in_range(a as int),
        in_range(b as int),
    ensures
        r == (a - b) * (a - b),
        r <= 4 * COORD_LIMIT * COORD_LIMIT,
{
    let d: i128 = a as i128 - b as i128;
    let m: u128 = if d < 0 {
        (-d) as u128
    } else {
        d as u128
    };
    assert(m * m == (a - b) * (a - b)) by (nonlinear_arith)
        requires
            m == d || m == -d,
            d == a - b,
    ;
    assert(m * m <= 4 * COORD_LIMIT * COORD_LIMIT) by (nonlinear_arith)
        requires
            0 <= m <= 2 * COORD_LIMIT,
    ;
    m * m
}

impl Point {
    pub fn new(x: i64, y: i64, z: i64) -> (r: Point)
        ensures
            r == (Point { x, y, z }),
    {
        Point { x, y, z }
    }

    /// Squared Euclidean distance to `other`, exact.
    pub fn distance_sq(&self, other: &Point) -> (r: u128)
        requires
            in_box(*self),
            in_box(*other),
        ensures
            r == dist_sq(*self, *other),
            r <= 12 * COORD_LIMIT * COORD_LIMIT,
    {
        let a = axis_sq(self.x, other.x);
        let b = axis_sq(self.y, other.y);
        let c = axis_sq(self.z, other.z);
        a + b + c
    }

    /// The point moved by `(dx, dy, dz)`.
    pub fn offset_by(&self, dx: i64, dy: i64, dz: i64) -> (r: Point)
        requires
            in_box(*self),
            in_range(dx as int),
            in_range(dy as int),
            in_range(dz as int),
        ensures
            r == offset(*self, dx as int, dy as int, dz as int),
            r.x == self.x + dx,
            r.y == self.y + dy,
            r.z == self.z + dz,
    {
        Point { x: self.x + dx, y: self.y + dy, z: self.z + dz }
    }
}

/// Integer square root, by bisection.
pub fn isqrt(n: u128) -> (r: u128)
    ensures
        is_isqrt(n as int, r as int),
        r < 0x1_0000_0000_0000_0000,
{
    let mut lo: u128 = 0;
    let mut hi: u128 = 0x1_0000_0000_0000_0000;
    assert(hi * hi > n) by (nonlinear_arith)
        requires
            hi == 0x1_0000_0000_0000_0000,
            n <= u128::MAX,
    ;
    while hi - lo > 1
        invariant
            lo < hi <= 0x1_0000_0000_0000_0000,
            lo * lo <= n,
            n < hi * hi,
        decreases hi - lo,
    {
        let mid: u128 = lo + (hi - lo) / 2;
        assert(mid * mid < 0x1_0000_0000_0000_0000 * 0x1_0000_0000_0000_0000) by (nonlinear_arith)
            requires
                mid < 0x1_0000_0000_0000_0000,
        ;
        if mid * mid <= n {
            lo = mid;
        } else {
            hi = mid;
        }
    }
    assert(hi == lo + 1);
    lo
}

} // verus!
