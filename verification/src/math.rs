//! Exact integer geometry: points, grid coordinates and the integer
//! arithmetic (floor and ceiling division, saturation, square roots) that
//! maps one onto the other.
use vstd::prelude::*;
use vstd::arithmetic::div_mod::{
    lemma_fundamental_div_mod, lemma_mod_bound, lemma_fundamental_div_mod_converse_div,
};

verus! {

/// Largest magnitude of a point coordinate handled by the queries.
pub const COORD_BOUND: i64 = 4503599627370496;

/// Largest voxel size along one axis.
pub const MAX_VOXEL_SIZE: i64 = 1048576;

/// A point (or a displacement) of the shape-local space, with integer
/// coordinates.
#[derive(Clone, Copy, Debug, PartialEq, Eq, Structural)]
pub struct Vector {
    pub x: i64,
    pub y: i64,
    pub z: i64,
}

/// Integer coordinates of a voxel in the grid.
#[derive(Clone, Copy, Debug, PartialEq, Eq, Structural)]
pub struct IVector {
    pub x: i32,
    pub y: i32,
    pub z: i32,
}

impl Vector {
    pub fn new(x: i64, y: i64, z: i64) -> (r: Vector)
        ensures
            r == (Vector { x, y, z }),
    {
        Vector { x, y, z }
    }

    /// The vector with all its components equal to `v`.
    pub fn splat(v: i64) -> (r: Vector)
        ensures
            r == (Vector { x: v, y: v, z: v }),
    {
        Vector { x: v, y: v, z: v }
    }

    /// The largest of the three components.
    pub fn max_element(&self) -> (r: i64)
        ensures
            r == max3(self.x as int, self.y as int, self.z as int),
            r >= self.x && r >= self.y && r >= self.z,
            r == self.x || r == self.y || r == self.z,
    {
        let mut m = self.x;
        if self.y > m {
            m = self.y;
        }
        if self.z > m {
            m = self.z;
        }
        m
    }
}

impl Vector {
    /// Componentwise sum.
    pub fn plus(&self, o: &Vector) -> (r: Vector)
        requires
            i64::MIN <= self.x + o.x <= i64::MAX,
            i64::MIN <= self.y + o.y <= i64::MAX,
            i64::MIN <= self.z + o.z <= i64::MAX,
        ensures
            r.x == self.x + o.x,
            r.y == self.y + o.y,
            r.z == self.z + o.z,
    {
        Vector { x: self.x + o.x, y: self.y + o.y, z: self.z + o.z }
    }

    /// Componentwise difference.
    pub fn minus(&self, o: &Vector) -> (r: Vector)
        requires
            i64::MIN <= self.x - o.x <= i64::MAX,
            i64::MIN <= self.y - o.y <= i64::MAX,
            i64::MIN <= self.z - o.z <= i64::MAX,
        ensures
            r.x == self.x - o.x,
            r.y == self.y - o.y,
            r.z == self.z - o.z,
    {
        Vector { x: self.x - o.x, y: self.y - o.y, z: self.z - o.z }
    }
}

impl IVector {
    pub fn new(x: i32, y: i32, z: i32) -> (r: IVector)
        ensures
            r == (IVector { x, y, z }),
    {
        IVector { x, y, z }
    }

    pub fn splat(v: i32) -> (r: IVector)
        ensures
            r == (IVector { x: v, y: v, z: v }),
    {
        IVector { x: v, y: v, z: v }
    }
}

pub open spec fn max3(a: int, b: int, c: int) -> int {
    if a >= b && a >= c {
        a
    } else if b >= c {
        b
    } else {
        c
    }
}

pub open spec fn coord_ok(v: int) -> bool {
    -COORD_BOUND <= v <= COORD_BOUND
}

/// The point lies in the region on which the queries compute exactly.
pub open spec fn vector_ok(p: Vector) -> bool {
    coord_ok(p.x as int) && coord_ok(p.y as int) && coord_ok(p.z as int)
}

pub open spec fn size_ok(s: int) -> bool {
    2 <= s <= MAX_VOXEL_SIZE && s % 2 == 0
}

/// Voxel sizes are positive, bounded and even, so that the center of every
/// voxel lies on the integer lattice.
pub open spec fn valid_voxel_size(s: Vector) -> bool {
    size_ok(s.x as int) && size_ok(s.y as int) && size_ok(s.z as int)
}

/// Floor of `a / d`, for a positive `d`.
pub open spec fn floor_div(a: int, d: int) -> int {
    a / d
}

/// Ceiling of `a / d`, for a positive `d`.
pub open spec fn ceil_div(a: int, d: int) -> int {
    -((-a) / d)
}

/// `v` clamped into the range of `i32`.
pub open spec fn sat_i32(v: int) -> int {
    if v < i32::MIN {
        i32::MIN as int
    } else if v > i32::MAX {
        i32::MAX as int
    } else {
        v
    }
}

pub open spec fn in_i32(v: int) -> bool {
    i32::MIN <= v <= i32::MAX
}

/// Squared euclidean distance between two points.
pub open spec fn dist2(a: Vector, b: Vector) -> int {
    (a.x - b.x) * (a.x - b.x) + (a.y - b.y) * (a.y - b.y) + (a.z - b.z) * (a.z - b.z)
}

/// `q` is the floor of `a / d`.
pub proof fn lemma_floor_div_bounds(a: int, d: int)
    requires
        d > 0,
    ensures
        (a / d) * d <= a < (a / d) * d + d,
{
    lemma_fundamental_div_mod(a, d);
    lemma_mod_bound(a, d);
    assert(d * (a / d) == (a / d) * d) by (nonlinear_arith);
}

/// The floor of `a / d` is the only `q` with `q * d <= a < q * d + d`.
pub proof fn lemma_floor_div_unique(a: int, d: int, q: int)
    requires
        d > 0,
        q * d <= a < q * d + d,
    ensures
        a / d == q,
{
    lemma_fundamental_div_mod_converse_div(a, d, q, a - q * d);
}

/// The ceiling of `a / d` is the least `c` with `a <= c * d`.
pub proof fn lemma_ceil_div_bounds(a: int, d: int)
    requires
        d > 0,
    ensures
        ceil_div(a, d) * d - d < a <= ceil_div(a, d) * d,
{
    lemma_floor_div_bounds(-a, d);
    let q = (-a) / d;
    assert(ceil_div(a, d) * d == -(q * d)) by (nonlinear_arith)
        requires
            ceil_div(a, d) == -q,
    ;
}

/// The ceiling of `a / d` is the only `c` with `c * d - d < a <= c * d`.
pub proof fn lemma_ceil_div_unique(a: int, d: int, c: int)
    requires
        d > 0,
        c * d - d < a <= c * d,
    ensures
        ceil_div(a, d) == c,
{
    lemma_ceil_div_bounds(a, d);
    let e = ceil_div(a, d);
    assert(e == c) by (nonlinear_arith)
        requires
            d > 0,
            c * d - d < a <= c * d,
            e * d - d < a <= e * d,
    ;
}

/// For a positive `d`, `k < ceil(a / d)` exactly when `k * d < a`, and
/// `k >= floor(a / d)` exactly when `(k + 1) * d > a`.
pub proof fn lemma_div_order(a: int, d: int, k: int)
    requires
        d > 0,
    ensures
        (k < ceil_div(a, d)) <==> (k * d < a),
        (k >= floor_div(a, d)) <==> ((k + 1) * d > a),
{
    lemma_ceil_div_bounds(a, d);
    lemma_floor_div_bounds(a, d);
    let c = ceil_div(a, d);
    let f = floor_div(a, d);
    assert(k < c ==> k * d <= c * d - d) by (nonlinear_arith)
        requires
            d > 0,
    ;
    assert(k >= c ==> k * d >= c * d) by (nonlinear_arith)
        requires
            d > 0,
    ;
    assert(k >= f ==> (k + 1) * d >= f * d + d) by (nonlinear_arith)
        requires
            d > 0,
    ;
    assert(k < f ==> (k + 1) * d <= f * d) by (nonlinear_arith)
        requires
            d > 0,
    ;
}

/// `floor(a / d)` for a positive `d`.
pub fn floor_div_i64(a: i64, d: i64) -> (r: i64)
    requires
        d > 0,
    ensures
        r == floor_div(a as int, d as int),
{
    proof {
        lemma_floor_div_bounds(a as int, d as int);
    }
    if a >= 0 {
        let q = a / d;
        proof {
            lemma_floor_div_bounds(a as int, d as int);
        }
        q
    } else {
        let m: i64 = -(a + 1);
        let q = m / d;
        proof {
            lemma_floor_div_bounds(m as int, d as int);
            let qq = q as int;
            assert(qq * d <= m < qq * d + d);
            assert((-qq - 1) * d <= a < (-qq - 1) * d + d) by (nonlinear_arith)
                requires
                    qq * d <= m < qq * d + d,
                    m == -(a + 1),
            ;
            lemma_floor_div_unique(a as int, d as int, -qq - 1);
            assert(qq >= 0) by (nonlinear_arith)
                requires
                    m >= 0,
                    d > 0,
                    m < qq * d + d,
            ;
            assert(qq <= m) by (nonlinear_arith)
                requires
                    qq * d <= m,
                    d > 0,
                    qq >= 0,
            ;
        }
        -q - 1
    }
}

/// `ceil(a / d)` for a positive `d`.
pub fn ceil_div_i64(a: i64, d: i64) -> (r: i64)
    requires
        d > 0,
    ensures
        r == ceil_div(a as int, d as int),
{
    let f = floor_div_i64(a, d);
    proof {
        lemma_floor_div_bounds(a as int, d as int);
        lemma_ceil_div_bounds(a as int, d as int);
    }
    if (f as i128) * (d as i128) == a as i128 {
        proof {
            lemma_ceil_div_unique(a as int, d as int, f as int);
        }
        f
    } else {
        proof {
            assert((f + 1) * d == f * d + d) by (nonlinear_arith);
            lemma_ceil_div_unique(a as int, d as int, f + 1);
            assert(f < i64::MAX) by (nonlinear_arith)
                requires
                    f * d < a,
                    d >= 1,
                    a <= i64::MAX,
            ;
        }
        f + 1
    }
}

/// `v` clamped into the range of `i32`.
pub fn saturate_i32(v: i64) -> (r: i32)
    ensures
        r == sat_i32(v as int),
{
    if v < i32::MIN as i64 {
        i32::MIN
    } else if v > i32::MAX as i64 {
        i32::MAX
    } else {
        v as i32
    }
}

/// Converts grid coordinates into a vector with the same components.
pub fn ivect_to_vect(v: IVector) -> (r: Vector)
    ensures
        r.x == v.x,
        r.y == v.y,
        r.z == v.z,
{
    Vector { x: v.x as i64, y: v.y as i64, z: v.z as i64 }
}

/// Converts a vector into grid coordinates, each component clamped into the
/// range of `i32`.
pub fn vect_to_ivect(v: Vector) -> (r: IVector)
    ensures
        r.x == sat_i32(v.x as int),
        r.y == sat_i32(v.y as int),
        r.z == sat_i32(v.z as int),
{
    IVector { x: saturate_i32(v.x), y: saturate_i32(v.y), z: saturate_i32(v.z) }
}

/// `r` is the integer square root of `n`: the largest `r >= 0` with
/// `r * r <= n`.
pub open spec fn is_floor_sqrt(n: int, r: int) -> bool {
    0 <= r && r * r <= n < (r + 1) * (r + 1)
}

/// `r` is the least `r >= 0` with `n <= r * r`.
pub open spec fn is_ceil_sqrt(n: int, r: int) -> bool {
    0 <= r && n <= r * r && (r == 0 || (r - 1) * (r - 1) < n)
}

/// The integer square root of `n`, rounded down (for `n >= 0`).
pub open spec fn floor_sqrt(n: int) -> int {
    choose|r: int| is_floor_sqrt(n, r)
}

/// The integer square root of `n`, rounded up (for `n >= 0`).
pub open spec fn ceil_sqrt(n: int) -> int {
    choose|r: int| is_ceil_sqrt(n, r)
}

/// A square root rounded down is unique.
pub proof fn lemma_floor_sqrt_unique(n: int, r: int)
    requires
        is_floor_sqrt(n, r),
    ensures
        floor_sqrt(n) == r,
{
    let f = floor_sqrt(n);
    assert(is_floor_sqrt(n, f));
    assert(f == r) by (nonlinear_arith)
        requires
            is_floor_sqrt(n, r),
            is_floor_sqrt(n, f),
    {
        if f < r {
            assert((f + 1) * (f + 1) <= r * r) by (nonlinear_arith)
                requires
                    0 <= f + 1 <= r,
            ;
        } else if r < f {
            assert((r + 1) * (r + 1) <= f * f) by (nonlinear_arith)
                requires
                    0 <= r + 1 <= f,
            ;
        }
    }
}

/// A square root rounded up is unique.
pub proof fn lemma_ceil_sqrt_unique(n: int, r: int)
    requires
        is_ceil_sqrt(n, r),
    ensures
        ceil_sqrt(n) == r,
{
    let c = ceil_sqrt(n);
    assert(is_ceil_sqrt(n, c));
    assert(c == r) by (nonlinear_arith)
        requires
            is_ceil_sqrt(n, r),
            is_ceil_sqrt(n, c),
    {
        if c < r {
            assert(c * c <= (r - 1) * (r - 1)) by (nonlinear_arith)
                requires
                    0 <= c <= r - 1,
            ;
        } else if r < c {
            assert(r * r <= (c - 1) * (c - 1)) by (nonlinear_arith)
                requires
                    0 <= r <= c - 1,
            ;
        }
    }
}

/// Largest `r` with `r * r <= n`.
pub fn sqrt_floor(n: i128) -> (r: i64)
    requires
        0 <= n < 0x1_0000_0000_0000_0000_0000_0000_0000,
    ensures
        0 <= r,
        r * r <= n < (r + 1) * (r + 1),
        r == floor_sqrt(n as int),
{
    let mut lo: i64 = 0;
    let mut hi: i64 = 0x100_0000_0000_0000;
    assert(hi * hi == 0x1_0000_0000_0000_0000_0000_0000_0000) by (nonlinear_arith)
        requires
            hi == 0x100_0000_0000_0000,
    ;
    while hi - lo > 1
        invariant
            0 <= lo < hi <= 0x100_0000_0000_0000,
            lo * lo <= n < hi * hi,
        decreases hi - lo,
    {
        let mid = lo + (hi - lo) / 2;
        assert(mid * mid < 0x1_0000_0000_0000_0000_0000_0000_0000) by (nonlinear_arith)
            requires
                0 <= mid < 0x100_0000_0000_0000,
        ;
        let sq = (mid as i128) * (mid as i128);
        if sq <= n {
            lo = mid;
        } else {
            hi = mid;
        }
    }
    assert(hi == lo + 1);
    proof {
        lemma_floor_sqrt_unique(n as int, lo as int);
    }
    lo
}

/// Least `r` with `n <= r * r`.
pub fn sqrt_ceil(n: i128) -> (r: i64)
    requires
        0 <= n < 0x1_0000_0000_0000_0000_0000_0000_0000,
    ensures
        0 <= r,
        n <= r * r,
        r == 0 || (r - 1) * (r - 1) < n,
        r == ceil_sqrt(n as int),
{
    let f = sqrt_floor(n);
    assert(f < 0x100_0000_0000_0000) by (nonlinear_arith)
        requires
            f * f <= n < 0x1_0000_0000_0000_0000_0000_0000_0000,
            f >= 0,
    ;
    if (f as i128) * (f as i128) == n {
        assert(f == 0 || (f - 1) * (f - 1) < f * f) by (nonlinear_arith)
            requires
                f >= 0,
        ;
        proof {
            lemma_ceil_sqrt_unique(n as int, f as int);
        }
        f
    } else {
        proof {
            lemma_ceil_sqrt_unique(n as int, f + 1);
        }
        f + 1
    }
}

/// Squared euclidean distance between two points of the query region.
pub fn distance_squared(a: Vector, b: Vector) -> (r: i128)
    requires
        -0x4000_0000_0000_0000 <= a.x - b.x <= 0x4000_0000_0000_0000,
        -0x4000_0000_0000_0000 <= a.y - b.y <= 0x4000_0000_0000_0000,
        -0x4000_0000_0000_0000 <= a.z - b.z <= 0x4000_0000_0000_0000,
    ensures
        r == dist2(a, b),
        0 <= r <= 0x3000_0000_0000_0000_0000_0000_0000_0000,
{
    let dx = (a.x as i128) - (b.x as i128);
    let dy = (a.y as i128) - (b.y as i128);
    let dz = (a.z as i128) - (b.z as i128);
    assert(0 <= dx * dx <= 0x1000_0000_0000_0000_0000_0000_0000_0000) by (nonlinear_arith)
        requires
            -0x4000_0000_0000_0000 <= dx <= 0x4000_0000_0000_0000,
    ;
    assert(0 <= dy * dy <= 0x1000_0000_0000_0000_0000_0000_0000_0000) by (nonlinear_arith)
        requires
            -0x4000_0000_0000_0000 <= dy <= 0x4000_0000_0000_0000,
    ;
    assert(0 <= dz * dz <= 0x1000_0000_0000_0000_0000_0000_0000_0000) by (nonlinear_arith)
        requires
            -0x4000_0000_0000_0000 <= dz <= 0x4000_0000_0000_0000,
    ;
    dx * dx + dy * dy + dz * dz
}

} // verus!
