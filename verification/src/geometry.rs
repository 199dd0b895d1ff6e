//! Axis-aligned boxes, cuboids and the projection of a point on them.
use vstd::prelude::*;
use crate::math::{Vector, vector_ok, dist2};

verus! {

/// Largest magnitude of a coordinate handled by the box projections.
pub const BOX_BOUND: i64 = 0x1000_0000_0000_0000;

pub open spec fn small(v: int) -> bool {
    -BOX_BOUND <= v <= BOX_BOUND
}

pub open spec fn small_vector(p: Vector) -> bool {
    small(p.x as int) && small(p.y as int) && small(p.z as int)
}

/// An axis-aligned box `[mins, maxs]`.
#[derive(Clone, Copy, Debug, PartialEq, Eq, Structural)]
pub struct Aabb {
    pub mins: Vector,
    pub maxs: Vector,
}

/// The projection of a point on a shape.
#[derive(Clone, Copy, Debug, PartialEq, Eq, Structural)]
pub struct PointProjection {
    /// Whether the projected point was inside the shape.
    pub is_inside: bool,
    /// The projection.
    pub point: Vector,
}

/// Identifies a feature of a shape: for voxels, the face of the voxel with
/// the given linear id.
#[derive(Clone, Copy, Debug, PartialEq, Eq, Structural)]
pub enum FeatureId {
    Vertex(u32),
    Edge(u32),
    Face(u32),
    Unknown,
}

/// A box centered at the origin.
#[derive(Clone, Copy, Debug, PartialEq, Eq, Structural)]
pub struct Cuboid {
    pub half_extents: Vector,
}

/// The box has its minimum below its maximum on each axis, and lies in the
/// region where the projections compute exactly.
pub open spec fn box_ok(b: Aabb) -> bool {
    &&& small_vector(b.mins)
    &&& small_vector(b.maxs)
    &&& b.mins.x <= b.maxs.x
    &&& b.mins.y <= b.maxs.y
    &&& b.mins.z <= b.maxs.z
}

pub open spec fn contains_point(b: Aabb, p: Vector) -> bool {
    &&& b.mins.x <= p.x <= b.maxs.x
    &&& b.mins.y <= p.y <= b.maxs.y
    &&& b.mins.z <= p.z <= b.maxs.z
}

pub open spec fn contains_aabb(b: Aabb, o: Aabb) -> bool {
    &&& b.mins.x <= o.mins.x && o.maxs.x <= b.maxs.x
    &&& b.mins.y <= o.mins.y && o.maxs.y <= b.maxs.y
    &&& b.mins.z <= o.mins.z && o.maxs.z <= b.maxs.z
}

pub open spec fn clamp(v: int, lo: int, hi: int) -> int {
    if v < lo {
        lo
    } else if v > hi {
        hi
    } else {
        v
    }
}

/// Along one axis, the (non-positive) signed distance from `v` to the face
/// of `[lo, hi]` it is closest to; the lower face wins a tie.
pub open spec fn face_depth(lo: int, hi: int, v: int) -> int {
    if lo - v < v - hi {
        v - hi
    } else {
        lo - v
    }
}

/// Along one axis, the coordinate of the face of `[lo, hi]` closest to `v`.
pub open spec fn face_coord(lo: int, hi: int, v: int) -> int {
    if lo - v < v - hi {
        hi
    } else {
        lo
    }
}

/// The axis whose closest face is nearest to `p`: the first one among the
/// nearest.
pub open spec fn nearest_face_axis(b: Aabb, p: Vector) -> int {
    let d0 = face_depth(b.mins.x as int, b.maxs.x as int, p.x as int);
    let d1 = face_depth(b.mins.y as int, b.maxs.y as int, p.y as int);
    let d2 = face_depth(b.mins.z as int, b.maxs.z as int, p.z as int);
    let first = if d1 > d0 { 1int } else { 0int };
    let dfirst = if d1 > d0 { d1 } else { d0 };
    if d2 > dfirst { 2 } else { first }
}

/// The point of the boundary of `b` nearest to the point `p` inside of it:
/// `p` moved onto the closest face.
pub open spec fn nearest_face_point(b: Aabb, p: Vector) -> Vector {
    let axis = nearest_face_axis(b, p);
    if axis == 0 {
        Vector { x: face_coord(b.mins.x as int, b.maxs.x as int, p.x as int) as i64, ..p }
    } else if axis == 1 {
        Vector { y: face_coord(b.mins.y as int, b.maxs.y as int, p.y as int) as i64, ..p }
    } else {
        Vector { z: face_coord(b.mins.z as int, b.maxs.z as int, p.z as int) as i64, ..p }
    }
}

/// Projection of `p` on the box `b`: the closest point of `b` for a point
/// outside; for a point inside, the point itself when `b` is solid, else the
/// closest point of its boundary.
pub open spec fn project_on_aabb(b: Aabb, p: Vector, solid: bool) -> PointProjection {
    if !contains_point(b, p) {
        PointProjection {
            is_inside: false,
            point: Vector {
                x: clamp(p.x as int, b.mins.x as int, b.maxs.x as int) as i64,
                y: clamp(p.y as int, b.mins.y as int, b.maxs.y as int) as i64,
                z: clamp(p.z as int, b.mins.z as int, b.maxs.z as int) as i64,
            },
        }
    } else if solid {
        PointProjection { is_inside: true, point: p }
    } else {
        PointProjection { is_inside: true, point: nearest_face_point(b, p) }
    }
}

/// Squared distance from `p` to the solid box `b`: the squared length of the
/// shift that brings `p` into `b`.
pub open spec fn shift_dist2(b: Aabb, p: Vector) -> int {
    let sx = (if b.mins.x - p.x > 0 { b.mins.x - p.x } else { 0 }) - (if p.x - b.maxs.x > 0 {
        p.x - b.maxs.x
    } else {
        0
    });
    let sy = (if b.mins.y - p.y > 0 { b.mins.y - p.y } else { 0 }) - (if p.y - b.maxs.y > 0 {
        p.y - b.maxs.y
    } else {
        0
    });
    let sz = (if b.mins.z - p.z > 0 { b.mins.z - p.z } else { 0 }) - (if p.z - b.maxs.z > 0 {
        p.z - b.maxs.z
    } else {
        0
    });
    sx * sx + sy * sy + sz * sz
}

pub open spec fn translate(p: Vector, t: Vector) -> Vector {
    Vector { x: (p.x + t.x) as i64, y: (p.y + t.y) as i64, z: (p.z + t.z) as i64 }
}

pub open spec fn translate_aabb(b: Aabb, t: Vector) -> Aabb {
    Aabb { mins: translate(b.mins, t), maxs: translate(b.maxs, t) }
}

pub open spec fn neg(p: Vector) -> Vector {
    Vector { x: -p.x as i64, y: -p.y as i64, z: -p.z as i64 }
}

/// The point `p` lies on the boundary of the box `b`.
pub open spec fn on_boundary(b: Aabb, p: Vector) -> bool {
    &&& contains_point(b, p)
    &&& (p.x == b.mins.x || p.x == b.maxs.x || p.y == b.mins.y || p.y == b.maxs.y || p.z
        == b.mins.z || p.z == b.maxs.z)
}

/// The box is not empty: its minimum lies below its maximum on each axis.
pub open spec fn ordered(b: Aabb) -> bool {
    b.mins.x <= b.maxs.x && b.mins.y <= b.maxs.y && b.mins.z <= b.maxs.z
}

/// The foot of `p` on a face of `b`: `p` moved along `axis` (`0`, `1` or
/// `2`) onto the lower face of `b` if `lower`, else onto its upper face.
pub open spec fn foot(b: Aabb, p: Vector, axis: int, lower: bool) -> Vector {
    if axis == 0 {
        Vector { x: if lower { b.mins.x } else { b.maxs.x }, ..p }
    } else if axis == 1 {
        Vector { y: if lower { b.mins.y } else { b.maxs.y }, ..p }
    } else {
        Vector { z: if lower { b.mins.z } else { b.maxs.z }, ..p }
    }
}

/// The order in which the faces of a box are preferred on a tie: along `x`
/// before `y` before `z`, and the lower face before the upper one.
pub open spec fn face_rank(axis: int, lower: bool) -> int {
    2 * axis + if lower { 0int } else { 1int }
}

proof fn lemma_square_le(a: int, b: int)
    requires
        0 <= a <= b,
    ensures
        a * a <= b * b,
{
    assert(a * a <= b * b) by (nonlinear_arith)
        requires
            0 <= a <= b,
    ;
}

proof fn lemma_square_lt(a: int, b: int)
    requires
        0 <= a < b,
    ensures
        a * a < b * b,
{
    assert(a * a < b * b) by (nonlinear_arith)
        requires
            0 <= a < b,
    ;
}

/// Along one axis, clamping `v` into `[lo, hi]` gives the point of the
/// interval nearest to `v`.
proof fn lemma_axis_clamp_nearest(lo: int, hi: int, v: int, w: int)
    requires
        lo <= w <= hi,
    ensures
        (clamp(v, lo, hi) - v) * (clamp(v, lo, hi) - v) <= (w - v) * (w - v),
{
    let c = clamp(v, lo, hi);
    if v < lo {
        lemma_square_le(lo - v, w - v);
        assert((c - v) * (c - v) <= (w - v) * (w - v));
    } else if v > hi {
        lemma_square_le(v - hi, v - w);
        assert((c - v) * (c - v) <= (w - v) * (w - v)) by (nonlinear_arith)
            requires
                c == hi,
                (v - hi) * (v - hi) <= (v - w) * (v - w),
        ;
    } else {
        assert((c - v) * (c - v) <= (w - v) * (w - v)) by (nonlinear_arith)
            requires
                c == v,
        ;
    }
}

/// The projection of a point outside of a box is the point of the box
/// nearest to it: it lies in the box, is flagged outside, and no point of
/// the box is closer.
pub proof fn lemma_projection_outside_is_nearest(b: Aabb, p: Vector, solid: bool, q: Vector)
    requires
        ordered(b),
        !contains_point(b, p),
        contains_point(b, q),
    ensures
        !project_on_aabb(b, p, solid).is_inside,
        contains_point(b, project_on_aabb(b, p, solid).point),
        dist2(project_on_aabb(b, p, solid).point, p) <= dist2(q, p),
{
    lemma_axis_clamp_nearest(b.mins.x as int, b.maxs.x as int, p.x as int, q.x as int);
    lemma_axis_clamp_nearest(b.mins.y as int, b.maxs.y as int, p.y as int, q.y as int);
    lemma_axis_clamp_nearest(b.mins.z as int, b.maxs.z as int, p.z as int, q.z as int);
}

/// The solid projection of a point inside a box is the point itself.
pub proof fn lemma_solid_projection_inside(b: Aabb, p: Vector)
    requires
        contains_point(b, p),
    ensures
        project_on_aabb(b, p, true) == (PointProjection { is_inside: true, point: p }),
{
}

/// Along one axis, for `v` in `[lo, hi]`: the depth of the nearest face is
/// the distance to the face chosen, and no face is nearer.
proof fn lemma_axis_faces(lo: int, hi: int, v: int)
    requires
        lo <= v <= hi,
    ensures
        face_depth(lo, hi, v) <= 0,
        face_depth(lo, hi, v) == -(v - lo) || face_depth(lo, hi, v) == -(hi - v),
        -face_depth(lo, hi, v) <= v - lo,
        -face_depth(lo, hi, v) <= hi - v,
        face_coord(lo, hi, v) - v == face_depth(lo, hi, v) || face_coord(lo, hi, v) - v
            == -face_depth(lo, hi, v),
        face_coord(lo, hi, v) == lo || face_coord(lo, hi, v) == hi,
{
}

/// The hollow projection of a point inside a box lies on the boundary of
/// the box, is flagged inside, and no point of the boundary is closer.
pub proof fn lemma_hollow_projection_inside_is_nearest(b: Aabb, p: Vector, q: Vector)
    requires
        contains_point(b, p),
        on_boundary(b, q),
    ensures
        project_on_aabb(b, p, false).is_inside,
        on_boundary(b, project_on_aabb(b, p, false).point),
        dist2(project_on_aabb(b, p, false).point, p) <= dist2(q, p),
{
    let (lx, hx, vx) = (b.mins.x as int, b.maxs.x as int, p.x as int);
    let (ly, hy, vy) = (b.mins.y as int, b.maxs.y as int, p.y as int);
    let (lz, hz, vz) = (b.mins.z as int, b.maxs.z as int, p.z as int);
    lemma_axis_faces(lx, hx, vx);
    lemma_axis_faces(ly, hy, vy);
    lemma_axis_faces(lz, hz, vz);
    let d0 = -face_depth(lx, hx, vx);
    let d1 = -face_depth(ly, hy, vy);
    let d2 = -face_depth(lz, hz, vz);
    let r = project_on_aabb(b, p, false).point;
    let a = nearest_face_axis(b, p);
    let m = if a == 0 {
        d0
    } else if a == 1 {
        d1
    } else {
        d2
    };
    assert(m <= d0 && m <= d1 && m <= d2 && m >= 0);
    assert(dist2(r, p) == m * m) by {
        if a == 0 {
            assert(r.y == p.y && r.z == p.z);
            assert(r.x == face_coord(lx, hx, vx));
            assert((r.x - p.x) * (r.x - p.x) == m * m) by (nonlinear_arith)
                requires
                    r.x - p.x == m || r.x - p.x == -m,
            ;
        } else if a == 1 {
            assert(r.x == p.x && r.z == p.z);
            assert(r.y == face_coord(ly, hy, vy));
            assert((r.y - p.y) * (r.y - p.y) == m * m) by (nonlinear_arith)
                requires
                    r.y - p.y == m || r.y - p.y == -m,
            ;
        } else {
            assert(r.x == p.x && r.y == p.y);
            assert(r.z == face_coord(lz, hz, vz));
            assert((r.z - p.z) * (r.z - p.z) == m * m) by (nonlinear_arith)
                requires
                    r.z - p.z == m || r.z - p.z == -m,
            ;
        }
    }
    let ex = (q.x - p.x) * (q.x - p.x);
    let ey = (q.y - p.y) * (q.y - p.y);
    let ez = (q.z - p.z) * (q.z - p.z);
    assert(ex >= 0 && ey >= 0 && ez >= 0) by (nonlinear_arith)
        requires
            ex == (q.x - p.x) * (q.x - p.x),
            ey == (q.y - p.y) * (q.y - p.y),
            ez == (q.z - p.z) * (q.z - p.z),
    ;
    assert(dist2(q, p) == ex + ey + ez);
    if q.x == b.mins.x || q.x == b.maxs.x {
        let e = if q.x == b.mins.x { vx - lx } else { hx - vx };
        lemma_square_le(m, e);
        assert(ex == e * e) by (nonlinear_arith)
            requires
                ex == (q.x - p.x) * (q.x - p.x),
                q.x - p.x == e || q.x - p.x == -e,
        ;
    } else if q.y == b.mins.y || q.y == b.maxs.y {
        let e = if q.y == b.mins.y { vy - ly } else { hy - vy };
        lemma_square_le(m, e);
        assert(ey == e * e) by (nonlinear_arith)
            requires
                ey == (q.y - p.y) * (q.y - p.y),
                q.y - p.y == e || q.y - p.y == -e,
        ;
    } else {
        let e = if q.z == b.mins.z { vz - lz } else { hz - vz };
        lemma_square_le(m, e);
        assert(ez == e * e) by (nonlinear_arith)
            requires
                ez == (q.z - p.z) * (q.z - p.z),
                q.z - p.z == e || q.z - p.z == -e,
        ;
    }
}

/// The distance from `p` to the plane of a face of `b`, along `axis`: to
/// the lower face if `lower`, else to the upper face.
pub open spec fn face_distance(b: Aabb, p: Vector, axis: int, lower: bool) -> int {
    if axis == 0 {
        if lower { p.x - b.mins.x } else { b.maxs.x - p.x }
    } else if axis == 1 {
        if lower { p.y - b.mins.y } else { b.maxs.y - p.y }
    } else {
        if lower { p.z - b.mins.z } else { b.maxs.z - p.z }
    }
}

/// The foot of `p` on a face lies at the distance of that face.
proof fn lemma_foot_distance(b: Aabb, p: Vector, axis: int, lower: bool)
    requires
        contains_point(b, p),
        0 <= axis < 3,
    ensures
        face_distance(b, p, axis, lower) >= 0,
        dist2(foot(b, p, axis, lower), p) == face_distance(b, p, axis, lower) * face_distance(
            b,
            p,
            axis,
            lower,
        ),
{
    let f = foot(b, p, axis, lower);
    let d = face_distance(b, p, axis, lower);
    assert(dist2(f, p) == d * d) by (nonlinear_arith)
        requires
            dist2(f, p) == (f.x - p.x) * (f.x - p.x) + (f.y - p.y) * (f.y - p.y) + (f.z - p.z) * (
            f.z - p.z),
            axis == 0 ==> (f.x - p.x == d || f.x - p.x == -d) && f.y == p.y && f.z == p.z,
            axis == 1 ==> (f.y - p.y == d || f.y - p.y == -d) && f.x == p.x && f.z == p.z,
            axis == 2 ==> (f.z - p.z == d || f.z - p.z == -d) && f.x == p.x && f.y == p.y,
            0 <= axis < 3,
    ;
}

/// The hollow projection of a point inside a box is the foot of the point
/// on one of the six faces of the box.
pub proof fn lemma_hollow_projection_is_a_foot(b: Aabb, p: Vector)
    requires
        contains_point(b, p),
    ensures
        ({
            let r = project_on_aabb(b, p, false).point;
            ||| r == foot(b, p, 0, true)
            ||| r == foot(b, p, 0, false)
            ||| r == foot(b, p, 1, true)
            ||| r == foot(b, p, 1, false)
            ||| r == foot(b, p, 2, true)
            ||| r == foot(b, p, 2, false)
        }),
{
}

/// Among the faces nearest to a point inside a box, the hollow projection
/// goes to the first one in the order of `face_rank`: it is never the foot
/// on a face when a face earlier in that order, with another foot, is at
/// most as far.
pub proof fn lemma_hollow_projection_first_nearest_face(
    b: Aabb,
    p: Vector,
    a1: int,
    l1: bool,
    a2: int,
    l2: bool,
)
    requires
        contains_point(b, p),
        0 <= a1 < 3,
        0 <= a2 < 3,
        face_rank(a1, l1) < face_rank(a2, l2),
        dist2(foot(b, p, a1, l1), p) <= dist2(foot(b, p, a2, l2), p),
        foot(b, p, a1, l1) != foot(b, p, a2, l2),
    ensures
        project_on_aabb(b, p, false).point != foot(b, p, a2, l2),
{
    lemma_foot_distance(b, p, a1, l1);
    lemma_foot_distance(b, p, a2, l2);
    let d1 = face_distance(b, p, a1, l1);
    let d2 = face_distance(b, p, a2, l2);
    if d2 < d1 {
        lemma_square_lt(d2, d1);
    }
    assert(d1 <= d2);
    let (lx, hx, vx) = (b.mins.x as int, b.maxs.x as int, p.x as int);
    let (ly, hy, vy) = (b.mins.y as int, b.maxs.y as int, p.y as int);
    let (lz, hz, vz) = (b.mins.z as int, b.maxs.z as int, p.z as int);
    lemma_axis_faces(lx, hx, vx);
    lemma_axis_faces(ly, hy, vy);
    lemma_axis_faces(lz, hz, vz);
}

/// The squared distance from a point to a solid box is the squared distance
/// to its projection on the box, and to no point of the box is it shorter.
pub proof fn lemma_distance_to_box(b: Aabb, p: Vector, q: Vector)
    requires
        ordered(b),
        contains_point(b, q),
    ensures
        shift_dist2(b, p) == dist2(project_on_aabb(b, p, true).point, p),
        shift_dist2(b, p) <= dist2(q, p),
        shift_dist2(b, p) == 0 <==> contains_point(b, p),
{
    let r = project_on_aabb(b, p, true).point;
    let sx = (if b.mins.x - p.x > 0 { b.mins.x - p.x } else { 0 }) - (if p.x - b.maxs.x > 0 {
        p.x - b.maxs.x
    } else {
        0
    });
    let sy = (if b.mins.y - p.y > 0 { b.mins.y - p.y } else { 0 }) - (if p.y - b.maxs.y > 0 {
        p.y - b.maxs.y
    } else {
        0
    });
    let sz = (if b.mins.z - p.z > 0 { b.mins.z - p.z } else { 0 }) - (if p.z - b.maxs.z > 0 {
        p.z - b.maxs.z
    } else {
        0
    });
    assert(r.x - p.x == sx && r.y - p.y == sy && r.z - p.z == sz);
    assert(dist2(r, p) == sx * sx + sy * sy + sz * sz);
    if contains_point(b, p) {
        lemma_dist2_nonneg_geom(q, p);
    } else {
        lemma_projection_outside_is_nearest(b, p, true, q);
        assert(sx != 0 || sy != 0 || sz != 0);
        assert(sx * sx + sy * sy + sz * sz > 0) by (nonlinear_arith)
            requires
                sx != 0 || sy != 0 || sz != 0,
        ;
    }
}

proof fn lemma_dist2_nonneg_geom(a: Vector, b: Vector)
    ensures
        dist2(a, b) >= 0,
{
    let dx = a.x - b.x;
    let dy = a.y - b.y;
    let dz = a.z - b.z;
    assert(dx * dx >= 0 && dy * dy >= 0 && dz * dz >= 0) by (nonlinear_arith);
}

/// The projection of a point on a box lies in the box.
pub proof fn lemma_projection_in_aabb(b: Aabb, p: Vector, solid: bool)
    requires
        box_ok(b),
    ensures
        contains_point(b, project_on_aabb(b, p, solid).point),
{
}

/// Projecting a translated point on the translated box gives the translated
/// projection.
pub proof fn lemma_projection_translation(b: Aabb, p: Vector, t: Vector, solid: bool)
    requires
        box_ok(b),
        small_vector(p),
        small_vector(t),
        box_ok(translate_aabb(b, t)),
        small_vector(translate(p, t)),
    ensures
        project_on_aabb(translate_aabb(b, t), translate(p, t), solid) == (PointProjection {
            is_inside: project_on_aabb(b, p, solid).is_inside,
            point: translate(project_on_aabb(b, p, solid).point, t),
        }),
{
    let tb = translate_aabb(b, t);
    let tp = translate(p, t);
    assert(contains_point(tb, tp) == contains_point(b, p));
    if contains_point(b, p) && !solid {
        assert(nearest_face_axis(tb, tp) == nearest_face_axis(b, p));
    }
}

impl PointProjection {
    pub fn new(is_inside: bool, point: Vector) -> (r: PointProjection)
        ensures
            r == (PointProjection { is_inside, point }),
    {
        PointProjection { is_inside, point }
    }
}

impl Aabb {
    pub fn new(mins: Vector, maxs: Vector) -> (r: Aabb)
        ensures
            r == (Aabb { mins, maxs }),
    {
        Aabb { mins, maxs }
    }

    /// The box centered at `center` with the given half extents.
    pub fn from_half_extents(center: Vector, half_extents: Vector) -> (r: Aabb)
        requires
            i64::MIN <= center.x - half_extents.x && center.x + half_extents.x <= i64::MAX,
            i64::MIN <= center.y - half_extents.y && center.y + half_extents.y <= i64::MAX,
            i64::MIN <= center.z - half_extents.z && center.z + half_extents.z <= i64::MAX,
            i64::MIN <= center.x + half_extents.x && center.x - half_extents.x <= i64::MAX,
            i64::MIN <= center.y + half_extents.y && center.y - half_extents.y <= i64::MAX,
            i64::MIN <= center.z + half_extents.z && center.z - half_extents.z <= i64::MAX,
        ensures
            r.mins.x == center.x - half_extents.x,
            r.mins.y == center.y - half_extents.y,
            r.mins.z == center.z - half_extents.z,
            r.maxs.x == center.x + half_extents.x,
            r.maxs.y == center.y + half_extents.y,
            r.maxs.z == center.z + half_extents.z,
    {
        Aabb { mins: center.minus(&half_extents), maxs: center.plus(&half_extents) }
    }

    /// Whether the point `p` lies inside of this box, boundary included.
    pub fn contains_local_point(&self, p: Vector) -> (r: bool)
        ensures
            r == contains_point(*self, p),
    {
        self.mins.x <= p.x && p.x <= self.maxs.x && self.mins.y <= p.y && p.y <= self.maxs.y
            && self.mins.z <= p.z && p.z <= self.maxs.z
    }

    /// Whether `other` lies inside of this box.
    pub fn contains(&self, other: &Aabb) -> (r: bool)
        ensures
            r == contains_aabb(*self, *other),
    {
        self.mins.x <= other.mins.x && self.mins.y <= other.mins.y && self.mins.z <= other.mins.z
            && other.maxs.x <= self.maxs.x && other.maxs.y <= self.maxs.y && other.maxs.z
            <= self.maxs.z
    }

    /// Projects a point on this box.
    pub fn project_local_point(&self, pt: Vector, solid: bool) -> (r: PointProjection)
        requires
            box_ok(*self),
            small_vector(pt),
        ensures
            r == project_on_aabb(*self, pt, solid),
    {
        let mins_pt = self.mins.minus(&pt);
        let pt_maxs = pt.minus(&self.maxs);
        let zero = Vector::splat(0);
        let shift = Vector {
            x: positive_part(mins_pt.x) - positive_part(pt_maxs.x),
            y: positive_part(mins_pt.y) - positive_part(pt_maxs.y),
            z: positive_part(mins_pt.z) - positive_part(pt_maxs.z),
        };
        let inside = shift == zero;
        if !inside {
            PointProjection::new(false, pt.plus(&shift))
        } else if solid {
            PointProjection::new(true, pt)
        } else {
            let mut best: i64 = -i64::MAX;
            let mut is_mins = false;
            let mut best_id: usize = 0;
            // Along each axis, the face nearest to the point; across axes, the
            // nearest of those faces, the first one on a tie.
            if mins_pt.x < pt_maxs.x {
                if pt_maxs.x > best {
                    best_id = 0;
                    is_mins = false;
                    best = pt_maxs.x;
                }
            } else if mins_pt.x > best {
                best_id = 0;
                is_mins = true;
                best = mins_pt.x;
            }
            if mins_pt.y < pt_maxs.y {
                if pt_maxs.y > best {
                    best_id = 1;
                    is_mins = false;
                    best = pt_maxs.y;
                }
            } else if mins_pt.y > best {
                best_id = 1;
                is_mins = true;
                best = mins_pt.y;
            }
            if mins_pt.z < pt_maxs.z {
                if pt_maxs.z > best {
                    best_id = 2;
                    is_mins = false;
                    best = pt_maxs.z;
                }
            } else if mins_pt.z > best {
                best_id = 2;
                is_mins = true;
                best = mins_pt.z;
            }
            let amount = if is_mins {
                best
            } else {
                -best
            };
            let shift = if best_id == 0 {
                Vector { x: amount, y: 0, z: 0 }
            } else if best_id == 1 {
                Vector { x: 0, y: amount, z: 0 }
            } else {
                Vector { x: 0, y: 0, z: amount }
            };
            PointProjection::new(inside, pt.plus(&shift))
        }
    }
}

/// `max(v, 0)`.
fn positive_part(v: i64) -> (r: i64)
    ensures
        r == if v > 0 { v as int } else { 0 },
{
    if v > 0 {
        v
    } else {
        0
    }
}

impl Aabb {
    /// Squared distance from `pt` to this box, taken as solid.
    pub fn distance_squared_to_local_point(&self, pt: Vector) -> (r: i128)
        requires
            vector_ok(self.mins),
            vector_ok(self.maxs),
            vector_ok(pt),
        ensures
            r == shift_dist2(*self, pt),
            0 <= r < 0x1000_0000_0000_0000_0000_0000_0000,
    {
        let sx = (positive_part(self.mins.x - pt.x) - positive_part(pt.x - self.maxs.x)) as i128;
        let sy = (positive_part(self.mins.y - pt.y) - positive_part(pt.y - self.maxs.y)) as i128;
        let sz = (positive_part(self.mins.z - pt.z) - positive_part(pt.z - self.maxs.z)) as i128;
        assert(0 <= sx * sx <= 0x400_0000_0000_0000_0000_0000_0000) by (nonlinear_arith)
            requires
                -0x20_0000_0000_0000 <= sx <= 0x20_0000_0000_0000,
        ;
        assert(0 <= sy * sy <= 0x400_0000_0000_0000_0000_0000_0000) by (nonlinear_arith)
            requires
                -0x20_0000_0000_0000 <= sy <= 0x20_0000_0000_0000,
        ;
        assert(0 <= sz * sz <= 0x400_0000_0000_0000_0000_0000_0000) by (nonlinear_arith)
            requires
                -0x20_0000_0000_0000 <= sz <= 0x20_0000_0000_0000,
        ;
        sx * sx + sy * sy + sz * sz
    }
}

impl Cuboid {
    pub fn new(half_extents: Vector) -> (r: Cuboid)
        ensures
            r == (Cuboid { half_extents }),
    {
        Cuboid { half_extents }
    }

    /// The cuboid as a box.
    pub open spec fn aabb(self) -> Aabb {
        Aabb { mins: neg(self.half_extents), maxs: self.half_extents }
    }

    /// Projects a point, given in the cuboid's local frame, on the cuboid.
    pub fn project_local_point(&self, pt: Vector, solid: bool) -> (r: PointProjection)
        requires
            small_vector(self.half_extents),
            0 <= self.half_extents.x && 0 <= self.half_extents.y && 0 <= self.half_extents.z,
            small_vector(pt),
        ensures
            r == project_on_aabb(self.aabb(), pt, solid),
    {
        let dl = Vector {
            x: -self.half_extents.x,
            y: -self.half_extents.y,
            z: -self.half_extents.z,
        };
        let aabb = Aabb::new(dl, self.half_extents);
        aabb.project_local_point(pt, solid)
    }
}

} // verus!
