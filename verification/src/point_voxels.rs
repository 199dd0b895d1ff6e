//! Projection of a point on a voxel shape, for any storage implementing
//! `VoxelQuery`.
use vstd::prelude::*;
use crate::math::{
    IVector, Vector, dist2, vector_ok, valid_voxel_size, size_ok, max3, sqrt_floor, sqrt_ceil,
    distance_squared, floor_sqrt, ceil_sqrt,
};
use crate::geometry::{
    Aabb, Cuboid, PointProjection, project_on_aabb, contains_point, contains_aabb,
    lemma_projection_in_aabb, lemma_projection_translation, translate, translate_aabb, small_vector,
    shift_dist2, on_boundary, ordered, foot, face_rank, lemma_projection_outside_is_nearest,
    lemma_solid_projection_inside, lemma_hollow_projection_inside_is_nearest,
    lemma_hollow_projection_first_nearest_face,
};
use crate::voxel_query::{
    VoxelQuery, filled, state_agrees, id_or_zero, key_in_range, voxel_box, voxel_center_of,
    range_aabb, half_size, point_key, point_has_key, lemma_voxel_at_point_contains_point,
    lemma_range_of_aabb_is_overlap, aabb_key_range, lists_voxels_in_range, storage_laws,
    lemma_key_times_size,
};
use crate::voxel_state::VoxelData;

verus! {

/// The projection of `pt` on the voxel `key` of `q`.
pub open spec fn voxel_projection<Q: VoxelQuery + ?Sized>(
    q: &Q,
    key: IVector,
    pt: Vector,
    solid: bool,
) -> PointProjection {
    project_on_aabb(voxel_box(q.spec_voxel_size(), key), pt, solid)
}

/// The box of a voxel is not empty.
proof fn lemma_voxel_box_ordered(s: Vector, key: IVector)
    requires
        valid_voxel_size(s),
    ensures
        ordered(voxel_box(s, key)),
{
    lemma_key_times_size(key.x as int, s.x as int);
    lemma_key_times_size(key.y as int, s.y as int);
    lemma_key_times_size(key.z as int, s.z as int);
}

/// The projection of `pt` on a voxel: for a point outside the voxel, the
/// point of the voxel nearest to it, flagged outside; for a point inside, the
/// point itself when solid, else a point of the voxel's boundary nearest to
/// it, flagged inside. `w` is any point of the voxel (outside case) or of
/// its boundary (hollow case) that the projection is compared with.
pub proof fn lemma_voxel_projection_is_nearest<Q: VoxelQuery + ?Sized>(
    q: &Q,
    key: IVector,
    pt: Vector,
    solid: bool,
    w: Vector,
)
    requires
        valid_voxel_size(q.spec_voxel_size()),
    ensures
        ({
            let b = voxel_box(q.spec_voxel_size(), key);
            let r = voxel_projection(q, key, pt, solid);
            &&& !contains_point(b, pt) ==> !r.is_inside && contains_point(b, r.point)
            &&& !contains_point(b, pt) && contains_point(b, w) ==> dist2(r.point, pt) <= dist2(
                w,
                pt,
            )
            &&& contains_point(b, pt) && solid ==> r == (PointProjection {
                is_inside: true,
                point: pt,
            })
            &&& contains_point(b, pt) && !solid ==> r.is_inside && on_boundary(b, r.point)
            &&& contains_point(b, pt) && !solid && on_boundary(b, w) ==> dist2(r.point, pt)
                <= dist2(w, pt)
        }),
{
    let s = q.spec_voxel_size();
    let b = voxel_box(s, key);
    lemma_voxel_box_ordered(s, key);
    if !contains_point(b, pt) {
        lemma_projection_outside_is_nearest(b, pt, solid, b.mins);
        if contains_point(b, w) {
            lemma_projection_outside_is_nearest(b, pt, solid, w);
        }
    } else if solid {
        lemma_solid_projection_inside(b, pt);
    } else {
        lemma_hollow_projection_inside_is_nearest(b, pt, b.mins);
        if on_boundary(b, w) {
            lemma_hollow_projection_inside_is_nearest(b, pt, w);
        }
    }
}

/// Among the faces of a voxel nearest to a point inside of it, the hollow
/// projection goes to the first one in the order of `face_rank`.
pub proof fn lemma_voxel_projection_first_nearest_face<Q: VoxelQuery + ?Sized>(
    q: &Q,
    key: IVector,
    pt: Vector,
    a1: int,
    l1: bool,
    a2: int,
    l2: bool,
)
    requires
        contains_point(voxel_box(q.spec_voxel_size(), key), pt),
        0 <= a1 < 3,
        0 <= a2 < 3,
        face_rank(a1, l1) < face_rank(a2, l2),
        dist2(foot(voxel_box(q.spec_voxel_size(), key), pt, a1, l1), pt) <= dist2(
            foot(voxel_box(q.spec_voxel_size(), key), pt, a2, l2),
            pt,
        ),
        foot(voxel_box(q.spec_voxel_size(), key), pt, a1, l1) != foot(
            voxel_box(q.spec_voxel_size(), key),
            pt,
            a2,
            l2,
        ),
    ensures
        voxel_projection(q, key, pt, false).point != foot(
            voxel_box(q.spec_voxel_size(), key),
            pt,
            a2,
            l2,
        ),
{
    lemma_hollow_projection_first_nearest_face(
        voxel_box(q.spec_voxel_size(), key),
        pt,
        a1,
        l1,
        a2,
        l2,
    );
}

/// `key` is a filled voxel of `q` on which `pt` projects at least as close
/// as on any other filled voxel.
pub open spec fn is_closest_voxel<Q: VoxelQuery + ?Sized>(
    q: &Q,
    pt: Vector,
    solid: bool,
    key: IVector,
) -> bool {
    &&& filled(q.spec_voxel_state(key))
    &&& forall|k: IVector|
        #![trigger q.spec_voxel_state(k)]
        filled(q.spec_voxel_state(k)) ==> dist2(voxel_projection(q, key, pt, solid).point, pt)
            <= dist2(voxel_projection(q, k, pt, solid).point, pt)
}

/// `r` is a correct answer of the projection of `pt` on the voxels of `q`:
/// `None` exactly when `q` has no filled voxel; else the projection of `pt`
/// on a closest filled voxel, with that voxel's identifier (`0` if it has
/// none).
pub open spec fn is_voxels_projection<Q: VoxelQuery + ?Sized>(
    q: &Q,
    pt: Vector,
    solid: bool,
    r: Option<(PointProjection, u32)>,
) -> bool {
    match r {
        None => forall|k: IVector| !filled(#[trigger] q.spec_voxel_state(k)),
        Some((proj, id)) => exists|k: IVector|
            #![trigger q.spec_voxel_state(k)]
            is_closest_voxel(q, pt, solid, k) && proj == voxel_projection(q, k, pt, solid) && id
                == id_or_zero(q.spec_linear_id(k)),
    }
}

/// The distance, along the axes, beyond which the search region around `p`
/// covers the whole box `[lo, hi]`.
pub open spec fn reach(lo: Vector, hi: Vector, p: Vector) -> int {
    max3(
        max3(p.x - lo.x, hi.x - p.x, 0),
        max3(p.y - lo.y, hi.y - p.y, 0),
        max3(p.z - lo.z, hi.z - p.z, 0),
    )
}

/// The best candidate of a scan of `list`: the projection of `pt` on the
/// first of its non-empty voxels on which `pt` projects strictly closer than
/// on every earlier one, with that voxel's identifier; `None` when every
/// voxel of `list` is empty.
pub open spec fn best_in_list<Q: VoxelQuery + ?Sized>(
    q: &Q,
    list: Seq<VoxelData>,
    pt: Vector,
    solid: bool,
) -> Option<(PointProjection, u32)>
    decreases list.len(),
{
    if list.len() == 0 {
        None
    } else {
        let prev = best_in_list(q, list.drop_last(), pt, solid);
        let v = list.last();
        if v.state.spec_is_empty() {
            prev
        } else {
            let c = voxel_projection(q, v.grid_coords, pt, solid);
            match prev {
                Some(b) => if dist2(c.point, pt) < dist2(b.0.point, pt) {
                    Some((c, v.linear_id))
                } else {
                    prev
                },
                None => Some((c, v.linear_id)),
            }
        }
    }
}

/// The largest search radius: the search stays within the region where it
/// computes exactly.
pub open spec fn max_search_radius() -> int {
    0x80_0000_0000_0000
}

/// The answer of the search in growing regions, from the search radius `r`
/// on: the voxels that the storage yields for the search box of half extent
/// `r` around `pt` are scanned; a best candidate within `r` is the answer;
/// a best candidate farther away starts a search of radius its distance
/// (rounded up); no candidate at all is the answer `None` once the search
/// box covers the domain, and doubles the radius otherwise.
pub open spec fn search_from<Q: VoxelQuery + ?Sized>(
    q: &Q,
    pt: Vector,
    solid: bool,
    r: int,
) -> Option<(PointProjection, u32)>
    decreases max_search_radius() - r,
{
    if r <= 0 || r > max_search_radius() {
        None
    } else {
        let s = q.spec_voxel_size();
        let sb = search_box(pt, r);
        let range = aabb_key_range(s, sb);
        match best_in_list(q, q.spec_voxels_in_range(range.0, range.1), pt, solid) {
            Some(best) => {
                let d = dist2(best.0.point, pt);
                if d <= r * r {
                    Some(best)
                } else if r < ceil_sqrt(d) <= max_search_radius() {
                    search_from(q, pt, solid, ceil_sqrt(d))
                } else {
                    None
                }
            },
            None => {
                if contains_aabb(sb, range_aabb(s, q.spec_domain().0, q.spec_domain().1)) {
                    None
                } else if 2 * r <= max_search_radius() {
                    search_from(q, pt, solid, 2 * r)
                } else {
                    None
                }
            },
        }
    }
}

/// The first search radius: the distance from `pt` to the domain's box
/// (rounded down), plus the largest voxel size.
pub open spec fn initial_radius<Q: VoxelQuery + ?Sized>(q: &Q, pt: Vector) -> int {
    let s = q.spec_voxel_size();
    floor_sqrt(shift_dist2(range_aabb(s, q.spec_domain().0, q.spec_domain().1), pt)) + max3(
        s.x as int,
        s.y as int,
        s.z as int,
    )
}

/// The answer of `project_local_point_on_voxels`: the point itself, inside,
/// when the projection is solid and the point lies in the filled voxel of
/// its grid coordinates; else the answer of the search from the first
/// search radius.
pub open spec fn voxels_projection<Q: VoxelQuery + ?Sized>(
    q: &Q,
    pt: Vector,
    solid: bool,
) -> Option<(PointProjection, u32)> {
    let s = q.spec_voxel_size();
    let key = point_key(s, pt);
    if solid && filled(q.spec_voxel_state(key)) && contains_point(voxel_box(s, key), pt) {
        Some((PointProjection { is_inside: true, point: pt }, id_or_zero(q.spec_linear_id(key))))
    } else {
        search_from(q, pt, solid, initial_radius(q, pt))
    }
}

/// A filled voxel lies in the domain box.
proof fn lemma_filled_box_in_domain(k: int, s: int, dmin: int, dmax: int)
    requires
        size_ok(s),
        dmin <= k < dmax,
    ensures
        dmin * s <= k * s,
        (k + 1) * s <= dmax * s,
{
    assert(dmin * s <= k * s) by (nonlinear_arith)
        requires
            dmin <= k,
            s > 0,
    ;
    assert((k + 1) * s <= dmax * s) by (nonlinear_arith)
        requires
            k + 1 <= dmax,
            s > 0,
    ;
}

/// A point at distance at least `r` along one axis is at squared distance at
/// least `r * r`.
proof fn lemma_far_along_axis(a: Vector, b: Vector, r: int)
    requires
        r >= 0,
        a.x - b.x >= r || b.x - a.x >= r || a.y - b.y >= r || b.y - a.y >= r || a.z - b.z >= r
            || b.z - a.z >= r,
    ensures
        dist2(a, b) >= r * r,
{
    let dx = a.x - b.x;
    let dy = a.y - b.y;
    let dz = a.z - b.z;
    assert(dx * dx >= 0 && dy * dy >= 0 && dz * dz >= 0) by (nonlinear_arith);
    assert(dx >= r || -dx >= r ==> dx * dx >= r * r) by (nonlinear_arith)
        requires
            r >= 0,
    ;
    assert(dy >= r || -dy >= r ==> dy * dy >= r * r) by (nonlinear_arith)
        requires
            r >= 0,
    ;
    assert(dz >= r || -dz >= r ==> dz * dz >= r * r) by (nonlinear_arith)
        requires
            r >= 0,
    ;
}

/// A point within `d` of another along each axis is at squared distance at
/// most `(2 * d) * (2 * d)`.
proof fn lemma_near_along_axes(a: Vector, b: Vector, d: int)
    requires
        -d <= a.x - b.x <= d,
        -d <= a.y - b.y <= d,
        -d <= a.z - b.z <= d,
    ensures
        0 <= dist2(a, b) <= (2 * d) * (2 * d),
{
    let dx = a.x - b.x;
    let dy = a.y - b.y;
    let dz = a.z - b.z;
    assert(0 <= dx * dx <= d * d) by (nonlinear_arith)
        requires
            -d <= dx <= d,
    ;
    assert(0 <= dy * dy <= d * d) by (nonlinear_arith)
        requires
            -d <= dy <= d,
    ;
    assert(0 <= dz * dz <= d * d) by (nonlinear_arith)
        requires
            -d <= dz <= d,
    ;
    assert((2 * d) * (2 * d) == 4 * (d * d)) by (nonlinear_arith);
}

/// A point is at distance zero from itself.
pub proof fn lemma_dist2_self(a: Vector)
    ensures
        dist2(a, a) == 0,
{
    assert(dist2(a, a) == 0) by (nonlinear_arith);
}

pub proof fn lemma_dist2_nonneg(a: Vector, b: Vector)
    ensures
        dist2(a, b) >= 0,
{
    let dx = a.x - b.x;
    let dy = a.y - b.y;
    let dz = a.z - b.z;
    assert(dx * dx >= 0 && dy * dy >= 0 && dz * dz >= 0) by (nonlinear_arith);
}

/// The projection computed from a voxel's center and half size, in the
/// frame of the voxel, is the projection on the voxel's box.
proof fn lemma_candidate_is_voxel_projection(
    s: Vector,
    key: IVector,
    c: Vector,
    pt: Vector,
    solid: bool,
)
    requires
        valid_voxel_size(s),
        c == voxel_center_of(s, key),
        vector_ok(pt),
    ensures
        ({
            let local = Vector {
                x: (pt.x - c.x) as i64,
                y: (pt.y - c.y) as i64,
                z: (pt.z - c.z) as i64,
            };
            let pr = project_on_aabb((Cuboid { half_extents: half_size(s) }).aabb(), local, solid);
            &&& small_vector(local)
            &&& local.x == pt.x - c.x && local.y == pt.y - c.y && local.z == pt.z - c.z
            &&& contains_point((Cuboid { half_extents: half_size(s) }).aabb(), pr.point)
            &&& (PointProjection { is_inside: pr.is_inside, point: translate(pr.point, c) })
                == project_on_aabb(voxel_box(s, key), pt, solid)
        }),
        small_vector(half_size(s)),
        0 <= half_size(s).x && 0 <= half_size(s).y && 0 <= half_size(s).z,
        -0x8_0000_0000_0000 <= c.x <= 0x8_0000_0000_0000,
        -0x8_0000_0000_0000 <= c.y <= 0x8_0000_0000_0000,
        -0x8_0000_0000_0000 <= c.z <= 0x8_0000_0000_0000,
{
    lemma_key_times_size(key.x as int, s.x as int);
    lemma_key_times_size(key.y as int, s.y as int);
    lemma_key_times_size(key.z as int, s.z as int);
    let cub = Cuboid { half_extents: half_size(s) };
    assert(translate_aabb(cub.aabb(), c) == voxel_box(s, key));
    let p = Vector { x: (pt.x - c.x) as i64, y: (pt.y - c.y) as i64, z: (pt.z - c.z) as i64 };
    assert(translate(p, c) == pt);
    lemma_projection_translation(cub.aabb(), p, c, solid);
    lemma_projection_in_aabb(cub.aabb(), p, solid);
}

/// The search box of half extent `r` around `pt`.
pub open spec fn search_box(pt: Vector, r: int) -> Aabb {
    Aabb {
        mins: Vector { x: (pt.x - r) as i64, y: (pt.y - r) as i64, z: (pt.z - r) as i64 },
        maxs: Vector { x: (pt.x + r) as i64, y: (pt.y + r) as i64, z: (pt.z + r) as i64 },
    }
}

/// A filled voxel whose box overlaps the inside of the search box of half
/// extent `r` is listed by the search.
proof fn lemma_overlapping_voxel_listed<V: VoxelQuery + ?Sized>(
    voxels: &V,
    pt: Vector,
    r: int,
    list: Seq<VoxelData>,
    k: IVector,
)
    requires
        storage_laws(voxels),
        vector_ok(pt),
        0 <= r <= 0x80_0000_0000_0000,
        lists_voxels_in_range(
            voxels,
            aabb_key_range(voxels.spec_voxel_size(), search_box(pt, r)).0,
            aabb_key_range(voxels.spec_voxel_size(), search_box(pt, r)).1,
            list,
        ),
        filled(voxels.spec_voxel_state(k)),
        k.x * voxels.spec_voxel_size().x < pt.x + r,
        (k.x + 1) * voxels.spec_voxel_size().x > pt.x - r,
        k.y * voxels.spec_voxel_size().y < pt.y + r,
        (k.y + 1) * voxels.spec_voxel_size().y > pt.y - r,
        k.z * voxels.spec_voxel_size().z < pt.z + r,
        (k.z + 1) * voxels.spec_voxel_size().z > pt.z - r,
    ensures
        exists|i: int|
            0 <= i < list.len() && list[i].grid_coords == k && !list[i].state.spec_is_empty(),
{
    let s = voxels.spec_voxel_size();
    let range = aabb_key_range(s, search_box(pt, r));
    lemma_range_of_aabb_is_overlap(s, search_box(pt, r), k);
    assert(key_in_range(k, range.0, range.1));
    let i = choose|i: int| 0 <= i < list.len() && (#[trigger] list[i].grid_coords) == k;
    assert(state_agrees(list[i].state, voxels.spec_voxel_state(list[i].grid_coords)));
}

/// A filled voxel that is not listed by the search of half extent `r` is at
/// squared distance at least `r * r`.
proof fn lemma_filled_voxel_searched<V: VoxelQuery + ?Sized>(
    voxels: &V,
    pt: Vector,
    solid: bool,
    r: int,
    list: Seq<VoxelData>,
    k: IVector,
)
    requires
        storage_laws(voxels),
        vector_ok(pt),
        0 <= r <= 0x80_0000_0000_0000,
        lists_voxels_in_range(
            voxels,
            aabb_key_range(voxels.spec_voxel_size(), search_box(pt, r)).0,
            aabb_key_range(voxels.spec_voxel_size(), search_box(pt, r)).1,
            list,
        ),
        filled(voxels.spec_voxel_state(k)),
    ensures
        dist2(voxel_projection(voxels, k, pt, solid).point, pt) >= r * r || exists|i: int|
            0 <= i < list.len() && list[i].grid_coords == k && !list[i].state.spec_is_empty(),
{
    let s = voxels.spec_voxel_size();
    lemma_key_times_size(k.x as int, s.x as int);
    lemma_key_times_size(k.y as int, s.y as int);
    lemma_key_times_size(k.z as int, s.z as int);
    let p = voxel_projection(voxels, k, pt, solid).point;
    lemma_projection_in_aabb(voxel_box(s, k), pt, solid);
    if k.x * s.x < pt.x + r && (k.x + 1) * s.x > pt.x - r && k.y * s.y < pt.y + r && (k.y + 1)
        * s.y > pt.y - r && k.z * s.z < pt.z + r && (k.z + 1) * s.z > pt.z - r {
        lemma_overlapping_voxel_listed(voxels, pt, r, list, k);
    } else {
        lemma_far_along_axis(p, pt, r);
    }
}

/// The shape is searched whole once the search box contains the domain box.
proof fn lemma_whole_domain_searched<V: VoxelQuery + ?Sized>(
    voxels: &V,
    pt: Vector,
    r: int,
    list: Seq<VoxelData>,
    k: IVector,
)
    requires
        storage_laws(voxels),
        vector_ok(pt),
        0 <= r <= 0x80_0000_0000_0000,
        lists_voxels_in_range(
            voxels,
            aabb_key_range(voxels.spec_voxel_size(), search_box(pt, r)).0,
            aabb_key_range(voxels.spec_voxel_size(), search_box(pt, r)).1,
            list,
        ),
        contains_aabb(
            search_box(pt, r),
            range_aabb(voxels.spec_voxel_size(), voxels.spec_domain().0, voxels.spec_domain().1),
        ),
        filled(voxels.spec_voxel_state(k)),
    ensures
        exists|i: int|
            0 <= i < list.len() && list[i].grid_coords == k && !list[i].state.spec_is_empty(),
{
    let s = voxels.spec_voxel_size();
    let (dmin, dmax) = voxels.spec_domain();
    lemma_key_times_size(k.x as int, s.x as int);
    lemma_key_times_size(k.y as int, s.y as int);
    lemma_key_times_size(k.z as int, s.z as int);
    lemma_key_times_size(dmin.x as int, s.x as int);
    lemma_key_times_size(dmin.y as int, s.y as int);
    lemma_key_times_size(dmin.z as int, s.z as int);
    lemma_key_times_size(dmax.x as int, s.x as int);
    lemma_key_times_size(dmax.y as int, s.y as int);
    lemma_key_times_size(dmax.z as int, s.z as int);
    lemma_filled_box_in_domain(k.x as int, s.x as int, dmin.x as int, dmax.x as int);
    lemma_filled_box_in_domain(k.y as int, s.y as int, dmin.y as int, dmax.y as int);
    lemma_filled_box_in_domain(k.z as int, s.z as int, dmin.z as int, dmax.z as int);
    lemma_overlapping_voxel_listed(voxels, pt, r, list, k);
}

/// The projection on a filled voxel is within the reach of the domain box
/// along each axis.
proof fn lemma_projection_within_reach<V: VoxelQuery + ?Sized>(
    voxels: &V,
    pt: Vector,
    solid: bool,
    k: IVector,
)
    requires
        storage_laws(voxels),
        vector_ok(pt),
        filled(voxels.spec_voxel_state(k)),
    ensures
        ({
            let b = range_aabb(
                voxels.spec_voxel_size(),
                voxels.spec_domain().0,
                voxels.spec_domain().1,
            );
            let d = reach(b.mins, b.maxs, pt);
            0 <= dist2(voxel_projection(voxels, k, pt, solid).point, pt) <= (2 * d) * (2 * d)
        }),
{
    let s = voxels.spec_voxel_size();
    let (dmin, dmax) = voxels.spec_domain();
    lemma_key_times_size(k.x as int, s.x as int);
    lemma_key_times_size(k.y as int, s.y as int);
    lemma_key_times_size(k.z as int, s.z as int);
    lemma_key_times_size(dmin.x as int, s.x as int);
    lemma_key_times_size(dmin.y as int, s.y as int);
    lemma_key_times_size(dmin.z as int, s.z as int);
    lemma_key_times_size(dmax.x as int, s.x as int);
    lemma_key_times_size(dmax.y as int, s.y as int);
    lemma_key_times_size(dmax.z as int, s.z as int);
    lemma_filled_box_in_domain(k.x as int, s.x as int, dmin.x as int, dmax.x as int);
    lemma_filled_box_in_domain(k.y as int, s.y as int, dmin.y as int, dmax.y as int);
    lemma_filled_box_in_domain(k.z as int, s.z as int, dmin.z as int, dmax.z as int);
    lemma_projection_in_aabb(voxel_box(s, k), pt, solid);
    let b = range_aabb(s, dmin, dmax);
    let d = reach(b.mins, b.maxs, pt);
    lemma_near_along_axes(voxel_projection(voxels, k, pt, solid).point, pt, d);
}

/// The projection of `pt` on the voxel `vox`, computed in the frame of the
/// voxel with the cuboid of half the voxel size, and its squared distance to
/// `pt`.
pub(crate) fn project_on_voxel<V: VoxelQuery + ?Sized>(
    voxels: &V,
    base_cuboid: &Cuboid,
    vox: &VoxelData,
    pt: Vector,
    solid: bool,
) -> (r: (PointProjection, i128))
    requires
        valid_voxel_size(voxels.spec_voxel_size()),
        base_cuboid.half_extents == half_size(voxels.spec_voxel_size()),
        vox.center == voxel_center_of(voxels.spec_voxel_size(), vox.grid_coords),
        vector_ok(pt),
    ensures
        r.0 == voxel_projection(voxels, vox.grid_coords, pt, solid),
        r.1 == dist2(r.0.point, pt),
        0 <= r.1 < i128::MAX,
{
    let ghost size = voxels.spec_voxel_size();
    proof {
        lemma_candidate_is_voxel_projection(size, vox.grid_coords, vox.center, pt, solid);
        lemma_key_times_size(vox.grid_coords.x as int, size.x as int);
        lemma_key_times_size(vox.grid_coords.y as int, size.y as int);
        lemma_key_times_size(vox.grid_coords.z as int, size.z as int);
        lemma_projection_in_aabb(voxel_box(size, vox.grid_coords), pt, solid);
    }
    let mut candidate = base_cuboid.project_local_point(pt.minus(&vox.center), solid);
    candidate.point = candidate.point.plus(&vox.center);
    assert(candidate == voxel_projection(voxels, vox.grid_coords, pt, solid));
    let candidate_dist = distance_squared(candidate.point, pt);
    (candidate, candidate_dist)
}


/// The projection found lies on a filled voxel: it is inside exactly when
/// the point lies in that voxel, and, for a non-solid shape, an inside
/// projection lies on the voxel's boundary.
pub proof fn lemma_projection_lies_on_voxel<Q: VoxelQuery + ?Sized>(
    q: &Q,
    pt: Vector,
    solid: bool,
    r: Option<(PointProjection, u32)>,
)
    requires
        storage_laws(q),
        vector_ok(pt),
        is_voxels_projection(q, pt, solid, r),
        r is Some,
    ensures
        exists|k: IVector|
            #![trigger q.spec_voxel_state(k)]
            filled(q.spec_voxel_state(k)) && contains_point(
                voxel_box(q.spec_voxel_size(), k),
                r.unwrap().0.point,
            ) && (r.unwrap().0.is_inside <==> contains_point(voxel_box(q.spec_voxel_size(), k), pt))
                && (r.unwrap().0.is_inside && !solid ==> on_boundary(
                voxel_box(q.spec_voxel_size(), k),
                r.unwrap().0.point,
            )),
{
    let (proj, id) = r.unwrap();
    let k = choose|k: IVector|
        #![trigger q.spec_voxel_state(k)]
        is_closest_voxel(q, pt, solid, k) && proj == voxel_projection(q, k, pt, solid) && id
            == id_or_zero(q.spec_linear_id(k));
    let s = q.spec_voxel_size();
    lemma_key_times_size(k.x as int, s.x as int);
    lemma_key_times_size(k.y as int, s.y as int);
    lemma_key_times_size(k.z as int, s.z as int);
    lemma_projection_in_aabb(voxel_box(s, k), pt, solid);
}

/// The solid projection of a point lying in a filled voxel is the point
/// itself, inside.
pub proof fn lemma_solid_projection_of_inside_point<Q: VoxelQuery + ?Sized>(
    q: &Q,
    pt: Vector,
    r: Option<(PointProjection, u32)>,
    k: IVector,
)
    requires
        storage_laws(q),
        vector_ok(pt),
        is_voxels_projection(q, pt, true, r),
        filled(q.spec_voxel_state(k)),
        contains_point(voxel_box(q.spec_voxel_size(), k), pt),
    ensures
        r is Some,
        r.unwrap().0 == (PointProjection { is_inside: true, point: pt }),
{
    let s = q.spec_voxel_size();
    assert(voxel_projection(q, k, pt, true).point == pt);
    lemma_dist2_self(pt);
    let (proj, id) = r.unwrap();
    let kb = choose|kb: IVector|
        #![trigger q.spec_voxel_state(kb)]
        is_closest_voxel(q, pt, true, kb) && proj == voxel_projection(q, kb, pt, true) && id
            == id_or_zero(q.spec_linear_id(kb));
    assert(dist2(proj.point, pt) <= 0);
    lemma_key_times_size(kb.x as int, s.x as int);
    lemma_key_times_size(kb.y as int, s.y as int);
    lemma_key_times_size(kb.z as int, s.z as int);
    let dx = proj.point.x - pt.x;
    let dy = proj.point.y - pt.y;
    let dz = proj.point.z - pt.z;
    assert(dx == 0 && dy == 0 && dz == 0) by (nonlinear_arith)
        requires
            dx * dx + dy * dy + dz * dz <= 0,
    ;
    assert(proj.point == pt);
}

/// Any two correct answers of the projection on the same voxels agree on
/// whether there is a projection, and on its distance to the point.
pub proof fn lemma_projections_same_distance<Q: VoxelQuery + ?Sized>(
    q: &Q,
    pt: Vector,
    solid: bool,
    r1: Option<(PointProjection, u32)>,
    r2: Option<(PointProjection, u32)>,
)
    requires
        is_voxels_projection(q, pt, solid, r1),
        is_voxels_projection(q, pt, solid, r2),
    ensures
        r1 is None <==> r2 is None,
        r1 is Some ==> dist2(r1.unwrap().0.point, pt) == dist2(r2.unwrap().0.point, pt),
{
    if r1 is Some {
        let k1 = choose|k: IVector|
            #![trigger q.spec_voxel_state(k)]
            is_closest_voxel(q, pt, solid, k) && r1.unwrap().0 == voxel_projection(q, k, pt, solid)
                && r1.unwrap().1 == id_or_zero(q.spec_linear_id(k));
        assert(filled(q.spec_voxel_state(k1)));
        if r2 is Some {
            let k2 = choose|k: IVector|
                #![trigger q.spec_voxel_state(k)]
                is_closest_voxel(q, pt, solid, k) && r2.unwrap().0 == voxel_projection(
                    q,
                    k,
                    pt,
                    solid,
                ) && r2.unwrap().1 == id_or_zero(q.spec_linear_id(k));
            assert(filled(q.spec_voxel_state(k2)));
        }
    }
    if r2 is Some {
        let k2 = choose|k: IVector|
            #![trigger q.spec_voxel_state(k)]
            is_closest_voxel(q, pt, solid, k) && r2.unwrap().0 == voxel_projection(q, k, pt, solid)
                && r2.unwrap().1 == id_or_zero(q.spec_linear_id(k));
        assert(filled(q.spec_voxel_state(k2)));
    }
}


/// Selects the non-empty voxels.
pub open spec fn non_empty_filter() -> spec_fn(VoxelData) -> bool {
    |d: VoxelData| !d.state.spec_is_empty()
}

/// The lists that `q` yields obey the contract of `voxels_in_range`, for
/// every grid range.
pub open spec fn listings_valid<Q: VoxelQuery + ?Sized>(q: &Q) -> bool {
    forall|mins: IVector, maxs: IVector|
        #[trigger] lists_voxels_in_range(q, mins, maxs, q.spec_voxels_in_range(mins, maxs))
}

/// A scan only looks at the projections on the non-empty voxels of the list:
/// where these agree, so does the best candidate.
proof fn lemma_best_in_list_same_projections<Q1: VoxelQuery + ?Sized, Q2: VoxelQuery + ?Sized>(
    q1: &Q1,
    q2: &Q2,
    list: Seq<VoxelData>,
    pt: Vector,
    solid1: bool,
    solid2: bool,
)
    requires
        forall|j: int|
            0 <= j < list.len() && !(#[trigger] list[j]).state.spec_is_empty() ==> voxel_projection(
                q1,
                list[j].grid_coords,
                pt,
                solid1,
            ) == voxel_projection(q2, list[j].grid_coords, pt, solid2),
    ensures
        best_in_list(q1, list, pt, solid1) == best_in_list(q2, list, pt, solid2),
    decreases list.len(),
{
    if list.len() > 0 {
        let pre = list.drop_last();
        assert forall|j: int|
            0 <= j < pre.len() && !(#[trigger] pre[j]).state.spec_is_empty() implies voxel_projection(
            q1,
            pre[j].grid_coords,
            pt,
            solid1,
        ) == voxel_projection(q2, pre[j].grid_coords, pt, solid2) by {
            assert(pre[j] == list[j]);
        }
        lemma_best_in_list_same_projections(q1, q2, pre, pt, solid1, solid2);
        assert(list.last() == list[list.len() - 1]);
    }
}

/// The empty voxels of a list never change the best candidate of a scan.
proof fn lemma_best_in_list_skips_empty<Q: VoxelQuery + ?Sized>(
    q: &Q,
    list: Seq<VoxelData>,
    pt: Vector,
    solid: bool,
)
    ensures
        best_in_list(q, list, pt, solid) == best_in_list(
            q,
            list.filter(non_empty_filter()),
            pt,
            solid,
        ),
    decreases list.len(),
{
    reveal(Seq::filter);
    if list.len() > 0 {
        let pre = list.drop_last();
        lemma_best_in_list_skips_empty(q, pre, pt, solid);
        let f = list.filter(non_empty_filter());
        if !list.last().state.spec_is_empty() {
            assert(f == pre.filter(non_empty_filter()).push(list.last()));
            assert(f.drop_last() =~= pre.filter(non_empty_filter()));
            assert(f.last() == list.last());
        } else {
            assert(f == pre.filter(non_empty_filter()));
        }
    }
}

/// For a point lying in no filled voxel, the solid and the hollow search
/// find the same answer from every search radius.
proof fn lemma_search_solid_flag<Q: VoxelQuery + ?Sized>(q: &Q, pt: Vector, r: int)
    requires
        listings_valid(q),
        forall|k: IVector|
            #![trigger q.spec_voxel_state(k)]
            filled(q.spec_voxel_state(k)) ==> !contains_point(voxel_box(q.spec_voxel_size(), k), pt),
    ensures
        search_from(q, pt, true, r) == search_from(q, pt, false, r),
    decreases max_search_radius() - r,
{
    if 0 < r <= max_search_radius() {
        let s = q.spec_voxel_size();
        let range = aabb_key_range(s, search_box(pt, r));
        let list = q.spec_voxels_in_range(range.0, range.1);
        assert(lists_voxels_in_range(q, range.0, range.1, list));
        assert forall|j: int|
            0 <= j < list.len() && !(#[trigger] list[j]).state.spec_is_empty() implies voxel_projection(
            q,
            list[j].grid_coords,
            pt,
            true,
        ) == voxel_projection(q, list[j].grid_coords, pt, false) by {
            assert(state_agrees(list[j].state, q.spec_voxel_state(list[j].grid_coords)));
            assert(filled(q.spec_voxel_state(list[j].grid_coords)));
        }
        lemma_best_in_list_same_projections(q, q, list, pt, true, false);
        match best_in_list(q, list, pt, true) {
            Some(b) => {
                let d = dist2(b.0.point, pt);
                if r < ceil_sqrt(d) <= max_search_radius() {
                    lemma_search_solid_flag(q, pt, ceil_sqrt(d));
                }
            },
            None => {
                if 2 * r <= max_search_radius() {
                    lemma_search_solid_flag(q, pt, 2 * r);
                }
            },
        }
    }
}

/// For a point lying in no filled voxel, the solid flag does not matter: the
/// solid and the hollow projection give the same answer.
pub proof fn lemma_solid_flag_outside_shape<Q: VoxelQuery + ?Sized>(q: &Q, pt: Vector)
    requires
        listings_valid(q),
        forall|k: IVector|
            #![trigger q.spec_voxel_state(k)]
            filled(q.spec_voxel_state(k)) ==> !contains_point(voxel_box(q.spec_voxel_size(), k), pt),
    ensures
        voxels_projection(q, pt, true) == voxels_projection(q, pt, false),
{
    let key = point_key(q.spec_voxel_size(), pt);
    assert(q.spec_voxel_state(key) == q.spec_voxel_state(key));
    lemma_search_solid_flag(q, pt, initial_radius(q, pt));
}

/// Two storages of the same voxel size and domain, whose lists hold the same
/// non-empty voxels in the same order for every range, lead the search to
/// the same answer from every search radius.
proof fn lemma_search_same_listings<Q1: VoxelQuery + ?Sized, Q2: VoxelQuery + ?Sized>(
    q1: &Q1,
    q2: &Q2,
    pt: Vector,
    solid: bool,
    r: int,
)
    requires
        q1.spec_voxel_size() == q2.spec_voxel_size(),
        q1.spec_domain() == q2.spec_domain(),
        forall|mins: IVector, maxs: IVector|
            #[trigger] q1.spec_voxels_in_range(mins, maxs).filter(non_empty_filter())
                == q2.spec_voxels_in_range(mins, maxs).filter(non_empty_filter()),
    ensures
        search_from(q1, pt, solid, r) == search_from(q2, pt, solid, r),
    decreases max_search_radius() - r,
{
    if 0 < r <= max_search_radius() {
        let s = q1.spec_voxel_size();
        let range = aabb_key_range(s, search_box(pt, r));
        let l1 = q1.spec_voxels_in_range(range.0, range.1);
        let l2 = q2.spec_voxels_in_range(range.0, range.1);
        let f = l1.filter(non_empty_filter());
        assert(f == l2.filter(non_empty_filter()));
        lemma_best_in_list_skips_empty(q1, l1, pt, solid);
        lemma_best_in_list_skips_empty(q2, l2, pt, solid);
        lemma_best_in_list_same_projections(q1, q2, f, pt, solid, solid);
        match best_in_list(q1, l1, pt, solid) {
            Some(b) => {
                let d = dist2(b.0.point, pt);
                if r < ceil_sqrt(d) <= max_search_radius() {
                    lemma_search_same_listings(q1, q2, pt, solid, ceil_sqrt(d));
                }
            },
            None => {
                if 2 * r <= max_search_radius() {
                    lemma_search_same_listings(q1, q2, pt, solid, 2 * r);
                }
            },
        }
    }
}

/// The projection only depends on the storage's voxel size, domain, states
/// and identifiers, and on the non-empty voxels it yields, in their order:
/// two storages that agree on these give the same answer, whatever empty
/// voxels either of them yields besides.
pub proof fn lemma_empty_voxels_never_matter<Q1: VoxelQuery + ?Sized, Q2: VoxelQuery + ?Sized>(
    q1: &Q1,
    q2: &Q2,
    pt: Vector,
    solid: bool,
)
    requires
        q1.spec_voxel_size() == q2.spec_voxel_size(),
        q1.spec_domain() == q2.spec_domain(),
        forall|k: IVector| #[trigger] q1.spec_voxel_state(k) == q2.spec_voxel_state(k),
        forall|k: IVector| #[trigger] q1.spec_linear_id(k) == q2.spec_linear_id(k),
        forall|mins: IVector, maxs: IVector|
            #[trigger] q1.spec_voxels_in_range(mins, maxs).filter(non_empty_filter())
                == q2.spec_voxels_in_range(mins, maxs).filter(non_empty_filter()),
    ensures
        voxels_projection(q1, pt, solid) == voxels_projection(q2, pt, solid),
{
    let key = point_key(q1.spec_voxel_size(), pt);
    assert(q1.spec_voxel_state(key) == q2.spec_voxel_state(key));
    assert(q1.spec_linear_id(key) == q2.spec_linear_id(key));
    assert(initial_radius(q1, pt) == initial_radius(q2, pt));
    lemma_search_same_listings(q1, q2, pt, solid, initial_radius(q1, pt));
}

/// Where one filled voxel is strictly closer than every other, the answer is
/// the projection on it, with its identifier.
pub proof fn lemma_unique_closest_voxel<Q: VoxelQuery + ?Sized>(
    q: &Q,
    pt: Vector,
    solid: bool,
    r: Option<(PointProjection, u32)>,
    k0: IVector,
)
    requires
        is_voxels_projection(q, pt, solid, r),
        filled(q.spec_voxel_state(k0)),
        forall|k: IVector|
            #![trigger q.spec_voxel_state(k)]
            filled(q.spec_voxel_state(k)) && k != k0 ==> dist2(
                voxel_projection(q, k0, pt, solid).point,
                pt,
            ) < dist2(voxel_projection(q, k, pt, solid).point, pt),
    ensures
        r == Some((voxel_projection(q, k0, pt, solid), id_or_zero(q.spec_linear_id(k0)))),
{
    assert(r is Some);
    let k = choose|k: IVector|
        #![trigger q.spec_voxel_state(k)]
        is_closest_voxel(q, pt, solid, k) && r.unwrap().0 == voxel_projection(q, k, pt, solid)
            && r.unwrap().1 == id_or_zero(q.spec_linear_id(k));
    assert(q.spec_voxel_state(k0) == q.spec_voxel_state(k0));
    assert(k == k0);
}

/// What a scan of a list of voxels finds: the best candidate is a non-empty
/// voxel of the list, exists exactly when one of them is non-empty, and is
/// at least as close to `pt` as every non-empty voxel of the list.
pub proof fn lemma_best_in_list<Q: VoxelQuery + ?Sized>(
    q: &Q,
    list: Seq<VoxelData>,
    pt: Vector,
    solid: bool,
)
    ensures
        best_in_list(q, list, pt, solid) is None <==> forall|j: int|
            0 <= j < list.len() ==> (#[trigger] list[j]).state.spec_is_empty(),
        best_in_list(q, list, pt, solid) matches Some(b) ==> exists|j: int|
            0 <= j < list.len() && !(#[trigger] list[j]).state.spec_is_empty() && b.0
                == voxel_projection(q, list[j].grid_coords, pt, solid) && b.1 == list[j].linear_id,
        best_in_list(q, list, pt, solid) matches Some(b) ==> forall|j: int|
            0 <= j < list.len() && !(#[trigger] list[j]).state.spec_is_empty() ==> dist2(
                b.0.point,
                pt,
            ) <= dist2(voxel_projection(q, list[j].grid_coords, pt, solid).point, pt),
    decreases list.len(),
{
    if list.len() > 0 {
        let pre = list.drop_last();
        lemma_best_in_list(q, pre, pt, solid);
        let last = list.len() - 1;
        assert(list[last] == list.last());
        assert forall|j: int| 0 <= j < last implies #[trigger] list[j] == pre[j] by {}
        let prev = best_in_list(q, pre, pt, solid);
        if prev is Some {
            let pj = choose|j: int|
                0 <= j < pre.len() && !(#[trigger] pre[j]).state.spec_is_empty() && prev.unwrap().0
                    == voxel_projection(q, pre[j].grid_coords, pt, solid) && prev.unwrap().1
                    == pre[j].linear_id;
            assert(list[pj] == pre[pj]);
        }
        if best_in_list(q, list, pt, solid) is None {
            assert forall|j: int| 0 <= j < list.len() implies (#[trigger] list[j]).state.spec_is_empty() by {
                if j < last {
                    assert(pre[j] == list[j]);
                }
            }
        }
    }
}

/// In a list of non-empty voxels, the best candidate of a scan is the
/// projection on the first of the voxels closest to `pt`.
pub proof fn lemma_best_in_list_first_closest<Q: VoxelQuery + ?Sized>(
    q: &Q,
    list: Seq<VoxelData>,
    pt: Vector,
    solid: bool,
    j: int,
)
    requires
        forall|l: int| 0 <= l < list.len() ==> !(#[trigger] list[l]).state.spec_is_empty(),
        0 <= j < list.len(),
        forall|l: int|
            0 <= l < list.len() ==> dist2(voxel_projection(q, list[j].grid_coords, pt, solid).point, pt)
                <= dist2(voxel_projection(q, (#[trigger] list[l]).grid_coords, pt, solid).point, pt),
        forall|l: int|
            0 <= l < j ==> dist2(voxel_projection(q, list[j].grid_coords, pt, solid).point, pt)
                < dist2(voxel_projection(q, (#[trigger] list[l]).grid_coords, pt, solid).point, pt),
    ensures
        best_in_list(q, list, pt, solid) == Some(
            (voxel_projection(q, list[j].grid_coords, pt, solid), list[j].linear_id),
        ),
    decreases list.len(),
{
    let pre = list.drop_last();
    let last = list.len() - 1;
    assert(list.last() == list[last]);
    assert forall|l: int| 0 <= l < pre.len() implies #[trigger] pre[l] == list[l] by {}
    let dj = dist2(voxel_projection(q, list[j].grid_coords, pt, solid).point, pt);
    if j == last {
        lemma_best_in_list(q, pre, pt, solid);
        let prev = best_in_list(q, pre, pt, solid);
        if prev is Some {
            let i = choose|i: int|
                0 <= i < pre.len() && !(#[trigger] pre[i]).state.spec_is_empty() && prev.unwrap().0
                    == voxel_projection(q, pre[i].grid_coords, pt, solid) && prev.unwrap().1
                    == pre[i].linear_id;
            assert(pre[i] == list[i]);
        }
    } else {
        assert(pre[j] == list[j]);
        assert forall|l: int| 0 <= l < pre.len() implies !(#[trigger] pre[l]).state.spec_is_empty() by {
            assert(pre[l] == list[l]);
        }
        assert forall|l: int| 0 <= l < pre.len() implies dj <= dist2(
            voxel_projection(q, (#[trigger] pre[l]).grid_coords, pt, solid).point,
            pt,
        ) by {
            assert(pre[l] == list[l]);
        }
        assert forall|l: int| 0 <= l < j implies dj < dist2(
            voxel_projection(q, (#[trigger] pre[l]).grid_coords, pt, solid).point,
            pt,
        ) by {
            assert(pre[l] == list[l]);
        }
        lemma_best_in_list_first_closest(q, pre, pt, solid, j);
    }
}

/// Scans a list of voxels yielded by the storage for the best candidate of
/// the projection of `pt`, with its squared distance to `pt`.
fn scan_voxels<V: VoxelQuery + ?Sized>(
    voxels: &V,
    base_cuboid: &Cuboid,
    vox_list: &Vec<VoxelData>,
    pt: Vector,
    solid: bool,
) -> (r: (Option<(PointProjection, u32)>, i128))
    requires
        valid_voxel_size(voxels.spec_voxel_size()),
        base_cuboid.half_extents == half_size(voxels.spec_voxel_size()),
        vector_ok(pt),
        forall|j: int|
            0 <= j < vox_list@.len() ==> #[trigger] vox_list@[j].center == voxel_center_of(
                voxels.spec_voxel_size(),
                vox_list@[j].grid_coords,
            ),
    ensures
        r.0 == best_in_list(voxels, vox_list@, pt, solid),
        r.0 matches Some(b) ==> r.1 == dist2(b.0.point, pt),
{
    let mut best: Option<(PointProjection, u32)> = None;
    let mut best_dist: i128 = i128::MAX;
    let n = vox_list.len();
    let mut i: usize = 0;
    while i < n
        invariant
            n == vox_list@.len(),
            0 <= i <= n,
            valid_voxel_size(voxels.spec_voxel_size()),
            base_cuboid.half_extents == half_size(voxels.spec_voxel_size()),
            vector_ok(pt),
            forall|j: int|
                0 <= j < vox_list@.len() ==> #[trigger] vox_list@[j].center == voxel_center_of(
                    voxels.spec_voxel_size(),
                    vox_list@[j].grid_coords,
                ),
            best == best_in_list(voxels, vox_list@.take(i as int), pt, solid),
            best matches Some(b) ==> best_dist == dist2(b.0.point, pt),
            best is None ==> best_dist == i128::MAX,
        decreases n - i,
    {
        proof {
            let pre = vox_list@.take(i + 1);
            assert(pre.drop_last() =~= vox_list@.take(i as int));
            assert(pre.last() == vox_list@[i as int]);
        }
        let vox = vox_list[i];
        if !vox.state.is_empty() {
            let (candidate, candidate_dist) = project_on_voxel(voxels, base_cuboid, &vox, pt, solid);
            if candidate_dist < best_dist {
                best = Some((candidate, vox.linear_id));
                best_dist = candidate_dist;
            }
        }
        i = i + 1;
    }
    proof {
        assert(vox_list@.take(n as int) =~= vox_list@);
    }
    (best, best_dist)
}

/// Projects a point on a voxel shape represented by any storage implementing
/// `VoxelQuery`.
///
/// Returns the projection and the linear id of the voxel the projected point
/// lies on, or `None` if the shape contains no filled voxel. If `solid` is
/// `true` and the point lies inside a filled voxel, the point itself is
/// returned as the projection.
///
/// This searches voxels in growing regions centered on the point, without
/// relying on any acceleration structure. The non-solid projection of a point
/// lying inside of the shape is projected on the boundary of the closest
/// voxel, which isn't necessarily on the boundary of the union of all the
/// voxels. Among equally close voxels, the answer is the first one that the
/// storage yields in the search round that finds it: `voxels_projection`
/// states the answer exactly.
#[verifier::rlimit(60)]
pub fn project_local_point_on_voxels<V: VoxelQuery + ?Sized>(
    voxels: &V,
    pt: Vector,
    solid: bool,
) -> (r: Option<(PointProjection, u32)>)
    requires
        vector_ok(pt),
    ensures
        r == voxels_projection(voxels, pt, solid),
        is_voxels_projection(voxels, pt, solid, r),
        solid && filled(voxels.spec_voxel_state(point_key(voxels.spec_voxel_size(), pt)))
            && contains_point(
            voxel_box(voxels.spec_voxel_size(), point_key(voxels.spec_voxel_size(), pt)),
            pt,
        ) ==> r == Some(
            (
                PointProjection { is_inside: true, point: pt },
                id_or_zero(voxels.spec_linear_id(point_key(voxels.spec_voxel_size(), pt))),
            ),
        ),
        solid && point_has_key(voxels.spec_voxel_size(), pt) && filled(
            voxels.spec_voxel_state(point_key(voxels.spec_voxel_size(), pt)),
        ) ==> r == Some(
            (
                PointProjection { is_inside: true, point: pt },
                id_or_zero(voxels.spec_linear_id(point_key(voxels.spec_voxel_size(), pt))),
            ),
        ),
{
    let size = voxels.voxel_size();
    let ghost s = size;
    let base_cuboid = Cuboid::new(Vector { x: size.x / 2, y: size.y / 2, z: size.z / 2 });

    // Fast path: the point lies inside a filled voxel.
    let key_at_pt = voxels.voxel_at_point(pt);
    if solid {
        match voxels.voxel_state(key_at_pt) {
            Some(state) => {
                if !state.is_empty() && voxels.voxel_aabb(key_at_pt).contains_local_point(pt) {
                    let id = match voxels.linear_id(key_at_pt) {
                        Some(i) => i,
                        None => 0,
                    };
                    proof {
                        lemma_key_times_size(key_at_pt.x as int, s.x as int);
                        lemma_key_times_size(key_at_pt.y as int, s.y as int);
                        lemma_key_times_size(key_at_pt.z as int, s.z as int);
                        lemma_dist2_self(pt);
                        assert forall|k: IVector| #[trigger]
                            filled(voxels.spec_voxel_state(k)) implies dist2(
                            voxel_projection(voxels, key_at_pt, pt, solid).point,
                            pt,
                        ) <= dist2(voxel_projection(voxels, k, pt, solid).point, pt) by {
                            lemma_dist2_nonneg(voxel_projection(voxels, k, pt, solid).point, pt);
                        }
                        assert(is_closest_voxel(voxels, pt, solid, key_at_pt));
                    }
                    return Some((PointProjection::new(true, pt), id));
                }
            },
            None => {},
        }
    }
    proof {
        if point_has_key(s, pt) {
            lemma_voxel_at_point_contains_point(s, pt);
        }
    }
    let domain = voxels.domain();
    let dmin = domain[0];
    let dmax = domain[1];
    let domain_aabb = voxels.local_aabb();
    proof {
        lemma_key_times_size(dmin.x as int, s.x as int);
        lemma_key_times_size(dmin.y as int, s.y as int);
        lemma_key_times_size(dmin.z as int, s.z as int);
        lemma_key_times_size(dmax.x as int, s.x as int);
        lemma_key_times_size(dmax.y as int, s.y as int);
        lemma_key_times_size(dmax.z as int, s.z as int);
    }
    // The distance from `pt` to the domain's box is a lower bound of the
    // distance from `pt` to its projection on the shape. Use it to initialize
    // the search radius.
    let d2 = domain_aabb.distance_squared_to_local_point(pt);
    let root = sqrt_floor(d2);
    assert(root < 0x40_0000_0000_0000) by (nonlinear_arith)
        requires
            root * root <= d2 < 0x1000_0000_0000_0000_0000_0000_0000,
            root >= 0,
    ;
    let mut search_radius: i64 = root + size.max_element();
    assert(search_radius == initial_radius(voxels, pt));
    let ghost reach_d = reach(domain_aabb.mins, domain_aabb.maxs, pt);
    let ghost bound: int = if search_radius >= 2 * reach_d {
        search_radius as int
    } else {
        2 * reach_d
    };
    loop
        invariant
            size == voxels.spec_voxel_size(),
            valid_voxel_size(size),
            vector_ok(pt),
            base_cuboid.half_extents == half_size(size),
            dmin == voxels.spec_domain().0,
            dmax == voxels.spec_domain().1,
            domain_aabb == range_aabb(size, dmin, dmax),
            vector_ok(domain_aabb.mins),
            vector_ok(domain_aabb.maxs),
            reach_d == reach(domain_aabb.mins, domain_aabb.maxs, pt),
            0 < search_radius <= bound,
            2 * reach_d <= bound <= 0x80_0000_0000_0000,
            forall|k: IVector| #[trigger]
                filled(voxels.spec_voxel_state(k)) ==> key_in_range(k, dmin, dmax),
            !(solid && filled(voxels.spec_voxel_state(point_key(size, pt))) && contains_point(
                voxel_box(size, point_key(size, pt)),
                pt,
            )),
            point_has_key(size, pt) ==> contains_point(voxel_box(size, point_key(size, pt)), pt),
            storage_laws(voxels),
            search_from(voxels, pt, solid, search_radius as int) == voxels_projection(
                voxels,
                pt,
                solid,
            ),
        decreases bound - search_radius,
    {
        let search_aabb = Aabb::from_half_extents(pt, Vector::splat(search_radius));
        let vox_list = voxels.voxels_intersecting_local_aabb(&search_aabb);
        let ghost range = aabb_key_range(voxels.spec_voxel_size(), search_aabb);
        let n = vox_list.len();
        let (best, best_dist) = scan_voxels(voxels, &base_cuboid, &vox_list, pt, solid);
        proof {
            lemma_best_in_list(voxels, vox_list@, pt, solid);
            assert(search_aabb == search_box(pt, search_radius as int));
        }
        match best {
            Some(found) => {
                let r128 = search_radius as i128;
                assert(r128 * r128 <= 0x4000_0000_0000_0000_0000_0000_0000) by (nonlinear_arith)
                    requires
                        0 < r128 <= 0x80_0000_0000_0000,
                ;
                let ghost j = choose|j: int|
                    0 <= j < n && !(#[trigger] vox_list@[j]).state.spec_is_empty() && found.0
                        == voxel_projection(voxels, vox_list@[j].grid_coords, pt, solid) && found.1
                        == vox_list@[j].linear_id;
                let ghost kb = vox_list@[j].grid_coords;
                proof {
                    assert(search_aabb == search_box(pt, search_radius as int));
                    assert(state_agrees(vox_list@[j].state, voxels.spec_voxel_state(kb)));
                    assert(filled(voxels.spec_voxel_state(kb)));
                }
                if best_dist <= r128 * r128 {
                    // Any voxel closer to `pt` than `best_dist` would have
                    // intersected the search region, so this projection is
                    // optimal.
                    proof {
                        assert forall|k: IVector| #[trigger]
                            filled(voxels.spec_voxel_state(k)) implies dist2(
                            voxel_projection(voxels, kb, pt, solid).point,
                            pt,
                        ) <= dist2(voxel_projection(voxels, k, pt, solid).point, pt) by {
                            lemma_filled_voxel_searched(
                                voxels,
                                pt,
                                solid,
                                search_radius as int,
                                vox_list@,
                                k,
                            );
                        }
                        assert(is_closest_voxel(voxels, pt, solid, kb));
                    }
                    return Some(found);
                }
                // The projection found lies outside of the search region:
                // another voxel closer to its boundary could still be a
                // better candidate. Re-run with a search region that covers
                // every possibly-better voxel.
                proof {
                    lemma_projection_within_reach(voxels, pt, solid, kb);
                    assert((2 * reach_d) * (2 * reach_d) <= 0x1000_0000_0000_0000_0000_0000_0000)
                        by (nonlinear_arith)
                        requires
                            0 <= 2 * reach_d <= 0x40_0000_0000_0000,
                    ;
                }
                let new_radius = sqrt_ceil(best_dist);
                proof {
                    assert(new_radius > search_radius) by (nonlinear_arith)
                        requires
                            new_radius * new_radius >= best_dist,
                            best_dist > search_radius * search_radius,
                            search_radius > 0,
                            new_radius >= 0,
                    ;
                    assert(new_radius <= 2 * reach_d) by (nonlinear_arith)
                        requires
                            new_radius == 0 || (new_radius - 1) * (new_radius - 1) < best_dist,
                            best_dist <= (2 * reach_d) * (2 * reach_d),
                            reach_d >= 0,
                            new_radius >= 0,
                    ;
                }
                search_radius = new_radius;
            },
            None => {
                if search_aabb.contains(&domain_aabb) {
                    // The whole shape was searched and no voxel was found.
                    proof {
                        assert(search_aabb == search_box(pt, search_radius as int));
                        assert forall|k: IVector| !filled(#[trigger] voxels.spec_voxel_state(k)) by {
                            if filled(voxels.spec_voxel_state(k)) {
                                lemma_whole_domain_searched(
                                    voxels,
                                    pt,
                                    search_radius as int,
                                    vox_list@,
                                    k,
                                );
                            }
                        }
                    }
                    return None;
                }
                proof {
                    assert(search_aabb == search_box(pt, search_radius as int));
                    assert(search_radius < reach_d);
                }
                search_radius = search_radius * 2;
            },
        }
    }
}

} // verus!
