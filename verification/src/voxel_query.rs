//! The interface of a storage of axis-aligned, uniformly sized voxels, on
//! which the voxel queries are written.
//!
//! The voxel with grid coordinates `key` covers the range
//! `[key * voxel_size, (key + 1) * voxel_size]`, so its center is at
//! `(key + 1/2) * voxel_size`. Grid ranges are semi-open: `[mins, maxs)`.
use vstd::prelude::*;
use crate::math::{
    IVector, Vector, valid_voxel_size, size_ok, floor_div, ceil_div, sat_i32, in_i32, floor_div_i64,
    ceil_div_i64, ivect_to_vect, vect_to_ivect, lemma_floor_div_bounds, lemma_ceil_div_bounds,
    lemma_floor_div_unique, lemma_div_order, lemma_ceil_div_unique,
};
use crate::geometry::{Aabb, contains_aabb};
use vstd::arithmetic::div_mod::{lemma_div_is_ordered, lemma_fundamental_div_mod};
use crate::voxel_state::{VoxelState, VoxelData, VoxelSeq, X_POS, X_NEG, Y_POS, Y_NEG, Z_POS, Z_NEG};

verus! {

/// `key` lies in the semi-open grid range `[mins, maxs)`.
pub open spec fn key_in_range(key: IVector, mins: IVector, maxs: IVector) -> bool {
    &&& mins.x <= key.x < maxs.x
    &&& mins.y <= key.y < maxs.y
    &&& mins.z <= key.z < maxs.z
}

/// The state designates a filled voxel: `None` and the empty state both
/// designate an empty one.
pub open spec fn filled(state: Option<VoxelState>) -> bool {
    match state {
        Some(s) => !s.spec_is_empty(),
        None => false,
    }
}

/// The state yielded for a voxel agrees with the state of the storage.
pub open spec fn state_agrees(yielded: VoxelState, state: Option<VoxelState>) -> bool {
    match state {
        Some(s) => yielded == s,
        None => yielded.spec_is_empty(),
    }
}

/// `k` moved by one step along an axis (`0`, `1` or `2`), in the direction
/// of `dir` (`1` or `-1`).
pub open spec fn neighbor(k: IVector, axis: int, dir: int) -> IVector {
    if axis == 0 {
        IVector { x: (k.x + dir) as i32, ..k }
    } else if axis == 1 {
        IVector { y: (k.y + dir) as i32, ..k }
    } else {
        IVector { z: (k.z + dir) as i32, ..k }
    }
}

/// The neighborhood mask whose bits tell which of the six axis-aligned
/// neighbors are filled: along `+X`, `-X`, `+Y`, `-Y`, `+Z` and `-Z`.
pub open spec fn mask_bits(xp: bool, xn: bool, yp: bool, yn: bool, zp: bool, zn: bool) -> int {
    (if xp { X_POS as int } else { 0 }) + (if xn { X_NEG as int } else { 0 }) + (if yp {
        Y_POS as int
    } else {
        0
    }) + (if yn { Y_NEG as int } else { 0 }) + (if zp { Z_POS as int } else { 0 }) + (if zn {
        Z_NEG as int
    } else {
        0
    })
}

/// The identifier, or `0` where there is none.
pub open spec fn id_or_zero(id: Option<u32>) -> u32 {
    match id {
        Some(i) => i,
        None => 0,
    }
}

/// The center of the voxel `key` for voxels of size `s`.
pub open spec fn voxel_center_of(s: Vector, key: IVector) -> Vector {
    Vector {
        x: (key.x * s.x + s.x / 2) as i64,
        y: (key.y * s.y + s.y / 2) as i64,
        z: (key.z * s.z + s.z / 2) as i64,
    }
}

/// Half the size of a voxel.
pub open spec fn half_size(s: Vector) -> Vector {
    Vector { x: (s.x / 2) as i64, y: (s.y / 2) as i64, z: (s.z / 2) as i64 }
}

/// The box of the grid range `[mins, maxs)` for voxels of size `s`.
pub open spec fn range_aabb(s: Vector, mins: IVector, maxs: IVector) -> Aabb {
    Aabb {
        mins: Vector {
            x: (mins.x * s.x) as i64,
            y: (mins.y * s.y) as i64,
            z: (mins.z * s.z) as i64,
        },
        maxs: Vector {
            x: (maxs.x * s.x) as i64,
            y: (maxs.y * s.y) as i64,
            z: (maxs.z * s.z) as i64,
        },
    }
}

/// The box covered by the voxel `key` for voxels of size `s`.
pub open spec fn voxel_box(s: Vector, key: IVector) -> Aabb {
    Aabb {
        mins: Vector {
            x: (key.x * s.x) as i64,
            y: (key.y * s.y) as i64,
            z: (key.z * s.z) as i64,
        },
        maxs: Vector {
            x: ((key.x + 1) * s.x) as i64,
            y: ((key.y + 1) * s.y) as i64,
            z: ((key.z + 1) * s.z) as i64,
        },
    }
}

/// The grid coordinates of the voxel containing `p` (floor of `p / s`),
/// each clamped into the range of `i32`.
pub open spec fn point_key(s: Vector, p: Vector) -> IVector {
    IVector {
        x: sat_i32(floor_div(p.x as int, s.x as int)) as i32,
        y: sat_i32(floor_div(p.y as int, s.y as int)) as i32,
        z: sat_i32(floor_div(p.z as int, s.z as int)) as i32,
    }
}

/// The floor of `p / s` fits in grid coordinates, on each axis.
pub open spec fn point_has_key(s: Vector, p: Vector) -> bool {
    &&& in_i32(floor_div(p.x as int, s.x as int))
    &&& in_i32(floor_div(p.y as int, s.y as int))
    &&& in_i32(floor_div(p.z as int, s.z as int))
}

/// The grid range of the voxels intersecting the box `b`:
/// `[floor(b.mins / s), ceil(b.maxs / s))`, clamped into the range of `i32`.
pub open spec fn aabb_key_range(s: Vector, b: Aabb) -> (IVector, IVector) {
    (
        IVector {
            x: sat_i32(floor_div(b.mins.x as int, s.x as int)) as i32,
            y: sat_i32(floor_div(b.mins.y as int, s.y as int)) as i32,
            z: sat_i32(floor_div(b.mins.z as int, s.z as int)) as i32,
        },
        IVector {
            x: sat_i32(ceil_div(b.maxs.x as int, s.x as int)) as i32,
            y: sat_i32(ceil_div(b.maxs.y as int, s.y as int)) as i32,
            z: sat_i32(ceil_div(b.maxs.z as int, s.z as int)) as i32,
        },
    )
}

/// `voxels` is a valid answer of `q.voxels_in_range(mins, maxs)`: every
/// filled voxel of the range exactly once, possibly some empty voxels of the
/// range, no voxel outside of it, each with the state, center and identifier
/// the storage gives it.
pub open spec fn lists_voxels_in_range<Q: VoxelQuery + ?Sized>(
    q: &Q,
    mins: IVector,
    maxs: IVector,
    voxels: Seq<VoxelData>,
) -> bool {
    &&& forall|i: int|
        0 <= i < voxels.len() ==> key_in_range(#[trigger] voxels[i].grid_coords, mins, maxs)
    &&& forall|i: int|
        0 <= i < voxels.len() ==> state_agrees(
            voxels[i].state,
            q.spec_voxel_state(#[trigger] voxels[i].grid_coords),
        )
    &&& forall|i: int|
        0 <= i < voxels.len() ==> #[trigger] voxels[i].center == voxel_center_of(
            q.spec_voxel_size(),
            voxels[i].grid_coords,
        )
    &&& forall|i: int|
        0 <= i < voxels.len() && !(#[trigger] voxels[i].state).spec_is_empty() ==> q.spec_linear_id(
            voxels[i].grid_coords,
        ) == Some(voxels[i].linear_id)
    &&& forall|k: IVector|
        filled(#[trigger] q.spec_voxel_state(k)) && key_in_range(k, mins, maxs) ==> exists|i: int|
            0 <= i < voxels.len() && (#[trigger] voxels[i].grid_coords) == k
    &&& forall|i: int, j: int|
        0 <= i < voxels.len() && 0 <= j < voxels.len() && i != j && !voxels[i].state.spec_is_empty()
            ==> (#[trigger] voxels[i].grid_coords) != (#[trigger] voxels[j].grid_coords)
}

/// What every storage upholds: its voxel sizes are valid, and every filled
/// voxel lies within its domain.
pub open spec fn storage_laws<Q: VoxelQuery + ?Sized>(q: &Q) -> bool {
    &&& valid_voxel_size(q.spec_voxel_size())
    &&& forall|k: IVector| #[trigger]
        filled(q.spec_voxel_state(k)) ==> key_in_range(k, q.spec_domain().0, q.spec_domain().1)
}

/// The product of a grid coordinate and a voxel size stays in the region on
/// which the queries compute exactly.
pub proof fn lemma_key_times_size(k: int, s: int)
    requires
        in_i32(k),
        size_ok(s),
    ensures
        -0x8_0000_0000_0000 <= k * s <= 0x8_0000_0000_0000,
        -0x8_0000_0000_0000 <= (k + 1) * s <= 0x8_0000_0000_0000,
        (k + 1) * s == k * s + s,
        s / 2 + s / 2 == s,
{
    assert(-0x8000_0000 * s <= k * s <= 0x7fff_ffff * s) by (nonlinear_arith)
        requires
            -0x8000_0000 <= k <= 0x7fff_ffff,
            s >= 0,
    ;
    assert((k + 1) * s == k * s + s) by (nonlinear_arith);
}

/// Abstraction over the storage of a shape made of axis-aligned, uniformly
/// sized voxels.
///
/// The voxel queries are written against this trait, so that they run on any
/// storage implementing it. Every filled voxel knows which of its immediate
/// axis-aligned neighbors are filled, through its `VoxelState`.
pub trait VoxelQuery {
    /// The size of each voxel along each local coordinate axis.
    spec fn spec_voxel_size(&self) -> Vector;

    /// The semi-open range `[mins, maxs)` of grid coordinates covered by this
    /// shape.
    spec fn spec_domain(&self) -> (IVector, IVector);

    /// The state of the voxel at the given grid coordinates: `None` outside
    /// of the storage's tracked domain.
    spec fn spec_voxel_state(&self, key: IVector) -> Option<VoxelState>;

    /// The stable identifier of the voxel at the given grid coordinates.
    spec fn spec_linear_id(&self, key: IVector) -> Option<u32>;

    /// The voxels that `voxels_in_range` yields for the semi-open grid range
    /// `[mins, maxs)`, in the order in which it yields them.
    spec fn spec_voxels_in_range(&self, mins: IVector, maxs: IVector) -> VoxelSeq;

    /// The size of each voxel along each local coordinate axis. Every
    /// component is an even integer from `2` to `MAX_VOXEL_SIZE`: lengths are
    /// counted in units of half a voxel or finer, so that voxel centers lie
    /// on the integer lattice.
    fn voxel_size(&self) -> (r: Vector)
        ensures
            r == self.spec_voxel_size(),
            valid_voxel_size(r),
    ;

    /// The semi-open range `[mins, maxs)` of grid coordinates covered by this
    /// shape. Every filled voxel lies within it; it may cover empty voxels
    /// too.
    fn domain(&self) -> (r: [IVector; 2])
        ensures
            r[0] == self.spec_domain().0,
            r[1] == self.spec_domain().1,
            forall|k: IVector| #[trigger]
                filled(self.spec_voxel_state(k)) ==> key_in_range(k, r[0], r[1]),
    ;

    /// The state of the voxel at the given grid coordinates. Both `None` and
    /// an empty state designate an empty voxel. The state of a filled voxel
    /// tells which of its six axis-aligned neighbors are filled.
    fn voxel_state(&self, key: IVector) -> (r: Option<VoxelState>)
        ensures
            r == self.spec_voxel_state(key),
            r matches Some(st) ==> (!st.spec_is_empty() ==> st.spec_neighbors() == mask_bits(
                key.x < i32::MAX && filled(self.spec_voxel_state(neighbor(key, 0, 1))),
                key.x > i32::MIN && filled(self.spec_voxel_state(neighbor(key, 0, -1))),
                key.y < i32::MAX && filled(self.spec_voxel_state(neighbor(key, 1, 1))),
                key.y > i32::MIN && filled(self.spec_voxel_state(neighbor(key, 1, -1))),
                key.z < i32::MAX && filled(self.spec_voxel_state(neighbor(key, 2, 1))),
                key.z > i32::MIN && filled(self.spec_voxel_state(neighbor(key, 2, -1))),
            )),
    ;

    /// A stable identifier of the voxel at the given grid coordinates, equal
    /// to the `linear_id` that `voxels_in_range` yields for it. No other
    /// filled voxel has the identifier of a filled voxel.
    fn linear_id(&self, key: IVector) -> (r: Option<u32>)
        ensures
            r == self.spec_linear_id(key),
            r matches Some(id) ==> (filled(self.spec_voxel_state(key)) ==> forall|k2: IVector|
                #![trigger self.spec_linear_id(k2)]
                k2 != key && filled(self.spec_voxel_state(k2)) ==> self.spec_linear_id(k2) != Some(
                    id,
                )),
    ;

    /// The voxels within the given semi-open grid range: every filled voxel
    /// exactly once, possibly empty voxels, never a voxel outside the range.
    fn voxels_in_range(&self, mins: IVector, maxs: IVector) -> (r: Vec<VoxelData>)
        ensures
            r@ == self.spec_voxels_in_range(mins, maxs),
            forall|i: int|
                0 <= i < r@.len() ==> key_in_range(#[trigger] r@[i].grid_coords, mins, maxs),
            forall|i: int|
                0 <= i < r@.len() ==> state_agrees(
                    r@[i].state,
                    self.spec_voxel_state(#[trigger] r@[i].grid_coords),
                ),
            forall|i: int|
                0 <= i < r@.len() ==> #[trigger] r@[i].center == voxel_center_of(
                    self.spec_voxel_size(),
                    r@[i].grid_coords,
                ),
            forall|i: int|
                0 <= i < r@.len() && !(#[trigger] r@[i].state).spec_is_empty() ==> self.spec_linear_id(
                    r@[i].grid_coords,
                ) == Some(r@[i].linear_id),
            forall|k: IVector|
                filled(#[trigger] self.spec_voxel_state(k)) && key_in_range(k, mins, maxs) ==> exists|i: int|
                    0 <= i < r@.len() && (#[trigger] r@[i].grid_coords) == k,
            forall|i: int, j: int|
                0 <= i < r@.len() && 0 <= j < r@.len() && i != j && !r@[i].state.spec_is_empty()
                    ==> (#[trigger] r@[i].grid_coords) != (#[trigger] r@[j].grid_coords),
    ;

    /// Every voxel of this shape: the voxels in range over the whole domain,
    /// in the same order.
    fn voxels(&self) -> (r: Vec<VoxelData>)
        ensures
            r@ == self.spec_voxels_in_range(self.spec_domain().0, self.spec_domain().1),
            forall|i: int|
                0 <= i < r@.len() ==> key_in_range(#[trigger] r@[i].grid_coords, self.spec_domain().0, self.spec_domain().1),
            forall|i: int|
                0 <= i < r@.len() ==> state_agrees(
                    r@[i].state,
                    self.spec_voxel_state(#[trigger] r@[i].grid_coords),
                ),
            forall|i: int|
                0 <= i < r@.len() ==> #[trigger] r@[i].center == voxel_center_of(
                    self.spec_voxel_size(),
                    r@[i].grid_coords,
                ),
            forall|i: int|
                0 <= i < r@.len() && !(#[trigger] r@[i].state).spec_is_empty() ==> self.spec_linear_id(
                    r@[i].grid_coords,
                ) == Some(r@[i].linear_id),
            forall|k: IVector|
                filled(#[trigger] self.spec_voxel_state(k)) && key_in_range(k, self.spec_domain().0, self.spec_domain().1) ==> exists|i: int|
                    0 <= i < r@.len() && (#[trigger] r@[i].grid_coords) == k,
            forall|i: int, j: int|
                0 <= i < r@.len() && 0 <= j < r@.len() && i != j && !r@[i].state.spec_is_empty()
                    ==> (#[trigger] r@[i].grid_coords) != (#[trigger] r@[j].grid_coords),
    {
        let d = self.domain();
        let mins = d[0];
        let maxs = d[1];
        self.voxels_in_range(mins, maxs)
    }

    /// The voxels intersecting the given local-space box.
    fn voxels_intersecting_local_aabb(&self, aabb: &Aabb) -> (r: Vec<VoxelData>)
        ensures
            r@ == self.spec_voxels_in_range(
                aabb_key_range(self.spec_voxel_size(), *aabb).0,
                aabb_key_range(self.spec_voxel_size(), *aabb).1,
            ),
            forall|i: int|
                0 <= i < r@.len() ==> key_in_range(#[trigger] r@[i].grid_coords, aabb_key_range(self.spec_voxel_size(), *aabb).0, aabb_key_range(self.spec_voxel_size(), *aabb).1),
            forall|i: int|
                0 <= i < r@.len() ==> state_agrees(
                    r@[i].state,
                    self.spec_voxel_state(#[trigger] r@[i].grid_coords),
                ),
            forall|i: int|
                0 <= i < r@.len() ==> #[trigger] r@[i].center == voxel_center_of(
                    self.spec_voxel_size(),
                    r@[i].grid_coords,
                ),
            forall|i: int|
                0 <= i < r@.len() && !(#[trigger] r@[i].state).spec_is_empty() ==> self.spec_linear_id(
                    r@[i].grid_coords,
                ) == Some(r@[i].linear_id),
            forall|k: IVector|
                filled(#[trigger] self.spec_voxel_state(k)) && key_in_range(k, aabb_key_range(self.spec_voxel_size(), *aabb).0, aabb_key_range(self.spec_voxel_size(), *aabb).1) ==> exists|i: int|
                    0 <= i < r@.len() && (#[trigger] r@[i].grid_coords) == k,
            forall|i: int, j: int|
                0 <= i < r@.len() && 0 <= j < r@.len() && i != j && !r@[i].state.spec_is_empty()
                    ==> (#[trigger] r@[i].grid_coords) != (#[trigger] r@[j].grid_coords),
    {
        let range = self.voxel_range_intersecting_local_aabb(aabb);
        let mins = range[0];
        let maxs = range[1];
        self.voxels_in_range(mins, maxs)
    }

    /// The grid coordinates of the voxel containing the given local-space
    /// point, whether that voxel is filled, empty, or outside of the domain.
    fn voxel_at_point(&self, point: Vector) -> (r: IVector)
        ensures
            r == point_key(self.spec_voxel_size(), point),
    {
        let s = self.voxel_size();
        let q = Vector {
            x: floor_div_i64(point.x, s.x),
            y: floor_div_i64(point.y, s.y),
            z: floor_div_i64(point.z, s.z),
        };
        vect_to_ivect(q)
    }

    /// The local-space center of the voxel with the given grid coordinates.
    fn voxel_center(&self, key: IVector) -> (r: Vector)
        ensures
            r == voxel_center_of(self.spec_voxel_size(), key),
            2 * r.x == key.x * self.spec_voxel_size().x + (key.x + 1) * self.spec_voxel_size().x,
            2 * r.y == key.y * self.spec_voxel_size().y + (key.y + 1) * self.spec_voxel_size().y,
            2 * r.z == key.z * self.spec_voxel_size().z + (key.z + 1) * self.spec_voxel_size().z,
    {
        let size = self.voxel_size();
        proof {
            let s = size;
            lemma_key_times_size(key.x as int, s.x as int);
            lemma_key_times_size(key.y as int, s.y as int);
            lemma_key_times_size(key.z as int, s.z as int);
        }
        let s = size;
        let k = ivect_to_vect(key);
        Vector { x: k.x * s.x + s.x / 2, y: k.y * s.y + s.y / 2, z: k.z * s.z + s.z / 2 }
    }

    /// The local-space box of the voxel with the given grid coordinates.
    fn voxel_aabb(&self, key: IVector) -> (r: Aabb)
        ensures
            r == voxel_box(self.spec_voxel_size(), key),
            r.mins.x == key.x * self.spec_voxel_size().x,
            r.mins.y == key.y * self.spec_voxel_size().y,
            r.mins.z == key.z * self.spec_voxel_size().z,
            r.maxs.x == (key.x + 1) * self.spec_voxel_size().x,
            r.maxs.y == (key.y + 1) * self.spec_voxel_size().y,
            r.maxs.z == (key.z + 1) * self.spec_voxel_size().z,
    {
        let size = self.voxel_size();
        proof {
            let s = size;
            lemma_key_times_size(key.x as int, s.x as int);
            lemma_key_times_size(key.y as int, s.y as int);
            lemma_key_times_size(key.z as int, s.z as int);
        }
        let center = self.voxel_center(key);
        let s = size;
        let half = Vector { x: s.x / 2, y: s.y / 2, z: s.z / 2 };
        Aabb::from_half_extents(center, half)
    }

    /// The semi-open range of grid coordinates of the voxels intersecting
    /// the given box, empty or not, and not limited to the domain.
    fn voxel_range_intersecting_local_aabb(&self, aabb: &Aabb) -> (r: [IVector; 2])
        ensures
            r[0] == aabb_key_range(self.spec_voxel_size(), *aabb).0,
            r[1] == aabb_key_range(self.spec_voxel_size(), *aabb).1,
    {
        let s = self.voxel_size();
        let mins = Vector {
            x: floor_div_i64(aabb.mins.x, s.x),
            y: floor_div_i64(aabb.mins.y, s.y),
            z: floor_div_i64(aabb.mins.z, s.z),
        };
        let maxs = Vector {
            x: ceil_div_i64(aabb.maxs.x, s.x),
            y: ceil_div_i64(aabb.maxs.y, s.y),
            z: ceil_div_i64(aabb.maxs.z, s.z),
        };
        [vect_to_ivect(mins), vect_to_ivect(maxs)]
    }

    /// The local-space box of the given semi-open range of grid coordinates.
    fn voxel_range_aabb(&self, mins: IVector, maxs: IVector) -> (r: Aabb)
        ensures
            r == range_aabb(self.spec_voxel_size(), mins, maxs),
            r.mins.x == mins.x * self.spec_voxel_size().x,
            r.mins.y == mins.y * self.spec_voxel_size().y,
            r.mins.z == mins.z * self.spec_voxel_size().z,
            r.maxs.x == maxs.x * self.spec_voxel_size().x,
            r.maxs.y == maxs.y * self.spec_voxel_size().y,
            r.maxs.z == maxs.z * self.spec_voxel_size().z,
    {
        let size = self.voxel_size();
        proof {
            let s = size;
            lemma_key_times_size(mins.x as int, s.x as int);
            lemma_key_times_size(mins.y as int, s.y as int);
            lemma_key_times_size(mins.z as int, s.z as int);
            lemma_key_times_size(maxs.x as int, s.x as int);
            lemma_key_times_size(maxs.y as int, s.y as int);
            lemma_key_times_size(maxs.z as int, s.z as int);
        }
        let s = size;
        let lo = ivect_to_vect(mins);
        let hi = ivect_to_vect(maxs);
        Aabb {
            mins: Vector { x: lo.x * s.x, y: lo.y * s.y, z: lo.z * s.z },
            maxs: Vector { x: hi.x * s.x, y: hi.y * s.y, z: hi.z * s.z },
        }
    }

    /// The given box, grown so that its corners lie at grid intersections:
    /// the smallest such box containing it.
    fn align_aabb_to_grid(&self, aabb: &Aabb) -> (r: Aabb)
        requires
            i64::MIN + self.spec_voxel_size().x <= aabb.mins.x,
            i64::MIN + self.spec_voxel_size().y <= aabb.mins.y,
            i64::MIN + self.spec_voxel_size().z <= aabb.mins.z,
            aabb.maxs.x <= i64::MAX - self.spec_voxel_size().x,
            aabb.maxs.y <= i64::MAX - self.spec_voxel_size().y,
            aabb.maxs.z <= i64::MAX - self.spec_voxel_size().z,
        ensures
            r == aligned_aabb(self.spec_voxel_size(), *aabb),
            r.mins.x == floor_div(aabb.mins.x as int, self.spec_voxel_size().x as int)
                * self.spec_voxel_size().x,
            r.mins.y == floor_div(aabb.mins.y as int, self.spec_voxel_size().y as int)
                * self.spec_voxel_size().y,
            r.mins.z == floor_div(aabb.mins.z as int, self.spec_voxel_size().z as int)
                * self.spec_voxel_size().z,
            r.maxs.x == ceil_div(aabb.maxs.x as int, self.spec_voxel_size().x as int)
                * self.spec_voxel_size().x,
            r.maxs.y == ceil_div(aabb.maxs.y as int, self.spec_voxel_size().y as int)
                * self.spec_voxel_size().y,
            r.maxs.z == ceil_div(aabb.maxs.z as int, self.spec_voxel_size().z as int)
                * self.spec_voxel_size().z,
    {
        let size = self.voxel_size();
        proof {
            let s = size;
            lemma_floor_div_bounds(aabb.mins.x as int, s.x as int);
            lemma_floor_div_bounds(aabb.mins.y as int, s.y as int);
            lemma_floor_div_bounds(aabb.mins.z as int, s.z as int);
            lemma_ceil_div_bounds(aabb.maxs.x as int, s.x as int);
            lemma_ceil_div_bounds(aabb.maxs.y as int, s.y as int);
            lemma_ceil_div_bounds(aabb.maxs.z as int, s.z as int);
        }
        let s = size;
        let mins = Vector {
            x: floor_div_i64(aabb.mins.x, s.x) * s.x,
            y: floor_div_i64(aabb.mins.y, s.y) * s.y,
            z: floor_div_i64(aabb.mins.z, s.z) * s.z,
        };
        let maxs = Vector {
            x: ceil_div_i64(aabb.maxs.x, s.x) * s.x,
            y: ceil_div_i64(aabb.maxs.y, s.y) * s.y,
            z: ceil_div_i64(aabb.maxs.z, s.z) * s.z,
        };
        Aabb { mins, maxs }
    }

    /// The local-space box of this voxel shape: the box of its domain.
    fn local_aabb(&self) -> (r: Aabb)
        ensures
            r == range_aabb(self.spec_voxel_size(), self.spec_domain().0, self.spec_domain().1),
            r.mins.x == self.spec_domain().0.x * self.spec_voxel_size().x,
            r.mins.y == self.spec_domain().0.y * self.spec_voxel_size().y,
            r.mins.z == self.spec_domain().0.z * self.spec_voxel_size().z,
            r.maxs.x == self.spec_domain().1.x * self.spec_voxel_size().x,
            r.maxs.y == self.spec_domain().1.y * self.spec_voxel_size().y,
            r.maxs.z == self.spec_domain().1.z * self.spec_voxel_size().z,
    {
        let d = self.domain();
        let mins = d[0];
        let maxs = d[1];
        self.voxel_range_aabb(mins, maxs)
    }
}


/// The box of a grid range `[mins, maxs)` spans exactly from `mins * s` to
/// `maxs * s` on each axis; the box of a voxel spans from `key * s` to
/// `(key + 1) * s`, and its center lies halfway.
pub proof fn lemma_grid_boxes(s: Vector, mins: IVector, maxs: IVector, key: IVector)
    requires
        valid_voxel_size(s),
    ensures
        range_aabb(s, mins, maxs).mins.x == mins.x * s.x,
        range_aabb(s, mins, maxs).mins.y == mins.y * s.y,
        range_aabb(s, mins, maxs).mins.z == mins.z * s.z,
        range_aabb(s, mins, maxs).maxs.x == maxs.x * s.x,
        range_aabb(s, mins, maxs).maxs.y == maxs.y * s.y,
        range_aabb(s, mins, maxs).maxs.z == maxs.z * s.z,
        voxel_box(s, key).mins.x == key.x * s.x,
        voxel_box(s, key).mins.y == key.y * s.y,
        voxel_box(s, key).mins.z == key.z * s.z,
        voxel_box(s, key).maxs.x == (key.x + 1) * s.x,
        voxel_box(s, key).maxs.y == (key.y + 1) * s.y,
        voxel_box(s, key).maxs.z == (key.z + 1) * s.z,
        2 * voxel_center_of(s, key).x == voxel_box(s, key).mins.x + voxel_box(s, key).maxs.x,
        2 * voxel_center_of(s, key).y == voxel_box(s, key).mins.y + voxel_box(s, key).maxs.y,
        2 * voxel_center_of(s, key).z == voxel_box(s, key).mins.z + voxel_box(s, key).maxs.z,
{
    lemma_key_times_size(mins.x as int, s.x as int);
    lemma_key_times_size(mins.y as int, s.y as int);
    lemma_key_times_size(mins.z as int, s.z as int);
    lemma_key_times_size(maxs.x as int, s.x as int);
    lemma_key_times_size(maxs.y as int, s.y as int);
    lemma_key_times_size(maxs.z as int, s.z as int);
    lemma_key_times_size(key.x as int, s.x as int);
    lemma_key_times_size(key.y as int, s.y as int);
    lemma_key_times_size(key.z as int, s.z as int);
}

/// The voxel returned for a point contains it: `key * s <= p < (key + 1) * s`
/// on each axis, wherever the grid coordinates of the point fit in `i32`.
pub proof fn lemma_voxel_at_point_contains_point(s: Vector, p: Vector)
    requires
        valid_voxel_size(s),
        point_has_key(s, p),
    ensures
        ({
            let b = voxel_box(s, point_key(s, p));
            &&& b.mins.x <= p.x < b.maxs.x
            &&& b.mins.y <= p.y < b.maxs.y
            &&& b.mins.z <= p.z < b.maxs.z
        }),
{
    let k = point_key(s, p);
    lemma_floor_div_bounds(p.x as int, s.x as int);
    lemma_floor_div_bounds(p.y as int, s.y as int);
    lemma_floor_div_bounds(p.z as int, s.z as int);
    lemma_key_times_size(k.x as int, s.x as int);
    lemma_key_times_size(k.y as int, s.y as int);
    lemma_key_times_size(k.z as int, s.z as int);
}

/// Along one axis, the floor of `a / s` leaves `i32` below its minimum when
/// `a` lies below the grid line `i32::MIN * s`, and above its maximum when
/// `a` lies beyond the grid line `(i32::MAX + 1) * s`; the ceiling leaves it
/// above its maximum when `a` lies beyond `i32::MAX * s`.
proof fn lemma_axis_saturation(a: int, s: int)
    requires
        s > 0,
    ensures
        a < i32::MIN * s ==> floor_div(a, s) < i32::MIN,
        a >= (i32::MAX + 1) * s ==> floor_div(a, s) > i32::MAX,
        a > i32::MAX * s ==> ceil_div(a, s) > i32::MAX,
        a <= i32::MIN * s - s ==> ceil_div(a, s) < i32::MIN,
{
    lemma_floor_div_bounds(a, s);
    lemma_ceil_div_bounds(a, s);
    let f = floor_div(a, s);
    let c = ceil_div(a, s);
    assert(a < i32::MIN * s ==> f < i32::MIN) by (nonlinear_arith)
        requires
            s > 0,
            f * s <= a,
    ;
    assert(a >= (i32::MAX + 1) * s ==> f > i32::MAX) by (nonlinear_arith)
        requires
            s > 0,
            a < f * s + s,
    ;
    assert(a > i32::MAX * s ==> c > i32::MAX) by (nonlinear_arith)
        requires
            s > 0,
            a <= c * s,
    ;
    assert(a <= i32::MIN * s - s ==> c < i32::MIN) by (nonlinear_arith)
        requires
            s > 0,
            c * s - s < a,
    ;
}

/// Grid coordinates saturate: a point below the grid line `i32::MIN * s`
/// along an axis gets the coordinate `i32::MIN` there, and a point beyond
/// the grid line `(i32::MAX + 1) * s` gets `i32::MAX`. The same holds of the
/// lower end of the range of the voxels intersecting a box, and of its
/// upper end for a box reaching beyond `i32::MAX * s`.
pub proof fn lemma_grid_coordinates_saturate(s: Vector, p: Vector, b: Aabb)
    requires
        valid_voxel_size(s),
    ensures
        p.x < i32::MIN * s.x ==> point_key(s, p).x == i32::MIN,
        p.y < i32::MIN * s.y ==> point_key(s, p).y == i32::MIN,
        p.z < i32::MIN * s.z ==> point_key(s, p).z == i32::MIN,
        p.x >= (i32::MAX + 1) * s.x ==> point_key(s, p).x == i32::MAX,
        p.y >= (i32::MAX + 1) * s.y ==> point_key(s, p).y == i32::MAX,
        p.z >= (i32::MAX + 1) * s.z ==> point_key(s, p).z == i32::MAX,
        b.mins.x < i32::MIN * s.x ==> aabb_key_range(s, b).0.x == i32::MIN,
        b.mins.y < i32::MIN * s.y ==> aabb_key_range(s, b).0.y == i32::MIN,
        b.mins.z < i32::MIN * s.z ==> aabb_key_range(s, b).0.z == i32::MIN,
        b.maxs.x > i32::MAX * s.x ==> aabb_key_range(s, b).1.x == i32::MAX,
        b.maxs.y > i32::MAX * s.y ==> aabb_key_range(s, b).1.y == i32::MAX,
        b.maxs.z > i32::MAX * s.z ==> aabb_key_range(s, b).1.z == i32::MAX,
{
    lemma_axis_saturation(p.x as int, s.x as int);
    lemma_axis_saturation(p.y as int, s.y as int);
    lemma_axis_saturation(p.z as int, s.z as int);
    lemma_axis_saturation(b.mins.x as int, s.x as int);
    lemma_axis_saturation(b.mins.y as int, s.y as int);
    lemma_axis_saturation(b.mins.z as int, s.z as int);
    lemma_axis_saturation(b.maxs.x as int, s.x as int);
    lemma_axis_saturation(b.maxs.y as int, s.y as int);
    lemma_axis_saturation(b.maxs.z as int, s.z as int);
}

/// The voxel containing the center of the voxel `key` is `key`.
pub proof fn lemma_voxel_at_center(s: Vector, key: IVector)
    requires
        valid_voxel_size(s),
    ensures
        point_key(s, voxel_center_of(s, key)) == key,
{
    lemma_key_times_size(key.x as int, s.x as int);
    lemma_key_times_size(key.y as int, s.y as int);
    lemma_key_times_size(key.z as int, s.z as int);
    let c = voxel_center_of(s, key);
    lemma_floor_div_unique(c.x as int, s.x as int, key.x as int);
    lemma_floor_div_unique(c.y as int, s.y as int, key.y as int);
    lemma_floor_div_unique(c.z as int, s.z as int, key.z as int);
}

/// Along one axis, a grid coordinate below `i32::MAX` lies in the range
/// computed for `[lo, hi]` exactly when its voxel overlaps `(lo, hi)`.
proof fn lemma_axis_range_overlap(k: int, s: int, lo: int, hi: int)
    requires
        size_ok(s),
        in_i32(k),
        k < i32::MAX,
    ensures
        (sat_i32(floor_div(lo, s)) <= k < sat_i32(ceil_div(hi, s))) <==> (k * s < hi && (k + 1)
            * s > lo),
{
    lemma_div_order(hi, s, k);
    lemma_div_order(lo, s, k);
}

/// The range of the voxels intersecting a box holds exactly the voxels whose
/// box overlaps the inside of it (for grid coordinates below `i32::MAX`).
pub proof fn lemma_range_of_aabb_is_overlap(s: Vector, b: Aabb, key: IVector)
    requires
        valid_voxel_size(s),
        key.x < i32::MAX,
        key.y < i32::MAX,
        key.z < i32::MAX,
    ensures
        key_in_range(key, aabb_key_range(s, b).0, aabb_key_range(s, b).1) <==> ({
            &&& key.x * s.x < b.maxs.x && (key.x + 1) * s.x > b.mins.x
            &&& key.y * s.y < b.maxs.y && (key.y + 1) * s.y > b.mins.y
            &&& key.z * s.z < b.maxs.z && (key.z + 1) * s.z > b.mins.z
        }),
{
    lemma_axis_range_overlap(key.x as int, s.x as int, b.mins.x as int, b.maxs.x as int);
    lemma_axis_range_overlap(key.y as int, s.y as int, b.mins.y as int, b.maxs.y as int);
    lemma_axis_range_overlap(key.z as int, s.z as int, b.mins.z as int, b.maxs.z as int);
}

/// The box of the grid range of the voxels intersecting a box contains it,
/// where that range fits in `i32`.
pub proof fn lemma_range_of_aabb_covers(s: Vector, b: Aabb)
    requires
        valid_voxel_size(s),
        in_i32(floor_div(b.mins.x as int, s.x as int)),
        in_i32(floor_div(b.mins.y as int, s.y as int)),
        in_i32(floor_div(b.mins.z as int, s.z as int)),
        in_i32(ceil_div(b.maxs.x as int, s.x as int)),
        in_i32(ceil_div(b.maxs.y as int, s.y as int)),
        in_i32(ceil_div(b.maxs.z as int, s.z as int)),
    ensures
        contains_aabb(range_aabb(s, aabb_key_range(s, b).0, aabb_key_range(s, b).1), b),
{
    lemma_floor_div_bounds(b.mins.x as int, s.x as int);
    lemma_floor_div_bounds(b.mins.y as int, s.y as int);
    lemma_floor_div_bounds(b.mins.z as int, s.z as int);
    lemma_ceil_div_bounds(b.maxs.x as int, s.x as int);
    lemma_ceil_div_bounds(b.maxs.y as int, s.y as int);
    lemma_ceil_div_bounds(b.maxs.z as int, s.z as int);
    let (lo, hi) = aabb_key_range(s, b);
    lemma_key_times_size(lo.x as int, s.x as int);
    lemma_key_times_size(lo.y as int, s.y as int);
    lemma_key_times_size(lo.z as int, s.z as int);
    lemma_key_times_size(hi.x as int, s.x as int);
    lemma_key_times_size(hi.y as int, s.y as int);
    lemma_key_times_size(hi.z as int, s.z as int);
}

/// The box aligned on the grid contains the given box, and is the smallest
/// such box: each of its faces lies less than one voxel away from the face
/// of the given box.
pub proof fn lemma_aligned_aabb_contains(s: Vector, b: Aabb)
    requires
        valid_voxel_size(s),
    ensures
        ({
            &&& floor_div(b.mins.x as int, s.x as int) * s.x <= b.mins.x < floor_div(
                b.mins.x as int,
                s.x as int,
            ) * s.x + s.x
            &&& floor_div(b.mins.y as int, s.y as int) * s.y <= b.mins.y < floor_div(
                b.mins.y as int,
                s.y as int,
            ) * s.y + s.y
            &&& floor_div(b.mins.z as int, s.z as int) * s.z <= b.mins.z < floor_div(
                b.mins.z as int,
                s.z as int,
            ) * s.z + s.z
            &&& ceil_div(b.maxs.x as int, s.x as int) * s.x - s.x < b.maxs.x <= ceil_div(
                b.maxs.x as int,
                s.x as int,
            ) * s.x
            &&& ceil_div(b.maxs.y as int, s.y as int) * s.y - s.y < b.maxs.y <= ceil_div(
                b.maxs.y as int,
                s.y as int,
            ) * s.y
            &&& ceil_div(b.maxs.z as int, s.z as int) * s.z - s.z < b.maxs.z <= ceil_div(
                b.maxs.z as int,
                s.z as int,
            ) * s.z
        }),
{
    lemma_floor_div_bounds(b.mins.x as int, s.x as int);
    lemma_floor_div_bounds(b.mins.y as int, s.y as int);
    lemma_floor_div_bounds(b.mins.z as int, s.z as int);
    lemma_ceil_div_bounds(b.maxs.x as int, s.x as int);
    lemma_ceil_div_bounds(b.maxs.y as int, s.y as int);
    lemma_ceil_div_bounds(b.maxs.z as int, s.z as int);
}


/// `a` lies inside `b`, on every axis.
pub open spec fn aabb_inside(a: Aabb, b: Aabb) -> bool {
    &&& b.mins.x <= a.mins.x && a.maxs.x <= b.maxs.x
    &&& b.mins.y <= a.mins.y && a.maxs.y <= b.maxs.y
    &&& b.mins.z <= a.mins.z && a.maxs.z <= b.maxs.z
}

proof fn lemma_axis_range_monotonic(s: int, lo1: int, hi1: int, lo2: int, hi2: int)
    requires
        s > 0,
        lo2 <= lo1,
        hi1 <= hi2,
    ensures
        sat_i32(floor_div(lo2, s)) <= sat_i32(floor_div(lo1, s)),
        sat_i32(ceil_div(hi1, s)) <= sat_i32(ceil_div(hi2, s)),
{
    lemma_div_is_ordered(lo2, lo1, s);
    lemma_div_is_ordered(-hi2, -hi1, s);
}

/// A larger box never yields a smaller range of voxels.
pub proof fn lemma_range_of_aabb_monotonic(s: Vector, a1: Aabb, a2: Aabb)
    requires
        valid_voxel_size(s),
        aabb_inside(a1, a2),
    ensures
        aabb_key_range(s, a2).0.x <= aabb_key_range(s, a1).0.x,
        aabb_key_range(s, a2).0.y <= aabb_key_range(s, a1).0.y,
        aabb_key_range(s, a2).0.z <= aabb_key_range(s, a1).0.z,
        aabb_key_range(s, a1).1.x <= aabb_key_range(s, a2).1.x,
        aabb_key_range(s, a1).1.y <= aabb_key_range(s, a2).1.y,
        aabb_key_range(s, a1).1.z <= aabb_key_range(s, a2).1.z,
{
    lemma_axis_range_monotonic(
        s.x as int,
        a1.mins.x as int,
        a1.maxs.x as int,
        a2.mins.x as int,
        a2.maxs.x as int,
    );
    lemma_axis_range_monotonic(
        s.y as int,
        a1.mins.y as int,
        a1.maxs.y as int,
        a2.mins.y as int,
        a2.maxs.y as int,
    );
    lemma_axis_range_monotonic(
        s.z as int,
        a1.mins.z as int,
        a1.maxs.z as int,
        a2.mins.z as int,
        a2.maxs.z as int,
    );
}

/// A larger box never yields fewer filled voxels: every filled voxel
/// listed for the smaller box is listed for the larger one.
pub proof fn lemma_voxels_in_larger_aabb<Q: VoxelQuery + ?Sized>(
    q: &Q,
    a1: Aabb,
    a2: Aabb,
    l1: Seq<VoxelData>,
    l2: Seq<VoxelData>,
)
    requires
        valid_voxel_size(q.spec_voxel_size()),
        aabb_inside(a1, a2),
        lists_voxels_in_range(
            q,
            aabb_key_range(q.spec_voxel_size(), a1).0,
            aabb_key_range(q.spec_voxel_size(), a1).1,
            l1,
        ),
        lists_voxels_in_range(
            q,
            aabb_key_range(q.spec_voxel_size(), a2).0,
            aabb_key_range(q.spec_voxel_size(), a2).1,
            l2,
        ),
    ensures
        forall|i: int|
            0 <= i < l1.len() && !(#[trigger] l1[i]).state.spec_is_empty() ==> exists|j: int|
                0 <= j < l2.len() && l2[j].grid_coords == l1[i].grid_coords,
{
    lemma_range_of_aabb_monotonic(q.spec_voxel_size(), a1, a2);
    let r2 = aabb_key_range(q.spec_voxel_size(), a2);
    assert forall|i: int|
        0 <= i < l1.len() && !(#[trigger] l1[i]).state.spec_is_empty() implies exists|j: int|
        0 <= j < l2.len() && l2[j].grid_coords == l1[i].grid_coords by {
        let k = l1[i].grid_coords;
        let r1 = aabb_key_range(q.spec_voxel_size(), a1);
        assert(key_in_range(l1[i].grid_coords, r1.0, r1.1));
        assert(state_agrees(l1[i].state, q.spec_voxel_state(l1[i].grid_coords)));
        assert(filled(q.spec_voxel_state(k)));
        assert(key_in_range(k, r2.0, r2.1));
        let j = choose|j: int| 0 <= j < l2.len() && (#[trigger] l2[j].grid_coords) == k;
        assert(l2[j].grid_coords == l1[i].grid_coords);
    }
}

/// The box aligned on the grid for voxels of size `s`.
pub open spec fn aligned_aabb(s: Vector, b: Aabb) -> Aabb {
    Aabb {
        mins: Vector {
            x: (floor_div(b.mins.x as int, s.x as int) * s.x) as i64,
            y: (floor_div(b.mins.y as int, s.y as int) * s.y) as i64,
            z: (floor_div(b.mins.z as int, s.z as int) * s.z) as i64,
        },
        maxs: Vector {
            x: (ceil_div(b.maxs.x as int, s.x as int) * s.x) as i64,
            y: (ceil_div(b.maxs.y as int, s.y as int) * s.y) as i64,
            z: (ceil_div(b.maxs.z as int, s.z as int) * s.z) as i64,
        },
    }
}

/// The corners of `g` lie at grid intersections for voxels of size `s`.
pub open spec fn aabb_on_grid(s: Vector, g: Aabb) -> bool {
    &&& g.mins.x % s.x == 0 && g.maxs.x % s.x == 0
    &&& g.mins.y % s.y == 0 && g.maxs.y % s.y == 0
    &&& g.mins.z % s.z == 0 && g.maxs.z % s.z == 0
}

/// Along one axis, a grid-aligned interval containing `[lo, hi]` contains
/// its alignment.
proof fn lemma_axis_aligned_smallest(lo: int, hi: int, s: int, glo: int, ghi: int)
    requires
        s > 0,
        glo % s == 0,
        ghi % s == 0,
        glo <= lo,
        hi <= ghi,
    ensures
        glo <= floor_div(lo, s) * s,
        ceil_div(hi, s) * s <= ghi,
{
    lemma_floor_div_bounds(lo, s);
    lemma_ceil_div_bounds(hi, s);
    lemma_floor_div_bounds(glo, s);
    lemma_floor_div_bounds(ghi, s);
    let m = glo / s;
    let n = ghi / s;
    lemma_fundamental_div_mod(glo, s);
    lemma_fundamental_div_mod(ghi, s);
    assert(glo == m * s && ghi == n * s) by (nonlinear_arith)
        requires
            glo == s * m + glo % s,
            ghi == s * n + ghi % s,
            glo % s == 0,
            ghi % s == 0,
    ;
    let f = floor_div(lo, s);
    let c = ceil_div(hi, s);
    assert(m * s <= f * s) by (nonlinear_arith)
        requires
            s > 0,
            m * s <= lo,
            lo < f * s + s,
    ;
    assert(c * s <= n * s) by (nonlinear_arith)
        requires
            s > 0,
            hi <= n * s,
            c * s - s < hi,
    ;
}

/// The alignment of a box on the grid is the smallest grid-aligned box
/// containing it: every box whose corners lie at grid intersections and
/// that contains `b` contains its alignment (where that alignment fits in
/// `i64`).
pub proof fn lemma_aligned_aabb_smallest(s: Vector, b: Aabb, g: Aabb)
    requires
        valid_voxel_size(s),
        i64::MIN + s.x <= b.mins.x,
        i64::MIN + s.y <= b.mins.y,
        i64::MIN + s.z <= b.mins.z,
        b.maxs.x <= i64::MAX - s.x,
        b.maxs.y <= i64::MAX - s.y,
        b.maxs.z <= i64::MAX - s.z,
        aabb_on_grid(s, g),
        contains_aabb(g, b),
    ensures
        contains_aabb(g, aligned_aabb(s, b)),
{
    lemma_floor_div_bounds(b.mins.x as int, s.x as int);
    lemma_floor_div_bounds(b.mins.y as int, s.y as int);
    lemma_floor_div_bounds(b.mins.z as int, s.z as int);
    lemma_ceil_div_bounds(b.maxs.x as int, s.x as int);
    lemma_ceil_div_bounds(b.maxs.y as int, s.y as int);
    lemma_ceil_div_bounds(b.maxs.z as int, s.z as int);
    lemma_axis_aligned_smallest(
        b.mins.x as int,
        b.maxs.x as int,
        s.x as int,
        g.mins.x as int,
        g.maxs.x as int,
    );
    lemma_axis_aligned_smallest(
        b.mins.y as int,
        b.maxs.y as int,
        s.y as int,
        g.mins.y as int,
        g.maxs.y as int,
    );
    lemma_axis_aligned_smallest(
        b.mins.z as int,
        b.maxs.z as int,
        s.z as int,
        g.mins.z as int,
        g.maxs.z as int,
    );
}

proof fn lemma_axis_align_idempotent(m: int, hi: int, s: int)
    requires
        s > 0,
    ensures
        floor_div(floor_div(m, s) * s, s) == floor_div(m, s),
        ceil_div(ceil_div(hi, s) * s, s) == ceil_div(hi, s),
{
    let f = floor_div(m, s);
    lemma_floor_div_unique(f * s, s, f);
    let c = ceil_div(hi, s);
    lemma_ceil_div_unique(c * s, s, c);
}

/// Aligning an aligned box on the grid gives it back, where the box and its
/// alignment fit in `i64`.
pub proof fn lemma_aligned_aabb_idempotent(s: Vector, b: Aabb)
    requires
        valid_voxel_size(s),
        i64::MIN + s.x <= b.mins.x,
        i64::MIN + s.y <= b.mins.y,
        i64::MIN + s.z <= b.mins.z,
        b.maxs.x <= i64::MAX - s.x,
        b.maxs.y <= i64::MAX - s.y,
        b.maxs.z <= i64::MAX - s.z,
    ensures
        aligned_aabb(s, aligned_aabb(s, b)) == aligned_aabb(s, b),
{
    lemma_floor_div_bounds(b.mins.x as int, s.x as int);
    lemma_floor_div_bounds(b.mins.y as int, s.y as int);
    lemma_floor_div_bounds(b.mins.z as int, s.z as int);
    lemma_ceil_div_bounds(b.maxs.x as int, s.x as int);
    lemma_ceil_div_bounds(b.maxs.y as int, s.y as int);
    lemma_ceil_div_bounds(b.maxs.z as int, s.z as int);
    lemma_axis_align_idempotent(b.mins.x as int, b.maxs.x as int, s.x as int);
    lemma_axis_align_idempotent(b.mins.y as int, b.maxs.y as int, s.y as int);
    lemma_axis_align_idempotent(b.mins.z as int, b.maxs.z as int, s.z as int);
}

} // verus!
