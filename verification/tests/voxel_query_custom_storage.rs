//! Checks that the voxel queries, which are generic over the `VoxelQuery`
//! trait, produce the same results when running on a custom voxel storage as
//! when running on the built-in `Voxels` shape.

use parry3d::math::{IVector, Vector};
use parry3d::point_voxels::project_local_point_on_voxels;
use parry3d::voxel_query::VoxelQuery;
use parry3d::voxel_state::{VoxelData, VoxelSeq, VoxelState};
use parry3d::voxels::Voxels;
use std::collections::BTreeMap;

/// A custom sparse voxel storage backed by a `BTreeMap`.
///
/// It mirrors the content of a `Voxels` shape (including its linear ids) so
/// that query results are directly comparable, but shares none of its
/// implementation.
struct BTreeVoxels {
    voxel_size: Vector,
    domain: [IVector; 2],
    voxels: BTreeMap<[i32; 3], (VoxelState, u32)>,
}

impl BTreeVoxels {
    fn mirroring(voxels: &Voxels) -> Self {
        let mut map = BTreeMap::new();
        for vox in voxels.voxels() {
            if !vox.state.is_empty() {
                map.insert(
                    [vox.grid_coords.x, vox.grid_coords.y, vox.grid_coords.z],
                    (vox.state, vox.linear_id),
                );
            }
        }

        Self {
            voxel_size: voxels.voxel_size(),
            domain: VoxelQuery::domain(voxels),
            voxels: map,
        }
    }
}

impl VoxelQuery for BTreeVoxels {
    // The model of the storage, used by the contracts, is the storage itself.
    fn spec_voxel_size(&self) -> Vector {
        self.voxel_size
    }

    fn spec_domain(&self) -> (IVector, IVector) {
        (self.domain[0], self.domain[1])
    }

    fn spec_voxel_state(&self, key: IVector) -> Option<VoxelState> {
        self.voxel_state(key)
    }

    fn spec_linear_id(&self, key: IVector) -> Option<u32> {
        self.linear_id(key)
    }

    fn spec_voxels_in_range(&self, _mins: IVector, _maxs: IVector) -> VoxelSeq {
        // Sequences of voxels exist only in the proofs of the library: this
        // model is never evaluated at run time.
        unreachable!()
    }

    fn voxel_size(&self) -> Vector {
        self.voxel_size
    }

    fn domain(&self) -> [IVector; 2] {
        self.domain
    }

    fn voxel_state(&self, key: IVector) -> Option<VoxelState> {
        Some(
            self.voxels
                .get(&[key.x, key.y, key.z])
                .map(|(state, _)| *state)
                .unwrap_or(VoxelState::empty()),
        )
    }

    fn linear_id(&self, key: IVector) -> Option<u32> {
        self.voxels.get(&[key.x, key.y, key.z]).map(|(_, id)| *id)
    }

    fn voxels_in_range(&self, mins: IVector, maxs: IVector) -> Vec<VoxelData> {
        self.voxels
            .iter()
            .filter_map(move |(k, (state, id))| {
                let key = IVector::new(k[0], k[1], k[2]);
                let inside = key.x >= mins.x
                    && key.y >= mins.y
                    && key.z >= mins.z
                    && key.x < maxs.x
                    && key.y < maxs.y
                    && key.z < maxs.z;
                if inside {
                    Some(VoxelData {
                        linear_id: *id,
                        grid_coords: key,
                        center: self.voxel_center(key),
                        state: *state,
                    })
                } else {
                    None
                }
            })
            .collect()
    }
}

/// A storage with the same model as a `BTreeVoxels`, which yields every
/// voxel of the range within the domain, empty ones included, in the same
/// order as the `BTreeVoxels` yields its filled ones.
struct DenseVoxels {
    inner: BTreeVoxels,
}

impl VoxelQuery for DenseVoxels {
    fn spec_voxel_size(&self) -> Vector {
        self.inner.voxel_size
    }

    fn spec_domain(&self) -> (IVector, IVector) {
        (self.inner.domain[0], self.inner.domain[1])
    }

    fn spec_voxel_state(&self, key: IVector) -> Option<VoxelState> {
        VoxelQuery::voxel_state(&self.inner, key)
    }

    fn spec_linear_id(&self, key: IVector) -> Option<u32> {
        VoxelQuery::linear_id(&self.inner, key)
    }

    fn spec_voxels_in_range(&self, _mins: IVector, _maxs: IVector) -> VoxelSeq {
        // Sequences of voxels exist only in the proofs of the library: this
        // model is never evaluated at run time.
        unreachable!()
    }

    fn voxel_size(&self) -> Vector {
        self.inner.voxel_size
    }

    fn domain(&self) -> [IVector; 2] {
        self.inner.domain
    }

    fn voxel_state(&self, key: IVector) -> Option<VoxelState> {
        VoxelQuery::voxel_state(&self.inner, key)
    }

    fn linear_id(&self, key: IVector) -> Option<u32> {
        VoxelQuery::linear_id(&self.inner, key)
    }

    fn voxels_in_range(&self, mins: IVector, maxs: IVector) -> Vec<VoxelData> {
        let [dmin, dmax] = self.inner.domain;
        let mut out = vec![];
        for x in mins.x.max(dmin.x)..maxs.x.min(dmax.x) {
            for y in mins.y.max(dmin.y)..maxs.y.min(dmax.y) {
                for z in mins.z.max(dmin.z)..maxs.z.min(dmax.z) {
                    let key = IVector::new(x, y, z);
                    let state = VoxelQuery::voxel_state(&self.inner, key)
                        .unwrap_or(VoxelState::empty());
                    out.push(VoxelData {
                        linear_id: VoxelQuery::linear_id(&self.inner, key).unwrap_or(0),
                        grid_coords: key,
                        center: self.voxel_center(key),
                        state,
                    });
                }
            }
        }
        out
    }
}

/// The length, in integer coordinates, that the reference shape takes as
/// its unit.
const UNIT: i64 = 8000;

/// An 8×8 ground plate, a wall along one of its edges, and a disconnected
/// lone voxel, with non-uniform voxel sizes (1 × 0.5 × 0.75 units).
fn reference_shape() -> Voxels {
    let mut keys = vec![];

    for x in 0..8 {
        for z in 0..8 {
            keys.push(IVector::new(x, 0, z));
        }
    }

    for y in 1..4 {
        for z in 0..8 {
            keys.push(IVector::new(0, y, z));
        }
    }

    keys.push(IVector::new(10, 2, 3));

    Voxels::new(Vector::new(UNIT, UNIT / 2, UNIT * 3 / 4), &keys)
}

fn fixtures() -> (Voxels, BTreeVoxels) {
    let voxels = reference_shape();
    let custom = BTreeVoxels::mirroring(&voxels);
    (voxels, custom)
}

#[test]
fn custom_storage_matches_voxels_states() {
    let (voxels, custom) = fixtures();
    let [mins, maxs] = VoxelQuery::domain(&voxels);
    let margin = IVector::splat(2);

    let mut checked_non_empty = 0;
    for x in mins.x - margin.x..maxs.x + margin.x {
        for y in mins.y - margin.y..maxs.y + margin.y {
            for z in mins.z - margin.z..maxs.z + margin.z {
                let key = IVector::new(x, y, z);
                let state1 = voxels.voxel_state(key).unwrap_or(VoxelState::empty());
                let state2 = VoxelQuery::voxel_state(&custom, key).unwrap_or(VoxelState::empty());
                assert_eq!(state1, state2, "state mismatch at {:?}", key);

                if !state1.is_empty() {
                    assert_eq!(
                        VoxelQuery::linear_id(&voxels, key),
                        VoxelQuery::linear_id(&custom, key),
                        "linear_id mismatch at {:?}",
                        key
                    );
                    checked_non_empty += 1;
                }
            }
        }
    }

    // 8×8 plate + 3×8 wall + 1 lone voxel.
    assert_eq!(checked_non_empty, 64 + 24 + 1);
    assert_eq!(custom.voxels().len(), 64 + 24 + 1);
}

#[test]
fn custom_storage_matches_voxels_point_projection() {
    let (voxels, custom) = fixtures();

    let mut points = vec![];
    for i in -2..12i64 {
        for j in -2..6i64 {
            for k in -2..10i64 {
                // The jittered grid `i * 1.117 + 0.031` (and so on), in units.
                points.push(Vector::new(
                    i * 8936 + 248,
                    j * 4936 + 344,
                    k * 7336 + 168,
                ));
            }
        }
    }

    for solid in [true, false] {
        for pt in &points {
            let proj1 = voxels.project_local_point(*pt, solid);
            let proj2 = project_local_point_on_voxels(&custom, *pt, solid)
                .expect("the shape is not empty")
                .0;

            assert_eq!(
                proj1.is_inside, proj2.is_inside,
                "is_inside mismatch at {:?} (solid: {})",
                pt, solid
            );
            assert_eq!(proj1.point, proj2.point);
        }
    }
}

#[test]
fn empty_voxels_yielded_by_a_storage_never_change_the_projection() {
    let (voxels, custom) = fixtures();
    let dense = DenseVoxels { inner: BTreeVoxels::mirroring(&voxels) };
    let [mins, maxs] = VoxelQuery::domain(&dense);
    let listed = dense.voxels_in_range(mins, maxs);
    assert!(listed.iter().any(|d| d.state.is_empty()));
    assert_eq!(listed.iter().filter(|d| !d.state.is_empty()).count(), 64 + 24 + 1);

    for i in -3..13i64 {
        for j in -2..6i64 {
            for k in -3..10i64 {
                let pt = Vector::new(i * 8936 + 248, j * 4936 + 344, k * 7336 + 168);
                for solid in [true, false] {
                    assert_eq!(
                        project_local_point_on_voxels(&dense, pt, solid),
                        project_local_point_on_voxels(&custom, pt, solid),
                        "answers differ at {:?} (solid: {})",
                        pt,
                        solid
                    );
                }
            }
        }
    }
}

#[test]
fn every_voxel_is_the_voxels_in_range_of_the_domain() {
    let (voxels, custom) = fixtures();
    let [mins, maxs] = VoxelQuery::domain(&voxels);
    assert_eq!(VoxelQuery::voxels(&voxels), voxels.voxels_in_range(mins, maxs));
    assert_eq!(custom.voxels(), custom.voxels_in_range(mins, maxs));
}
