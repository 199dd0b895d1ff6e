//! Scenarios of the voxel queries on concrete shapes.

use parry3d::geometry::{Aabb, Cuboid, FeatureId, PointProjection};
use parry3d::math::{
    ceil_div_i64, floor_div_i64, saturate_i32, sqrt_ceil, sqrt_floor, vect_to_ivect, IVector,
    Vector,
};
use parry3d::point_voxels::project_local_point_on_voxels;
use parry3d::voxel_query::VoxelQuery;
use parry3d::voxel_state::{VoxelState, X_NEG, X_POS, Y_NEG, Z_POS};
use parry3d::voxels::Voxels;

fn v(x: i64, y: i64, z: i64) -> Vector {
    Vector::new(x, y, z)
}

fn k(x: i32, y: i32, z: i32) -> IVector {
    IVector::new(x, y, z)
}

fn proj(is_inside: bool, p: Vector) -> PointProjection {
    PointProjection::new(is_inside, p)
}

/// Voxels of size 2: two neighbors along X and a lone voxel, with a repeated
/// key.
fn small_shape() -> Voxels {
    Voxels::new(
        v(2, 2, 2),
        &[k(0, 0, 0), k(1, 0, 0), k(5, 5, 5), k(0, 0, 0)],
    )
}

/// The same keys, with voxels of size 4.
fn shape4() -> Voxels {
    Voxels::new(v(4, 4, 4), &[k(0, 0, 0), k(1, 0, 0), k(5, 5, 5)])
}

#[test]
fn integer_division_rounds_towards_the_right_infinity() {
    assert_eq!(floor_div_i64(7, 2), 3);
    assert_eq!(floor_div_i64(-7, 2), -4);
    assert_eq!(floor_div_i64(-8, 2), -4);
    assert_eq!(floor_div_i64(0, 5), 0);
    assert_eq!(ceil_div_i64(7, 2), 4);
    assert_eq!(ceil_div_i64(-7, 2), -3);
    assert_eq!(ceil_div_i64(-8, 2), -4);
    assert_eq!(floor_div_i64(i64::MIN, 2), i64::MIN / 2);
}

#[test]
fn square_roots_round_down_and_up() {
    assert_eq!(sqrt_floor(0), 0);
    assert_eq!(sqrt_ceil(0), 0);
    assert_eq!(sqrt_floor(16), 4);
    assert_eq!(sqrt_ceil(16), 4);
    assert_eq!(sqrt_floor(17), 4);
    assert_eq!(sqrt_ceil(17), 5);
    assert_eq!(sqrt_floor(24), 4);
    assert_eq!(sqrt_floor(1 << 100), 1 << 50);
    assert_eq!(sqrt_ceil((1 << 100) + 1), (1 << 50) + 1);
}

#[test]
fn conversion_to_grid_coordinates_saturates() {
    assert_eq!(saturate_i32(1 << 40), i32::MAX);
    assert_eq!(saturate_i32(-(1 << 40)), i32::MIN);
    assert_eq!(saturate_i32(-5), -5);
    assert_eq!(vect_to_ivect(v(1 << 40, -3, -(1 << 40))), k(i32::MAX, -3, i32::MIN));
}

#[test]
fn vector_operations() {
    assert_eq!(v(1, 9, 3).max_element(), 9);
    assert_eq!(v(-1, -9, -3).max_element(), -1);
    assert_eq!(v(1, 2, 3).plus(&v(10, 20, 30)), v(11, 22, 33));
    assert_eq!(v(1, 2, 3).minus(&v(10, 20, 30)), v(-9, -18, -27));
    assert_eq!(Vector::splat(7), v(7, 7, 7));
    assert_eq!(IVector::splat(-2), k(-2, -2, -2));
}

#[test]
fn aabb_basics() {
    let b = Aabb::from_half_extents(v(1, 2, 3), v(1, 1, 2));
    assert_eq!(b, Aabb::new(v(0, 1, 1), v(2, 3, 5)));
    assert!(b.contains(&Aabb::new(v(0, 2, 2), v(1, 3, 5))));
    assert!(!b.contains(&Aabb::new(v(0, 2, 2), v(3, 3, 5))));
    assert_eq!(b.distance_squared_to_local_point(v(1, 2, 3)), 0);
    assert_eq!(b.distance_squared_to_local_point(v(-2, 2, 7)), 4 + 4);
    assert_eq!(b.distance_squared_to_local_point(v(4, 6, 0)), 4 + 9 + 1);
}

#[test]
fn aabb_projection_of_outside_point_clamps() {
    let b = Aabb::new(v(0, 0, 0), v(4, 4, 4));
    assert_eq!(b.project_local_point(v(-3, 2, 9), true), proj(false, v(0, 2, 4)));
    assert_eq!(b.project_local_point(v(-3, 2, 9), false), proj(false, v(0, 2, 4)));
}

#[test]
fn aabb_projection_of_inside_point() {
    let b = Aabb::new(v(0, 0, 0), v(4, 4, 4));
    // Solid: the point itself.
    assert_eq!(b.project_local_point(v(1, 2, 2), true), proj(true, v(1, 2, 2)));
    // Hollow: the nearest face, here the lower face along X.
    assert_eq!(b.project_local_point(v(1, 2, 2), false), proj(true, v(0, 2, 2)));
    // The upper face along Y.
    assert_eq!(b.project_local_point(v(2, 3, 2), false), proj(true, v(2, 4, 2)));
    // Equally near faces along an axis: the lower one.
    assert_eq!(b.project_local_point(v(2, 1, 2), false), proj(true, v(2, 0, 2)));
    // Equally near faces on several axes: the first axis.
    assert_eq!(b.project_local_point(v(2, 2, 2), false), proj(true, v(0, 2, 2)));
    // A point on the boundary is inside.
    assert_eq!(b.project_local_point(v(4, 2, 2), false), proj(true, v(4, 2, 2)));
}

#[test]
fn cuboid_projection() {
    let c = Cuboid::new(v(2, 1, 3));
    assert_eq!(c.project_local_point(v(5, 0, 0), true), proj(false, v(2, 0, 0)));
    assert_eq!(c.project_local_point(v(0, 0, 0), true), proj(true, v(0, 0, 0)));
    assert_eq!(c.project_local_point(v(0, 0, 0), false), proj(true, v(0, -1, 0)));
}

#[test]
fn voxel_states() {
    let e = VoxelState::empty();
    assert!(e.is_empty());
    let f = VoxelState::with_filled_neighbors(X_POS | Z_POS);
    assert!(!f.is_empty());
    assert_eq!(f.neighbors(), 17);
    assert!(!VoxelState::with_filled_neighbors(0).is_empty());
}

#[test]
fn voxels_new_dedups_and_computes_neighborhoods() {
    let s = small_shape();
    assert_eq!(VoxelQuery::domain(&s), [k(0, 0, 0), k(6, 6, 6)]);
    assert_eq!(s.voxel_size(), v(2, 2, 2));
    assert_eq!(s.voxel_state(k(0, 0, 0)), Some(VoxelState::with_filled_neighbors(X_POS)));
    assert_eq!(s.voxel_state(k(1, 0, 0)), Some(VoxelState::with_filled_neighbors(X_NEG)));
    assert_eq!(s.voxel_state(k(5, 5, 5)), Some(VoxelState::with_filled_neighbors(0)));
    // Empty inside the domain, nothing outside of it.
    assert_eq!(s.voxel_state(k(2, 0, 0)), Some(VoxelState::empty()));
    assert_eq!(s.voxel_state(k(6, 0, 0)), None);
    assert_eq!(s.voxel_state(k(-1, 0, 0)), None);
    // Identifiers follow the first occurrences of the keys.
    assert_eq!(s.linear_id(k(0, 0, 0)), Some(0));
    assert_eq!(s.linear_id(k(1, 0, 0)), Some(1));
    assert_eq!(s.linear_id(k(5, 5, 5)), Some(2));
    assert_eq!(s.linear_id(k(2, 0, 0)), None);
    assert_eq!(s.voxels().len(), 3);
}

#[test]
fn voxels_new_neighbors_on_every_axis() {
    let s = Voxels::new(v(2, 2, 2), &[k(0, 0, 0), k(0, -1, 0), k(0, 0, 1), k(3, 3, 3)]);
    assert_eq!(
        s.voxel_state(k(0, 0, 0)),
        Some(VoxelState::with_filled_neighbors(Y_NEG | Z_POS))
    );
    assert_eq!(VoxelQuery::domain(&s), [k(0, -1, 0), k(4, 4, 4)]);
}

#[test]
fn empty_shape() {
    let s = Voxels::new(v(2, 2, 2), &[]);
    assert_eq!(VoxelQuery::domain(&s), [k(0, 0, 0), k(0, 0, 0)]);
    assert_eq!(s.voxels().len(), 0);
    assert_eq!(s.num_chunks(), 0);
    assert_eq!(project_local_point_on_voxels(&s, v(1, 1, 1), true), None);
    assert_eq!(project_local_point_on_voxels(&s, v(1, 1, 1), false), None);
    let far = Vector::splat(i64::MAX);
    assert_eq!(s.project_local_point(v(1, 1, 1), true), proj(false, far));
    assert_eq!(
        s.project_local_point_and_get_feature(v(1, 1, 1)),
        (proj(false, far), FeatureId::Unknown)
    );
}

#[test]
fn grid_queries() {
    let s = small_shape();
    assert_eq!(s.voxel_center(k(1, 0, 0)), v(3, 1, 1));
    assert_eq!(s.voxel_center(k(-1, 2, 0)), v(-1, 5, 1));
    assert_eq!(s.voxel_aabb(k(5, 5, 5)), Aabb::new(v(10, 10, 10), v(12, 12, 12)));
    assert_eq!(s.voxel_at_point(v(-1, 0, 3)), k(-1, 0, 1));
    assert_eq!(s.voxel_at_point(v(-2, 1, 4)), k(-1, 0, 2));
    assert_eq!(
        s.voxel_range_intersecting_local_aabb(&Aabb::new(v(-1, 0, 1), v(3, 4, 4))),
        [k(-1, 0, 0), k(2, 2, 2)]
    );
    assert_eq!(
        s.voxel_range_aabb(k(1, 2, 3), k(4, 5, 6)),
        Aabb::new(v(2, 4, 6), v(8, 10, 12))
    );
    assert_eq!(
        s.align_aabb_to_grid(&Aabb::new(v(-1, 0, 1), v(3, 4, 5))),
        Aabb::new(v(-2, 0, 0), v(4, 4, 6))
    );
    assert_eq!(s.local_aabb(), Aabb::new(v(0, 0, 0), v(12, 12, 12)));
    let near = s.voxels_intersecting_local_aabb(&Aabb::new(v(0, 0, 0), v(3, 1, 1)));
    assert_eq!(near.len(), 2);
    assert!(near.iter().any(|d| d.grid_coords == k(0, 0, 0)));
    assert!(near.iter().any(|d| d.grid_coords == k(1, 0, 0)));
    let range = s.voxels_in_range(k(1, 0, 0), k(6, 6, 6));
    assert_eq!(range.len(), 2);
    for d in &range {
        assert_eq!(d.center, s.voxel_center(d.grid_coords));
        assert_eq!(Some(d.linear_id), s.linear_id(d.grid_coords));
        assert_eq!(Some(d.state), s.voxel_state(d.grid_coords));
    }
}

#[test]
fn voxel_at_center_round_trip() {
    let s = Voxels::new(v(6, 4, 10), &[k(0, 0, 0)]);
    for key in [k(0, 0, 0), k(-3, 7, 2), k(100, -100, 5), k(i32::MIN, i32::MAX, 0)] {
        assert_eq!(s.voxel_at_point(s.voxel_center(key)), key);
    }
}

#[test]
fn voxel_at_point_contains_point() {
    let s = Voxels::new(v(6, 4, 10), &[k(0, 0, 0)]);
    for p in [v(0, 0, 0), v(-1, -1, -1), v(5, 4, 9), v(-6, 17, -10), v(123, -456, 789)] {
        let b = s.voxel_aabb(s.voxel_at_point(p));
        assert!(b.mins.x <= p.x && p.x < b.maxs.x);
        assert!(b.mins.y <= p.y && p.y < b.maxs.y);
        assert!(b.mins.z <= p.z && p.z < b.maxs.z);
    }
}

#[test]
fn range_of_aabb_covers_it_and_aligned_aabb_contains_it() {
    let s = Voxels::new(v(6, 4, 10), &[k(0, 0, 0)]);
    let b = Aabb::new(v(-7, 3, 10), v(5, 9, 21));
    let [mins, maxs] = s.voxel_range_intersecting_local_aabb(&b);
    assert_eq!([mins, maxs], [k(-2, 0, 1), k(1, 3, 3)]);
    assert!(s.voxel_range_aabb(mins, maxs).contains(&b));
    let aligned = s.align_aabb_to_grid(&b);
    assert_eq!(aligned, Aabb::new(v(-12, 0, 10), v(6, 12, 30)));
    assert!(aligned.contains(&b));
}

#[test]
fn projection_fast_path_returns_the_point() {
    let s = shape4();
    assert_eq!(
        project_local_point_on_voxels(&s, v(1, 2, 2), true),
        Some((proj(true, v(1, 2, 2)), 0))
    );
    assert_eq!(
        project_local_point_on_voxels(&s, v(21, 22, 23), true),
        Some((proj(true, v(21, 22, 23)), 2))
    );
    assert_eq!(s.project_local_point(v(21, 22, 23), true), proj(true, v(21, 22, 23)));
}

#[test]
fn projection_of_inside_point_on_hollow_voxels() {
    let s = shape4();
    assert_eq!(
        project_local_point_on_voxels(&s, v(1, 2, 2), false),
        Some((proj(true, v(0, 2, 2)), 0))
    );
    assert_eq!(s.project_local_point(v(1, 2, 2), false), proj(true, v(0, 2, 2)));
    assert_eq!(
        s.project_local_point_and_get_feature(v(1, 2, 2)),
        (proj(true, v(0, 2, 2)), FeatureId::Face(0))
    );
}

#[test]
fn projection_of_outside_point() {
    let s = shape4();
    assert_eq!(
        project_local_point_on_voxels(&s, v(9, 1, 1), true),
        Some((proj(false, v(8, 1, 1)), 1))
    );
    assert_eq!(
        s.project_local_point_and_get_feature(v(9, 1, 1)),
        (proj(false, v(8, 1, 1)), FeatureId::Face(1))
    );
    // Far away from the shape.
    assert_eq!(
        project_local_point_on_voxels(&s, v(100, 100, 100), false),
        Some((proj(false, v(24, 24, 24)), 2))
    );
}

#[test]
fn projection_search_grows_the_region() {
    let s = shape4();
    // No voxel near the point: the search region is doubled until it finds
    // one.
    assert_eq!(
        project_local_point_on_voxels(&s, v(12, 12, 12), true),
        Some((proj(false, v(8, 4, 4)), 1))
    );
    assert_eq!(s.project_local_point(v(12, 12, 12), true), proj(false, v(8, 4, 4)));
}

#[test]
fn projection_search_reruns_when_the_candidate_is_outside_the_region() {
    let s = Voxels::new(v(4, 4, 4), &[k(0, 0, 0), k(3, 3, 3)]);
    // The first candidate lies beyond the search radius, in a corner of the
    // search region: the search is run again over a larger one.
    assert_eq!(
        project_local_point_on_voxels(&s, v(9, 9, 9), true),
        Some((proj(false, v(12, 12, 12)), 1))
    );
    assert_eq!(s.project_local_point(v(9, 9, 9), true), proj(false, v(12, 12, 12)));
}

#[test]
fn chunks_split_the_stored_voxels() {
    let mut keys = vec![];
    for x in 0..70 {
        keys.push(k(x, 0, 0));
    }
    let s = Voxels::new(v(2, 2, 2), &keys);
    assert_eq!(s.num_chunks(), 2);
    assert_eq!(s.chunk_ref(0).voxels().len(), 64);
    let last = s.chunk_ref(1).voxels();
    assert_eq!(last.len(), 6);
    assert_eq!(last[0].grid_coords, k(64, 0, 0));
    assert_eq!(last[0].linear_id, 64);
    assert_eq!(s.chunk_ref(2).voxels().len(), 0);
    assert_eq!(s.chunk_ref(2).project_local_point_and_get_vox_id(v(0, 0, 0), true), None);
    assert_eq!(
        s.chunk_ref(1).project_local_point_and_get_vox_id(v(0, 1, 1), true),
        Some((proj(false, v(128, 1, 1)), 64))
    );
    assert_eq!(
        s.chunk_ref(0).project_local_point_and_get_vox_id(v(0, 1, 1), true),
        Some((proj(true, v(0, 1, 1)), 0))
    );
    assert_eq!(s.project_local_point(v(200, 1, 1), true), proj(false, v(140, 1, 1)));
    assert_eq!(
        project_local_point_on_voxels(&s, v(200, 1, 1), true),
        Some((proj(false, v(140, 1, 1)), 69))
    );
}

#[test]
fn chunk_projection_keeps_the_first_closest_voxel() {
    let s = Voxels::new(v(2, 2, 2), &[k(0, 0, 0), k(2, 0, 0)]);
    // Both voxels are at distance 1 from the point: the first one is kept.
    assert_eq!(
        s.chunk_ref(0).project_local_point_and_get_vox_id(v(3, 1, 1), true),
        Some((proj(false, v(2, 1, 1)), 0))
    );
}

#[test]
fn shape_and_generic_projections_agree() {
    let s = Voxels::new(
        v(6, 4, 10),
        &[k(0, 0, 0), k(1, 0, 0), k(1, 1, 0), k(-3, 2, 4), k(7, -5, 1)],
    );
    for p in [v(0, 0, 0), v(-40, 13, 44), v(11, -3, 5), v(100, -100, 3), v(3, 2, 5)] {
        for solid in [true, false] {
            let a = s.project_local_point(p, solid);
            let (b, _) = project_local_point_on_voxels(&s, p, solid).unwrap();
            let d = |q: Vector| {
                let (dx, dy, dz) = (q.x - p.x, q.y - p.y, q.z - p.z);
                dx * dx + dy * dy + dz * dz
            };
            assert_eq!(d(a.point), d(b.point));
        }
    }
}

#[test]
fn projection_of_points_beyond_the_grid_coordinates() {
    let s = small_shape();
    let far = 1i64 << 40;
    assert_eq!(
        project_local_point_on_voxels(&s, v(far, 1, 1), true),
        Some((proj(false, v(12, 10, 10)), 2))
    );
    // The grid coordinates of the point saturate onto a filled voxel that
    // does not contain it: the search runs instead of the fast path.
    let edge = Voxels::new(v(2, 2, 2), &[k(i32::MIN, 0, 0)]);
    let low = -(1i64 << 33);
    assert_eq!(edge.voxel_at_point(v(low, 1, 1)), k(i32::MIN, 0, 0));
    assert_eq!(
        project_local_point_on_voxels(&edge, v(low, 1, 1), true),
        Some((proj(false, v(-(1i64 << 32), 1, 1)), 0))
    );
}

#[test]
fn solid_flag_does_not_matter_outside_the_shape() {
    let s = shape4();
    for p in [v(9, 1, 1), v(-5, 2, 30), v(100, 100, 100), v(12, 12, 12)] {
        assert_eq!(
            project_local_point_on_voxels(&s, p, true),
            project_local_point_on_voxels(&s, p, false)
        );
    }
}

#[test]
fn larger_box_larger_range_and_alignment_is_idempotent() {
    let s = Voxels::new(v(6, 4, 10), &[k(0, 0, 0), k(1, 1, 1), k(3, 0, -2)]);
    let small = Aabb::new(v(1, 1, 1), v(7, 5, 11));
    let large = Aabb::new(v(-5, 0, -20), v(20, 5, 11));
    let [a, b] = s.voxel_range_intersecting_local_aabb(&small);
    let [c, d] = s.voxel_range_intersecting_local_aabb(&large);
    assert!(c.x <= a.x && c.y <= a.y && c.z <= a.z);
    assert!(b.x <= d.x && b.y <= d.y && b.z <= d.z);
    let in_small = s.voxels_intersecting_local_aabb(&small);
    let in_large = s.voxels_intersecting_local_aabb(&large);
    assert_eq!(in_small.len(), 2);
    assert_eq!(in_large.len(), 3);
    for vox in &in_small {
        assert!(in_large.iter().any(|w| w.grid_coords == vox.grid_coords));
    }
    let aligned = s.align_aabb_to_grid(&Aabb::new(v(-7, 3, 10), v(5, 9, 21)));
    assert_eq!(s.align_aabb_to_grid(&aligned), aligned);
}

#[test]
fn linear_ids_are_unique_and_masks_follow_neighbors() {
    let s = Voxels::new(v(2, 2, 2), &[k(1, 1, 1), k(2, 1, 1), k(1, 2, 1), k(1, 1, 0)]);
    let keys = [k(1, 1, 1), k(2, 1, 1), k(1, 2, 1), k(1, 1, 0)];
    let mut ids = vec![];
    for key in keys {
        ids.push(s.linear_id(key).unwrap());
    }
    ids.sort();
    ids.dedup();
    assert_eq!(ids.len(), 4);
    assert_eq!(
        s.voxel_state(k(1, 1, 1)),
        Some(VoxelState::with_filled_neighbors(X_POS | 4 | 32))
    );
    for d in s.chunk_ref(0).voxels() {
        assert_eq!(s.voxel_state(d.grid_coords), Some(d.state));
        assert_eq!(s.linear_id(d.grid_coords), Some(d.linear_id));
    }
}

#[test]
fn aligned_box_is_the_smallest_grid_box_containing_the_box() {
    let s = Voxels::new(v(6, 4, 10), &[k(0, 0, 0)]);
    let b = Aabb::new(v(-7, 3, 10), v(5, 9, 21));
    let aligned = s.align_aabb_to_grid(&b);
    assert_eq!(aligned, Aabb::new(v(-12, 0, 10), v(6, 12, 30)));
    // Grid-aligned boxes containing `b` contain its alignment.
    for grown in [
        Aabb::new(v(-12, 0, 10), v(6, 12, 30)),
        Aabb::new(v(-18, -4, 0), v(12, 16, 40)),
        Aabb::new(v(-60, -40, -100), v(60, 40, 100)),
    ] {
        assert!(grown.contains(&b));
        assert!(grown.contains(&aligned));
    }
}

#[test]
fn solid_and_hollow_answers_differ_only_inside_the_shape() {
    let s = shape4();
    // Inside a filled voxel: the solid projection is the point itself.
    assert_eq!(
        project_local_point_on_voxels(&s, v(2, 2, 2), true),
        Some((proj(true, v(2, 2, 2)), s.linear_id(k(0, 0, 0)).unwrap()))
    );
    assert_ne!(
        project_local_point_on_voxels(&s, v(2, 2, 2), true),
        project_local_point_on_voxels(&s, v(2, 2, 2), false)
    );
    // Outside of every filled voxel: the same answer, identifier included.
    let outside = project_local_point_on_voxels(&s, v(-3, 2, 2), true);
    assert_eq!(outside, project_local_point_on_voxels(&s, v(-3, 2, 2), false));
    assert_eq!(outside, Some((proj(false, v(0, 2, 2)), s.linear_id(k(0, 0, 0)).unwrap())));
}

#[test]
fn ties_go_to_the_first_voxel_in_storage_order() {
    let s = shape4();
    // Equally close to the voxels (0, 0, 0) and (1, 0, 0), stored in that
    // order.
    let p = v(4, -3, 2);
    let first = s.linear_id(k(0, 0, 0)).unwrap();
    assert_eq!(
        s.project_local_point_and_get_feature(p),
        (proj(false, v(4, 0, 2)), FeatureId::Face(first))
    );
    assert_eq!(s.project_local_point(p, true), proj(false, v(4, 0, 2)));
    assert_eq!(
        project_local_point_on_voxels(&s, p, false),
        Some((proj(false, v(4, 0, 2)), first))
    );
}
