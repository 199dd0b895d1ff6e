# parry3d voxel queries, verified

A voxel shape is a set of axis-aligned, uniformly sized voxels on a grid. The
queries are written against the `VoxelQuery` trait, so that they run on any
storage of voxels; `Voxels` is the storage this crate provides.

All geometry is exact integer arithmetic: points are `Vector`s of `i64`, grid
coordinates are `IVector`s of `i32`, voxel sizes are positive even integers
(so that voxel centers lie on the lattice), and distances are compared
squared. Search radii derived from distances use integer square roots
rounded in the safe direction.

Modules, all under `src/` and verified by Verus:

- `math`: vectors, floor and ceiling division, saturation into `i32`,
  integer square roots.
- `geometry`: boxes, cuboids, point projections and their laws.
- `voxel_state`: the state of a voxel and the data a storage yields for it.
- `voxel_query`: the `VoxelQuery` trait, its model (`spec_voxel_size`,
  `spec_domain`, `spec_voxel_state`, `spec_linear_id`,
  `spec_voxels_in_range`) and the grid laws.
- `point_voxels`: `project_local_point_on_voxels`, the search for the
  closest voxel of any storage: its answer is given exactly by the spec
  function `voxels_projection`, which is proved to be a closest voxel.
- `voxels`: the `Voxels` storage, its chunks, and its point projections.

The tests under `tests/` run the queries on concrete shapes and compare a
custom storage with `Voxels`.
