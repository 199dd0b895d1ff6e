//! The state of a voxel and the description of a voxel yielded by a voxel
//! storage.
use vstd::prelude::*;
use crate::math::{IVector, Vector};

verus! {

/// Bit of a neighborhood mask: the neighbor along `+X` is filled.
pub const X_POS: u8 = 1;
/// Bit of a neighborhood mask: the neighbor along `-X` is filled.
pub const X_NEG: u8 = 2;
/// Bit of a neighborhood mask: the neighbor along `+Y` is filled.
pub const Y_POS: u8 = 4;
/// Bit of a neighborhood mask: the neighbor along `-Y` is filled.
pub const Y_NEG: u8 = 8;
/// Bit of a neighborhood mask: the neighbor along `+Z` is filled.
pub const Z_POS: u8 = 16;
/// Bit of a neighborhood mask: the neighbor along `-Z` is filled.
pub const Z_NEG: u8 = 32;

/// The encoding of an empty voxel, distinct from every neighborhood mask.
const EMPTY_BITS: u8 = 64;

/// The state of a voxel: empty, or filled together with the set of its
/// axis-aligned neighbors that are filled too.
#[derive(Clone, Copy, Debug, PartialEq, Eq, Structural)]
pub struct VoxelState(u8);

impl VoxelState {
    /// Whether the state designates an empty voxel.
    pub closed spec fn spec_is_empty(self) -> bool {
        self.0 == EMPTY_BITS
    }

    /// The neighborhood mask of a filled voxel.
    pub closed spec fn spec_neighbors(self) -> u8 {
        self.0
    }

    /// The state of an empty voxel.
    pub closed spec fn empty_state() -> VoxelState {
        VoxelState(EMPTY_BITS)
    }

    pub proof fn lemma_empty_state()
        ensures
            Self::empty_state().spec_is_empty(),
    {
    }

    /// The state of an empty voxel.
    pub fn empty() -> (r: VoxelState)
        ensures
            r == Self::empty_state(),
            r.spec_is_empty(),
    {
        VoxelState(EMPTY_BITS)
    }

    /// The state of a filled voxel whose filled neighbors are given by the
    /// bits of `mask` (see `X_POS` and the other neighbor bits).
    pub fn with_filled_neighbors(mask: u8) -> (r: VoxelState)
        requires
            mask < 64,
        ensures
            !r.spec_is_empty(),
            r.spec_neighbors() == mask,
    {
        VoxelState(mask)
    }

    /// Whether the state designates an empty voxel.
    pub fn is_empty(&self) -> (r: bool)
        ensures
            r == self.spec_is_empty(),
    {
        self.0 == EMPTY_BITS
    }

    /// The neighborhood mask of this state (`64` for an empty voxel).
    pub fn neighbors(&self) -> (r: u8)
        ensures
            r == self.spec_neighbors(),
    {
        self.0
    }
}

/// A voxel yielded by a voxel storage.
#[derive(Clone, Copy, Debug, PartialEq, Eq, Structural)]
pub struct VoxelData {
    /// The identifier of the voxel in its storage.
    pub linear_id: u32,
    /// The grid coordinates of the voxel.
    pub grid_coords: IVector,
    /// The center of the voxel, in the shape's local space.
    pub center: Vector,
    /// The state of the voxel.
    pub state: VoxelState,
}

/// A sequence of voxels, as the contracts see the lists of voxels that a
/// storage yields.
pub type VoxelSeq = Seq<VoxelData>;

} // verus!
