//! A concrete voxel shape: a sparse storage of filled voxels, grouped in
//! chunks, together with its point projection.
use vstd::prelude::*;
use crate::math::{IVector, Vector, valid_voxel_size, vector_ok, dist2, distance_squared};
use crate::geometry::{Cuboid, PointProjection, FeatureId, lemma_projection_in_aabb};
use crate::voxel_state::{VoxelState, VoxelData, X_POS, X_NEG, Y_POS, Y_NEG, Z_POS, Z_NEG};
use crate::voxel_query::{
    VoxelQuery, key_in_range, filled, state_agrees, voxel_center_of, half_size,
    lemma_key_times_size, voxel_box, id_or_zero, neighbor, mask_bits, lists_voxels_in_range,
};
use crate::point_voxels::{
    lemma_unique_closest_voxel, voxel_projection, project_on_voxel, is_closest_voxel,
    is_voxels_projection, listings_valid, best_in_list, lemma_best_in_list_first_closest,
};

verus! {

/// The number of voxels of a full chunk.
pub const CHUNK_LEN: usize = 64;

/// A voxel shape: the filled voxels, each stored once, within a domain.
pub struct Voxels {
    voxel_size: Vector,
    domain_mins: IVector,
    domain_maxs: IVector,
    data: Vec<VoxelData>,
}

/// One chunk of the voxels of a shape.
pub struct VoxelsChunkRef<'a> {
    pub parent: &'a Voxels,
    pub my_id: usize,
}

impl Voxels {
    /// Every stored voxel is a filled voxel of the domain with the center of
    /// its grid coordinates and its index as identifier, and no grid
    /// coordinates are stored twice.
    #[verifier::type_invariant]
    closed spec fn wf(self) -> bool {
        &&& valid_voxel_size(self.voxel_size)
        &&& self.data@.len() <= u32::MAX
        &&& forall|i: int|
            0 <= i < self.data@.len() ==> (#[trigger] self.data@[i]).linear_id == i
        &&& forall|i: int|
            0 <= i < self.data@.len() ==> key_in_range(
                (#[trigger] self.data@[i]).grid_coords,
                self.domain_mins,
                self.domain_maxs,
            )
        &&& forall|i: int| 0 <= i < self.data@.len() ==> !(#[trigger] self.data@[i]).state.spec_is_empty()
        &&& forall|i: int|
            0 <= i < self.data@.len() ==> (#[trigger] self.data@[i]).center == voxel_center_of(
                self.voxel_size,
                self.data@[i].grid_coords,
            )
        &&& forall|i: int, j: int|
            0 <= i < self.data@.len() && 0 <= j < self.data@.len() && i != j ==> (#[trigger] self.data@[i]).grid_coords
                != (#[trigger] self.data@[j]).grid_coords
        &&& forall|i: int|
            0 <= i < self.data@.len() ==> (#[trigger] self.data@[i]).state.spec_neighbors()
                == neighbor_mask(self.stored_keys(), self.data@[i].grid_coords)
    }

    /// The grid coordinates of the stored voxels, in storage order.
    pub open spec fn stored_keys(&self) -> Seq<IVector> {
        self.stored().map_values(|d: VoxelData| d.grid_coords)
    }

    /// The stored voxels, in storage order.
    pub closed spec fn stored(&self) -> Seq<VoxelData> {
        self.data@
    }

    closed spec fn has_key(&self, k: IVector) -> bool {
        exists|i: int| 0 <= i < self.data@.len() && (#[trigger] self.data@[i]).grid_coords == k
    }

    closed spec fn key_index(&self, k: IVector) -> int {
        choose|i: int| 0 <= i < self.data@.len() && (#[trigger] self.data@[i]).grid_coords == k
    }

    /// The voxels of the chunk `id`: the slice
    /// `[id * CHUNK_LEN, (id + 1) * CHUNK_LEN)` of the stored voxels, cut at
    /// their end.
    pub open spec fn chunk_voxels(&self, id: int) -> Seq<VoxelData> {
        let lo = if id * CHUNK_LEN < self.stored().len() {
            id * CHUNK_LEN
        } else {
            self.stored().len() as int
        };
        let hi = if (id + 1) * CHUNK_LEN < self.stored().len() {
            (id + 1) * CHUNK_LEN
        } else {
            self.stored().len() as int
        };
        self.stored().subrange(lo, hi)
    }

    /// The number of chunks: enough of them to hold every stored voxel.
    pub open spec fn spec_num_chunks(&self) -> int {
        (self.stored().len() + CHUNK_LEN - 1) / (CHUNK_LEN as int)
    }

    proof fn lemma_key_index(&self, i: int)
        requires
            self.wf(),
            0 <= i < self.data@.len(),
        ensures
            self.has_key(self.data@[i].grid_coords),
            self.key_index(self.data@[i].grid_coords) == i,
    {
        let k = self.data@[i].grid_coords;
        assert(self.data@[i].grid_coords == k);
        let j = self.key_index(k);
        assert(self.data@[j].grid_coords == k);
    }

    /// A key is stored exactly when it is a filled voxel.
    proof fn lemma_stored_key_filled(&self, n: IVector)
        requires
            self.wf(),
        ensures
            self.stored_keys().contains(n) <==> filled(self.spec_voxel_state(n)),
    {
        VoxelState::lemma_empty_state();
        if self.stored_keys().contains(n) {
            let i = choose|i: int| 0 <= i < self.stored_keys().len() && self.stored_keys()[i] == n;
            assert(self.data@[i].grid_coords == n);
            self.lemma_key_index(i);
        }
        if filled(self.spec_voxel_state(n)) {
            let i = self.key_index(n);
            assert(self.data@[i].grid_coords == n);
            assert(self.stored_keys()[i] == n);
        }
    }

    /// `out` is a valid answer of `self.voxels_in_range(mins, maxs)`: every
    /// filled voxel of the range exactly once, no voxel outside of it, each
    /// with the state, center and identifier the storage gives it.
    pub open spec fn lists_range(&self, mins: IVector, maxs: IVector, out: Seq<VoxelData>) -> bool {
        &&& forall|t: int|
            0 <= t < out.len() ==> key_in_range(#[trigger] out[t].grid_coords, mins, maxs)
        &&& forall|t: int|
            0 <= t < out.len() ==> state_agrees(
                out[t].state,
                self.spec_voxel_state(#[trigger] out[t].grid_coords),
            )
        &&& forall|t: int|
            0 <= t < out.len() ==> #[trigger] out[t].center == voxel_center_of(
                self.spec_voxel_size(),
                out[t].grid_coords,
            )
        &&& forall|t: int|
            0 <= t < out.len() && !(#[trigger] out[t].state).spec_is_empty() ==> self.spec_linear_id(
                out[t].grid_coords,
            ) == Some(out[t].linear_id)
        &&& forall|k: IVector|
            filled(#[trigger] self.spec_voxel_state(k)) && key_in_range(k, mins, maxs) ==> exists|t: int|
                0 <= t < out.len() && (#[trigger] out[t].grid_coords) == k
        &&& forall|t1: int, t2: int|
            0 <= t1 < out.len() && 0 <= t2 < out.len() && t1 != t2 && !out[t1].state.spec_is_empty()
                ==> (#[trigger] out[t1].grid_coords) != (#[trigger] out[t2].grid_coords)
    }

    /// The stored voxels of a grid range obey the contract of
    /// `voxels_in_range`.
    proof fn lemma_range_listing(&self, mins: IVector, maxs: IVector)
        requires
            self.wf(),
        ensures
            self.lists_range(mins, maxs, self.data@.filter(in_range_filter(mins, maxs))),
    {
        let data = self.data@;
        let n = data.len() as int;
        let f = in_range_filter(mins, maxs);
        let idx = lemma_filter_indices(data, f, n);
        assert(data.take(n) =~= data);
        let out = data.filter(f);
        assert forall|t: int| 0 <= t < out.len() implies key_in_range(
            #[trigger] out[t].grid_coords,
            mins,
            maxs,
        ) && out[t].center == voxel_center_of(self.voxel_size, out[t].grid_coords) by {
            assert(0 <= idx[t] < n);
            assert(f(data[idx[t]]));
        }
        assert forall|t: int| 0 <= t < out.len() implies state_agrees(
            out[t].state,
            self.spec_voxel_state(#[trigger] out[t].grid_coords),
        ) by {
            assert(f(data[idx[t]]));
            self.lemma_key_index(idx[t]);
        }
        assert forall|t: int|
            0 <= t < out.len() && !(#[trigger] out[t].state).spec_is_empty() implies self.spec_linear_id(
            out[t].grid_coords,
        ) == Some(out[t].linear_id) by {
            self.lemma_key_index(idx[t]);
        }
        assert forall|k: IVector|
            filled(#[trigger] self.spec_voxel_state(k)) && key_in_range(k, mins, maxs) implies exists|t: int|
            0 <= t < out.len() && (#[trigger] out[t].grid_coords) == k by {
            VoxelState::lemma_empty_state();
            assert(self.has_key(k));
            let j = self.key_index(k);
            assert(data[j].grid_coords == k);
            assert(f(data[j]));
            let t = choose|t: int| 0 <= t < idx.len() && idx[t] == j;
            assert(out[t].grid_coords == k);
        }
        assert forall|t1: int, t2: int|
            0 <= t1 < out.len() && 0 <= t2 < out.len() && t1 != t2
                && !out[t1].state.spec_is_empty() implies (#[trigger] out[t1].grid_coords) != (
        #[trigger] out[t2].grid_coords) by {
            if t1 < t2 {
                assert(idx[t1] < idx[t2]);
            } else {
                assert(idx[t2] < idx[t1]);
            }
            assert(data[idx[t1]].grid_coords != data[idx[t2]].grid_coords);
        }
    }

    /// The index at which `key` is stored.
    fn find(&self, key: IVector) -> (r: Option<usize>)
        ensures
            match r {
                Some(i) => i < self.data@.len() && self.data@[i as int].grid_coords == key,
                None => !self.has_key(key),
            },
    {
        let n = self.data.len();
        let mut i: usize = 0;
        while i < n
            invariant
                n == self.data@.len(),
                0 <= i <= n,
                forall|j: int| 0 <= j < i ==> (#[trigger] self.data@[j]).grid_coords != key,
            decreases n - i,
        {
            if self.data[i].grid_coords == key {
                return Some(i);
            }
            i = i + 1;
        }
        None
    }

    /// The number of chunks of this shape.
    pub fn num_chunks(&self) -> (r: usize)
        ensures
            r == self.spec_num_chunks(),
    {
        proof {
            use_type_invariant(self);
        }
        let n = self.data.len();
        n / CHUNK_LEN + if n % CHUNK_LEN == 0 {
            0
        } else {
            1
        }
    }

    /// The chunk `chunk_id` of this shape.
    pub fn chunk_ref(&self, chunk_id: usize) -> (r: VoxelsChunkRef)
        ensures
            r.parent == self,
            r.my_id == chunk_id,
    {
        VoxelsChunkRef { parent: self, my_id: chunk_id }
    }
}

impl VoxelQuery for Voxels {
    closed spec fn spec_voxel_size(&self) -> Vector {
        self.voxel_size
    }

    closed spec fn spec_domain(&self) -> (IVector, IVector) {
        (self.domain_mins, self.domain_maxs)
    }

    closed spec fn spec_voxel_state(&self, key: IVector) -> Option<VoxelState> {
        if !key_in_range(key, self.domain_mins, self.domain_maxs) {
            None
        } else if self.has_key(key) {
            Some(self.data@[self.key_index(key)].state)
        } else {
            Some(VoxelState::empty_state())
        }
    }

    closed spec fn spec_linear_id(&self, key: IVector) -> Option<u32> {
        if self.has_key(key) {
            Some(self.key_index(key) as u32)
        } else {
            None
        }
    }

    /// The stored voxels of the range, in storage order.
    closed spec fn spec_voxels_in_range(&self, mins: IVector, maxs: IVector) -> Seq<VoxelData> {
        self.data@.filter(in_range_filter(mins, maxs))
    }

    fn voxel_size(&self) -> (r: Vector) {
        proof {
            use_type_invariant(self);
        }
        self.voxel_size
    }

    fn domain(&self) -> (r: [IVector; 2]) {
        [self.domain_mins, self.domain_maxs]
    }

    /// Besides the trait's contract: the stored keys are the filled voxels,
    /// and the state of a filled voxel records which of them are its six
    /// axis-aligned neighbors (see `lemma_voxels_neighbor_masks`).
    fn voxel_state(&self, key: IVector) -> (r: Option<VoxelState>)
        ensures
            r matches Some(st) ==> (!st.spec_is_empty() ==> st.spec_neighbors() == neighbor_mask(
                self.stored_keys(),
                key,
            )),
            forall|n: IVector| #[trigger]
                self.stored_keys().contains(n) <==> filled(self.spec_voxel_state(n)),
    {
        proof {
            use_type_invariant(self);
            assert forall|n: IVector| #[trigger]
                self.stored_keys().contains(n) <==> filled(self.spec_voxel_state(n)) by {
                self.lemma_stored_key_filled(n);
            }
            let keys = self.stored_keys();
            assert(keys.contains(neighbor(key, 0, 1)) == filled(self.spec_voxel_state(neighbor(key, 0, 1))));
            assert(keys.contains(neighbor(key, 0, -1)) == filled(self.spec_voxel_state(neighbor(key, 0, -1))));
            assert(keys.contains(neighbor(key, 1, 1)) == filled(self.spec_voxel_state(neighbor(key, 1, 1))));
            assert(keys.contains(neighbor(key, 1, -1)) == filled(self.spec_voxel_state(neighbor(key, 1, -1))));
            assert(keys.contains(neighbor(key, 2, 1)) == filled(self.spec_voxel_state(neighbor(key, 2, 1))));
            assert(keys.contains(neighbor(key, 2, -1)) == filled(self.spec_voxel_state(neighbor(key, 2, -1))));
        }
        if !(self.domain_mins.x <= key.x && key.x < self.domain_maxs.x && self.domain_mins.y
            <= key.y && key.y < self.domain_maxs.y && self.domain_mins.z <= key.z && key.z
            < self.domain_maxs.z) {
            return None;
        }
        match self.find(key) {
            Some(i) => {
                proof {
                    self.lemma_key_index(i as int);
                }
                Some(self.data[i].state)
            },
            None => Some(VoxelState::empty()),
        }
    }

    /// Besides the trait's contract: exactly the filled voxels have an
    /// identifier, below the number of stored voxels, and no two filled voxels
    /// share one.
    fn linear_id(&self, key: IVector) -> (r: Option<u32>)
        ensures
            r is Some <==> filled(self.spec_voxel_state(key)),
            r matches Some(id) ==> id < self.stored().len() && forall|k2: IVector|
                #![trigger self.spec_linear_id(k2)]
                k2 != key && filled(self.spec_voxel_state(k2)) ==> self.spec_linear_id(k2) != Some(
                    id,
                ),
    {
        proof {
            use_type_invariant(self);
            VoxelState::lemma_empty_state();
            if self.has_key(key) {
                let i = self.key_index(key);
                assert(self.data@[i].grid_coords == key);
                assert forall|k2: IVector|
                    #![trigger self.spec_linear_id(k2)]
                    k2 != key && filled(self.spec_voxel_state(k2)) implies self.spec_linear_id(k2)
                    != Some(i as u32) by {
                    let j = self.key_index(k2);
                    assert(self.data@[j].grid_coords == k2);
                }
            }
        }
        match self.find(key) {
            Some(i) => {
                proof {
                    self.lemma_key_index(i as int);
                }
                Some(self.data[i].linear_id)
            },
            None => None,
        }
    }

    fn voxels_in_range(&self, mins: IVector, maxs: IVector) -> (r: Vec<VoxelData>) {
        proof {
            use_type_invariant(self);
        }
        let mut out: Vec<VoxelData> = Vec::new();
        let n = self.data.len();
        let mut i: usize = 0;
        while i < n
            invariant
                n == self.data@.len(),
                0 <= i <= n,
                out@ == self.data@.take(i as int).filter(in_range_filter(mins, maxs)),
            decreases n - i,
        {
            proof {
                reveal(Seq::filter);
                let pre = self.data@.take(i + 1);
                assert(pre.drop_last() =~= self.data@.take(i as int));
                assert(pre.last() == self.data@[i as int]);
            }
            let vox = self.data[i];
            let k = vox.grid_coords;
            if mins.x <= k.x && k.x < maxs.x && mins.y <= k.y && k.y < maxs.y && mins.z <= k.z && k.z
                < maxs.z {
                out.push(vox);
            }
            i = i + 1;
        }
        proof {
            assert(self.data@.take(n as int) =~= self.data@);
            self.lemma_range_listing(mins, maxs);
        }
        out
    }
}


/// The positions in `data` of the elements of the first `i` elements of
/// `data` that `f` selects, in increasing order.
proof fn lemma_filter_indices(data: Seq<VoxelData>, f: spec_fn(VoxelData) -> bool, i: int) -> (idx: Seq<int>)
    requires
        0 <= i <= data.len(),
    ensures
        idx.len() == data.take(i).filter(f).len(),
        forall|t: int|
            0 <= t < idx.len() ==> 0 <= #[trigger] idx[t] < i && data.take(i).filter(f)[t]
                == data[idx[t]],
        forall|t1: int, t2: int|
            0 <= t1 < t2 < idx.len() ==> #[trigger] idx[t1] < #[trigger] idx[t2],
        forall|j: int|
            0 <= j < i && f(#[trigger] data[j]) ==> (exists|t: int| 0 <= t < idx.len() && idx[t] == j),
    decreases i,
{
    reveal(Seq::filter);
    if i == 0 {
        assert(data.take(0) =~= Seq::<VoxelData>::empty());
        Seq::empty()
    } else {
        let prev = lemma_filter_indices(data, f, i - 1);
        let pre = data.take(i);
        assert(pre.drop_last() =~= data.take(i - 1));
        assert(pre.last() == data[i - 1]);
        if f(data[i - 1]) {
            let idx = prev.push(i - 1);
            assert(pre.filter(f) == data.take(i - 1).filter(f).push(data[i - 1]));
            assert forall|j: int| 0 <= j < i && f(#[trigger] data[j]) implies exists|t: int|
                0 <= t < idx.len() && idx[t] == j by {
                if j == i - 1 {
                    assert(idx[idx.len() - 1] == j);
                } else {
                    let t = choose|t: int| 0 <= t < prev.len() && prev[t] == j;
                    assert(idx[t] == j);
                }
            }
            idx
        } else {
            assert(pre.filter(f) == data.take(i - 1).filter(f));
            prev
        }
    }
}

/// Selects the voxels of the semi-open grid range `[mins, maxs)`.
pub open spec fn in_range_filter(mins: IVector, maxs: IVector) -> spec_fn(VoxelData) -> bool {
    |d: VoxelData| key_in_range(d.grid_coords, mins, maxs)
}

/// The distinct elements of `s`, in the order of their first occurrence.
pub open spec fn dedup(s: Seq<IVector>) -> Seq<IVector>
    decreases s.len(),
{
    if s.len() == 0 {
        Seq::empty()
    } else {
        let d = dedup(s.drop_last());
        if d.contains(s.last()) {
            d
        } else {
            d.push(s.last())
        }
    }
}

/// The neighbor of `k` one step along `axis` in the direction `dir` exists
/// and is one of `keys`.
pub open spec fn has_neighbor(keys: Seq<IVector>, k: IVector, axis: int, dir: int) -> bool {
    let c = if axis == 0 {
        k.x as int
    } else if axis == 1 {
        k.y as int
    } else {
        k.z as int
    };
    i32::MIN <= c + dir <= i32::MAX && keys.contains(neighbor(k, axis, dir))
}

/// The neighborhood mask of `k` among `keys`: the sum of the bits of its
/// filled axis-aligned neighbors.
pub open spec fn neighbor_mask(keys: Seq<IVector>, k: IVector) -> int {
    mask_bits(
        has_neighbor(keys, k, 0, 1),
        has_neighbor(keys, k, 0, -1),
        has_neighbor(keys, k, 1, 1),
        has_neighbor(keys, k, 1, -1),
        has_neighbor(keys, k, 2, 1),
        has_neighbor(keys, k, 2, -1),
    )
}

/// The neighbor of `k` one step along `axis` in the direction `dir` exists
/// and is a filled voxel of `q`.
pub open spec fn has_filled_neighbor<Q: VoxelQuery + ?Sized>(
    q: &Q,
    k: IVector,
    axis: int,
    dir: int,
) -> bool {
    let c = if axis == 0 {
        k.x as int
    } else if axis == 1 {
        k.y as int
    } else {
        k.z as int
    };
    i32::MIN <= c + dir <= i32::MAX && filled(q.spec_voxel_state(neighbor(k, axis, dir)))
}

/// The neighborhood mask of `k` in the storage `q`: the sum of the bits of
/// its filled axis-aligned neighbors.
pub open spec fn filled_neighbor_mask<Q: VoxelQuery + ?Sized>(q: &Q, k: IVector) -> int {
    mask_bits(
        has_filled_neighbor(q, k, 0, 1),
        has_filled_neighbor(q, k, 0, -1),
        has_filled_neighbor(q, k, 1, 1),
        has_filled_neighbor(q, k, 1, -1),
        has_filled_neighbor(q, k, 2, 1),
        has_filled_neighbor(q, k, 2, -1),
    )
}

/// Two sets of keys with the same elements give the same neighborhood masks.
proof fn lemma_same_keys_same_mask(a: Seq<IVector>, b: Seq<IVector>, k: IVector)
    requires
        forall|n: IVector| a.contains(n) <==> b.contains(n),
    ensures
        neighbor_mask(a, k) == neighbor_mask(b, k),
{
    assert(a.contains(neighbor(k, 0, 1)) == b.contains(neighbor(k, 0, 1)));
    assert(a.contains(neighbor(k, 0, -1)) == b.contains(neighbor(k, 0, -1)));
    assert(a.contains(neighbor(k, 1, 1)) == b.contains(neighbor(k, 1, 1)));
    assert(a.contains(neighbor(k, 1, -1)) == b.contains(neighbor(k, 1, -1)));
    assert(a.contains(neighbor(k, 2, 1)) == b.contains(neighbor(k, 2, 1)));
    assert(a.contains(neighbor(k, 2, -1)) == b.contains(neighbor(k, 2, -1)));
}

/// `dedup(s)` holds the elements of `s`, each once.
pub proof fn lemma_dedup(s: Seq<IVector>)
    ensures
        forall|k: IVector| dedup(s).contains(k) <==> s.contains(k),
        forall|i: int, j: int|
            0 <= i < dedup(s).len() && 0 <= j < dedup(s).len() && i != j ==> dedup(s)[i]
                != dedup(s)[j],
        dedup(s).len() <= s.len(),
    decreases s.len(),
{
    if s.len() > 0 {
        let p = s.drop_last();
        lemma_dedup(p);
        assert forall|k: IVector| s.contains(k) <==> (p.contains(k) || k == s.last()) by {
            if s.contains(k) {
                let i = choose|i: int| 0 <= i < s.len() && s[i] == k;
                if i < s.len() - 1 {
                    assert(p[i] == k);
                }
            }
            if p.contains(k) {
                let i = choose|i: int| 0 <= i < p.len() && p[i] == k;
                assert(s[i] == k);
            }
            if k == s.last() {
                assert(s[s.len() - 1] == k);
            }
        }
        let d = dedup(p);
        if !d.contains(s.last()) {
            assert forall|k: IVector| d.push(s.last()).contains(k) <==> (d.contains(k) || k
                == s.last()) by {
                if d.push(s.last()).contains(k) {
                    let i = choose|i: int| 0 <= i < d.len() + 1 && d.push(s.last())[i] == k;
                    if i < d.len() {
                        assert(d[i] == k);
                    }
                }
                if d.contains(k) {
                    let i = choose|i: int| 0 <= i < d.len() && d[i] == k;
                    assert(d.push(s.last())[i] == k);
                }
                if k == s.last() {
                    assert(d.push(s.last())[d.len() as int] == k);
                }
            }
        }
    }
}

/// Whether `k` is one of `keys`.
fn contains_key(keys: &[IVector], k: IVector) -> (r: bool)
    ensures
        r == keys@.contains(k),
{
    let n = keys.len();
    let mut i: usize = 0;
    while i < n
        invariant
            n == keys@.len(),
            0 <= i <= n,
            forall|j: int| 0 <= j < i ==> keys@[j] != k,
        decreases n - i,
    {
        if keys[i] == k {
            assert(keys@[i as int] == k);
            return true;
        }
        i = i + 1;
    }
    false
}

/// The neighborhood mask of `k` among `keys`.
fn neighbors_of(keys: &[IVector], k: IVector) -> (r: u8)
    ensures
        r == neighbor_mask(keys@, k),
        r < 64,
{
    let mut mask: u8 = 0;
    if k.x < i32::MAX && contains_key(keys, IVector { x: k.x + 1, ..k }) {
        mask = mask + X_POS;
    }
    if k.x > i32::MIN && contains_key(keys, IVector { x: k.x - 1, ..k }) {
        mask = mask + X_NEG;
    }
    if k.y < i32::MAX && contains_key(keys, IVector { y: k.y + 1, ..k }) {
        mask = mask + Y_POS;
    }
    if k.y > i32::MIN && contains_key(keys, IVector { y: k.y - 1, ..k }) {
        mask = mask + Y_NEG;
    }
    if k.z < i32::MAX && contains_key(keys, IVector { z: k.z + 1, ..k }) {
        mask = mask + Z_POS;
    }
    if k.z > i32::MIN && contains_key(keys, IVector { z: k.z - 1, ..k }) {
        mask = mask + Z_NEG;
    }
    mask
}

impl Voxels {
    /// The chunk `c` is the slice `[c * CHUNK_LEN, (c + 1) * CHUNK_LEN)` of
    /// the stored voxels, cut at their end.
    proof fn lemma_chunk_voxels(&self, c: int, l: int)
        requires
            0 <= c,
            0 <= l < self.chunk_voxels(c).len(),
        ensures
            c * CHUNK_LEN + l < self.data@.len(),
            self.chunk_voxels(c)[l] == self.data@[c * CHUNK_LEN + l],
    {
    }

    /// What the projection on the chunk `c` tells of the stored voxels: the
    /// index of the voxel projected on, in that chunk, closest among its
    /// voxels.
    proof fn lemma_chunk_answer(
        &self,
        c: int,
        pt: Vector,
        solid: bool,
        proj: PointProjection,
        id: u32,
    ) -> (j: int)
        requires
            self.wf(),
            0 <= c,
            vector_ok(pt),
            exists|jc: int|
                0 <= jc < self.chunk_voxels(c).len() && proj == voxel_projection(
                    self,
                    self.chunk_voxels(c)[jc].grid_coords,
                    pt,
                    solid,
                ) && id == self.chunk_voxels(c)[jc].linear_id && (forall|l: int|
                    0 <= l < self.chunk_voxels(c).len() ==> dist2(proj.point, pt) <= dist2(
                        voxel_projection(
                            self,
                            #[trigger] self.chunk_voxels(c)[l].grid_coords,
                            pt,
                            solid,
                        ).point,
                        pt,
                    )) && (forall|l: int|
                    0 <= l < jc ==> dist2(proj.point, pt) < dist2(
                        voxel_projection(
                            self,
                            #[trigger] self.chunk_voxels(c)[l].grid_coords,
                            pt,
                            solid,
                        ).point,
                        pt,
                    )),
        ensures
            0 <= j < self.data@.len(),
            c * CHUNK_LEN <= j < (c + 1) * CHUNK_LEN,
            proj == voxel_projection(self, self.data@[j].grid_coords, pt, solid),
            id == self.data@[j].linear_id,
            -0x20_0000_0000_0000 <= proj.point.x - pt.x <= 0x20_0000_0000_0000,
            -0x20_0000_0000_0000 <= proj.point.y - pt.y <= 0x20_0000_0000_0000,
            -0x20_0000_0000_0000 <= proj.point.z - pt.z <= 0x20_0000_0000_0000,
            forall|j2: int|
                c * CHUNK_LEN <= j2 < self.data@.len() && j2 < (c + 1) * CHUNK_LEN ==> dist2(
                    proj.point,
                    pt,
                ) <= dist2(
                    voxel_projection(self, (#[trigger] self.data@[j2]).grid_coords, pt, solid).point,
                    pt,
                ),
            forall|j2: int|
                c * CHUNK_LEN <= j2 < j ==> dist2(proj.point, pt) < dist2(
                    voxel_projection(self, (#[trigger] self.data@[j2]).grid_coords, pt, solid).point,
                    pt,
                ),
    {
        let jc = choose|jc: int|
            0 <= jc < self.chunk_voxels(c).len() && proj == voxel_projection(
                self,
                self.chunk_voxels(c)[jc].grid_coords,
                pt,
                solid,
            ) && id == self.chunk_voxels(c)[jc].linear_id && (forall|l: int|
                0 <= l < self.chunk_voxels(c).len() ==> dist2(proj.point, pt) <= dist2(
                    voxel_projection(
                        self,
                        #[trigger] self.chunk_voxels(c)[l].grid_coords,
                        pt,
                        solid,
                    ).point,
                    pt,
                )) && (forall|l: int|
                0 <= l < jc ==> dist2(proj.point, pt) < dist2(
                    voxel_projection(
                        self,
                        #[trigger] self.chunk_voxels(c)[l].grid_coords,
                        pt,
                        solid,
                    ).point,
                    pt,
                ));
        self.lemma_chunk_voxels(c, jc);
        let k = self.chunk_voxels(c)[jc].grid_coords;
        lemma_key_times_size(k.x as int, self.voxel_size.x as int);
        lemma_key_times_size(k.y as int, self.voxel_size.y as int);
        lemma_key_times_size(k.z as int, self.voxel_size.z as int);
        lemma_projection_in_aabb(voxel_box(self.voxel_size, k), pt, solid);
        assert forall|j2: int|
            c * CHUNK_LEN <= j2 < self.data@.len() && j2 < (c + 1) * CHUNK_LEN implies dist2(
            proj.point,
            pt,
        ) <= dist2(
            voxel_projection(self, (#[trigger] self.data@[j2]).grid_coords, pt, solid).point,
            pt,
        ) by {
            let l = j2 - c * CHUNK_LEN;
            self.lemma_chunk_voxels(c, l);
            assert(self.chunk_voxels(c)[l] == self.data@[j2]);
        }
        assert forall|j2: int|
            c * CHUNK_LEN <= j2 < c * CHUNK_LEN + jc implies dist2(proj.point, pt) < dist2(
            voxel_projection(self, (#[trigger] self.data@[j2]).grid_coords, pt, solid).point,
            pt,
        ) by {
            let l = j2 - c * CHUNK_LEN;
            self.lemma_chunk_voxels(c, l);
            assert(self.chunk_voxels(c)[l] == self.data@[j2]);
        }
        c * CHUNK_LEN + jc
    }

    /// The projection of `pt` on the closest voxel, found chunk by chunk,
    /// with the linear id of that voxel.
    #[verifier::rlimit(40)]
    fn project_local_point_with_id(&self, pt: Vector, solid: bool) -> (r: Option<
        (PointProjection, u32),
    >)
        requires
            vector_ok(pt),
        ensures
            is_voxels_projection(self, pt, solid, r),
            r == best_in_list(self, self.stored(), pt, solid),
    {
        proof {
            use_type_invariant(self);
            VoxelState::lemma_empty_state();
        }
        let nc = self.num_chunks();
        let ghost n = self.data@.len();
        let mut best: Option<(PointProjection, u32)> = None;
        let mut best_dist: i128 = i128::MAX;
        let ghost mut best_j: int = -1;
        let mut c: usize = 0;
        while c < nc
            invariant
                nc == self.spec_num_chunks(),
                n == self.data@.len(),
                0 <= c <= nc,
                vector_ok(pt),
                self.wf(),
                best is None <==> (c == 0 || n == 0),
                best is None ==> best_dist == i128::MAX,
                match best {
                    Some((p, id)) => 0 <= best_j < n && best_j < c * CHUNK_LEN && p
                        == voxel_projection(self, self.data@[best_j].grid_coords, pt, solid) && id
                        == self.data@[best_j].linear_id && best_dist == dist2(p.point, pt),
                    None => true,
                },
                forall|j: int|
                    0 <= j < n && j < c * CHUNK_LEN ==> best_dist <= dist2(
                        voxel_projection(self, (#[trigger] self.data@[j]).grid_coords, pt, solid).point,
                        pt,
                    ),
                best is Some ==> forall|j: int|
                    0 <= j < best_j ==> best_dist < dist2(
                        voxel_projection(self, (#[trigger] self.data@[j]).grid_coords, pt, solid).point,
                        pt,
                    ),
            decreases nc - c,
        {
            let chunk = self.chunk_ref(c);
            let res = chunk.project_local_point_and_get_vox_id(pt, solid);
            let ghost chunk_lo = c * CHUNK_LEN;
            match res {
                Some((proj, id)) => {
                    let ghost jc = self.lemma_chunk_answer(c as int, pt, solid, proj, id);
                    let d = distance_squared(proj.point, pt);
                    if d < best_dist {
                        best = Some((proj, id));
                        best_dist = d;
                        proof {
                            best_j = jc;
                        }
                    }
                },
                None => {
                    proof {
                        assert(n <= c * CHUNK_LEN);
                    }
                },
            }
            c = c + 1;
        }
        proof {
            match best {
                Some((p, id)) => {
                    let kb = self.data@[best_j].grid_coords;
                    self.lemma_key_index(best_j);
                    assert(filled(self.spec_voxel_state(kb)));
                    assert forall|k: IVector| #[trigger]
                        filled(self.spec_voxel_state(k)) implies dist2(
                        voxel_projection(self, kb, pt, solid).point,
                        pt,
                    ) <= dist2(voxel_projection(self, k, pt, solid).point, pt) by {
                        let j = self.key_index(k);
                        assert(self.data@[j].grid_coords == k);
                    }
                    assert(is_closest_voxel(self, pt, solid, kb));
                    lemma_best_in_list_first_closest(self, self.data@, pt, solid, best_j);
                },
                None => {
                    assert forall|k: IVector| !filled(#[trigger] self.spec_voxel_state(k)) by {
                        if filled(self.spec_voxel_state(k)) {
                            let j = self.key_index(k);
                            assert(self.data@[j].grid_coords == k);
                        }
                    }
                    assert(self.data@ =~= Seq::<VoxelData>::empty());
                },
            }
        }
        best
    }

    /// Projects a point on this shape: on the closest filled voxel (the first
    /// one in storage order among equally close ones), or, for a shape
    /// without voxels, to a point at the largest coordinates.
    pub fn project_local_point(&self, pt: Vector, solid: bool) -> (r: PointProjection)
        requires
            vector_ok(pt),
        ensures
            is_shape_projection(self, pt, solid, r),
            r == match best_in_list(self, self.stored(), pt, solid) {
                Some((proj, _)) => proj,
                None => PointProjection {
                    is_inside: false,
                    point: Vector { x: i64::MAX, y: i64::MAX, z: i64::MAX },
                },
            },
    {
        match self.project_local_point_with_id(pt, solid) {
            Some((proj, _)) => proj,
            None => PointProjection::new(false, Vector::splat(i64::MAX)),
        }
    }

    /// Projects a point on the boundary of this shape, and gives the face of
    /// the voxel it projects on (the first one in storage order among equally
    /// close ones); `FeatureId::Unknown` for a shape without voxels.
    pub fn project_local_point_and_get_feature(&self, pt: Vector) -> (r: (
        PointProjection,
        FeatureId,
    ))
        requires
            vector_ok(pt),
        ensures
            (forall|k: IVector| !filled(#[trigger] self.spec_voxel_state(k))) ==> r == (
            PointProjection {
                is_inside: false,
                point: Vector { x: i64::MAX, y: i64::MAX, z: i64::MAX },
            },
            FeatureId::Unknown,
        ),
            (exists|k: IVector| filled(#[trigger] self.spec_voxel_state(k))) ==> exists|k: IVector|
                #![trigger self.spec_voxel_state(k)]
                is_closest_voxel(self, pt, false, k) && r.0 == voxel_projection(self, k, pt, false)
                    && r.1 == FeatureId::Face(id_or_zero(self.spec_linear_id(k))),
            r == match best_in_list(self, self.stored(), pt, false) {
                Some((proj, id)) => (proj, FeatureId::Face(id)),
                None => (
                    PointProjection {
                        is_inside: false,
                        point: Vector { x: i64::MAX, y: i64::MAX, z: i64::MAX },
                    },
                    FeatureId::Unknown,
                ),
            },
    {
        match self.project_local_point_with_id(pt, false) {
            Some((proj, vox)) => (proj, FeatureId::Face(vox)),
            None => (PointProjection::new(false, Vector::splat(i64::MAX)), FeatureId::Unknown),
        }
    }
}

/// Every key of `keys` lies in `[mins, maxs)`, and each bound is reached:
/// `[mins, maxs)` is the bounding grid range of `keys`.
pub open spec fn is_bounding_range(keys: Seq<IVector>, mins: IVector, maxs: IVector) -> bool {
    &&& forall|i: int| 0 <= i < keys.len() ==> key_in_range(#[trigger] keys[i], mins, maxs)
    &&& exists|i: int| 0 <= i < keys.len() && (#[trigger] keys[i]).x == mins.x
    &&& exists|i: int| 0 <= i < keys.len() && (#[trigger] keys[i]).y == mins.y
    &&& exists|i: int| 0 <= i < keys.len() && (#[trigger] keys[i]).z == mins.z
    &&& exists|i: int| 0 <= i < keys.len() && (#[trigger] keys[i]).x + 1 == maxs.x
    &&& exists|i: int| 0 <= i < keys.len() && (#[trigger] keys[i]).y + 1 == maxs.y
    &&& exists|i: int| 0 <= i < keys.len() && (#[trigger] keys[i]).z + 1 == maxs.z
}

/// Every coordinate of the keys is below `i32::MAX`.
pub open spec fn keys_below_max(keys: Seq<IVector>) -> bool {
    forall|i: int|
        0 <= i < keys.len() ==> (#[trigger] keys[i]).x < i32::MAX && keys[i].y < i32::MAX
            && keys[i].z < i32::MAX
}

/// The bounding grid range of a non-empty set of keys.
fn bounding_range(keys: &[IVector]) -> (r: (IVector, IVector))
    requires
        keys@.len() > 0,
        keys_below_max(keys@),
    ensures
        is_bounding_range(keys@, r.0, r.1),
{
    let k0 = keys[0];
    let mut mins = k0;
    let mut top = k0;
    let n = keys.len();
    let mut i: usize = 1;
    while i < n
        invariant
            n == keys@.len(),
            1 <= i <= n,
            keys_below_max(keys@),
            forall|j: int|
                0 <= j < i ==> mins.x <= (#[trigger] keys@[j]).x <= top.x && mins.y <= keys@[j].y
                    <= top.y && mins.z <= keys@[j].z <= top.z,
            exists|j: int| 0 <= j < i && (#[trigger] keys@[j]).x == mins.x,
            exists|j: int| 0 <= j < i && (#[trigger] keys@[j]).y == mins.y,
            exists|j: int| 0 <= j < i && (#[trigger] keys@[j]).z == mins.z,
            exists|j: int| 0 <= j < i && (#[trigger] keys@[j]).x == top.x,
            exists|j: int| 0 <= j < i && (#[trigger] keys@[j]).y == top.y,
            exists|j: int| 0 <= j < i && (#[trigger] keys@[j]).z == top.z,
        decreases n - i,
    {
        let k = keys[i];
        proof {
            assert(keys@[i as int] == k);
        }
        if k.x < mins.x {
            mins.x = k.x;
        }
        if k.y < mins.y {
            mins.y = k.y;
        }
        if k.z < mins.z {
            mins.z = k.z;
        }
        if k.x > top.x {
            top.x = k.x;
        }
        if k.y > top.y {
            top.y = k.y;
        }
        if k.z > top.z {
            top.z = k.z;
        }
        i = i + 1;
    }
    let ghost jx = choose|j: int| 0 <= j < n && (#[trigger] keys@[j]).x == top.x;
    let ghost jy = choose|j: int| 0 <= j < n && (#[trigger] keys@[j]).y == top.y;
    let ghost jz = choose|j: int| 0 <= j < n && (#[trigger] keys@[j]).z == top.z;
    assert(top.x < i32::MAX && top.y < i32::MAX && top.z < i32::MAX) by {
        assert(keys@[jx].x < i32::MAX);
        assert(keys@[jy].y < i32::MAX);
        assert(keys@[jz].z < i32::MAX);
    }
    let maxs = IVector { x: top.x + 1, y: top.y + 1, z: top.z + 1 };
    (mins, maxs)
}

impl Voxels {
    /// The voxel shape made of the voxels at the given grid coordinates, each
    /// of the given size. Repeated keys count once; the linear id of a voxel is
    /// the rank of the first occurrence of its key among the distinct keys;
    /// the domain is the bounding range of the keys (empty at the origin when
    /// there are none).
    pub fn new(voxel_size: Vector, keys: &[IVector]) -> (r: Voxels)
        requires
            valid_voxel_size(voxel_size),
            keys@.len() <= u32::MAX,
            keys_below_max(keys@),
        ensures
            r.spec_voxel_size() == voxel_size,
            forall|k: IVector| filled(#[trigger] r.spec_voxel_state(k)) <==> keys@.contains(k),
            forall|k: IVector|
                keys@.contains(k) ==> match #[trigger] r.spec_voxel_state(k) {
                    Some(st) => st.spec_neighbors() == neighbor_mask(keys@, k),
                    None => false,
                },
            forall|i: int|
                0 <= i < dedup(keys@).len() ==> r.spec_linear_id(#[trigger] dedup(keys@)[i])
                    == Some(i as u32),
            forall|k: IVector| !keys@.contains(k) ==> #[trigger] r.spec_linear_id(k) is None,
            forall|k: IVector|
                !keys@.contains(k) ==> #[trigger] r.spec_voxel_state(k) == if key_in_range(
                    k,
                    r.spec_domain().0,
                    r.spec_domain().1,
                ) {
                    Some(VoxelState::empty_state())
                } else {
                    None
                },
            r.stored().len() == dedup(keys@).len(),
            forall|i: int|
                0 <= i < r.stored().len() ==> (#[trigger] r.stored()[i]).linear_id == i
                    && r.stored()[i].grid_coords == dedup(keys@)[i] && r.stored()[i].center
                    == voxel_center_of(voxel_size, dedup(keys@)[i]) && r.stored()[i].state
                    == r.spec_voxel_state(dedup(keys@)[i]).unwrap(),
            keys@.len() == 0 ==> r.spec_domain() == (IVector { x: 0, y: 0, z: 0 }, IVector {
                x: 0,
                y: 0,
                z: 0,
            }),
            keys@.len() > 0 ==> is_bounding_range(keys@, r.spec_domain().0, r.spec_domain().1),
            listings_valid(&r),
    {
        // The distinct keys, in the order of their first occurrence.
        let mut uniq: Vec<IVector> = Vec::new();
        let n = keys.len();
        let mut i: usize = 0;
        while i < n
            invariant
                n == keys@.len(),
                0 <= i <= n,
                uniq@ == dedup(keys@.take(i as int)),
            decreases n - i,
        {
            let k = keys[i];
            proof {
                assert(keys@.take(i + 1).drop_last() =~= keys@.take(i as int));
                assert(keys@.take(i + 1).last() == k);
            }
            if !contains_key(uniq.as_slice(), k) {
                uniq.push(k);
            }
            i = i + 1;
        }
        proof {
            assert(keys@.take(n as int) =~= keys@);
            lemma_dedup(keys@);
        }
        let (domain_mins, domain_maxs) = if n == 0 {
            (IVector { x: 0, y: 0, z: 0 }, IVector { x: 0, y: 0, z: 0 })
        } else {
            bounding_range(keys)
        };
        let half = Vector { x: voxel_size.x / 2, y: voxel_size.y / 2, z: voxel_size.z / 2 };
        let mut data: Vec<VoxelData> = Vec::new();
        let m = uniq.len();
        let mut j: usize = 0;
        while j < m
            invariant
                m == uniq@.len(),
                uniq@ == dedup(keys@),
                m <= n,
                n <= u32::MAX,
                0 <= j <= m,
                valid_voxel_size(voxel_size),
                half == half_size(voxel_size),
                data@.len() == j,
                forall|t: int|
                    0 <= t < j ==> (#[trigger] data@[t]).linear_id == t && data@[t].grid_coords
                        == uniq@[t] && data@[t].center == voxel_center_of(voxel_size, uniq@[t])
                        && !data@[t].state.spec_is_empty() && data@[t].state.spec_neighbors()
                        == neighbor_mask(keys@, uniq@[t]),
            decreases m - j,
        {
            let k = uniq[j];
            proof {
                lemma_key_times_size(k.x as int, voxel_size.x as int);
                lemma_key_times_size(k.y as int, voxel_size.y as int);
                lemma_key_times_size(k.z as int, voxel_size.z as int);
            }
            let center = Vector {
                x: (k.x as i64) * voxel_size.x + half.x,
                y: (k.y as i64) * voxel_size.y + half.y,
                z: (k.z as i64) * voxel_size.z + half.z,
            };
            let state = VoxelState::with_filled_neighbors(neighbors_of(keys, k));
            data.push(VoxelData { linear_id: j as u32, grid_coords: k, center, state });
            j = j + 1;
        }
        proof {
            assert forall|t: int| 0 <= t < m implies key_in_range(
                (#[trigger] data@[t]).grid_coords,
                domain_mins,
                domain_maxs,
            ) by {
                assert(uniq@[t] == dedup(keys@)[t]);
                assert(dedup(keys@).contains(uniq@[t]));
                assert(keys@.contains(uniq@[t]));
                let i = choose|i: int| 0 <= i < keys@.len() && keys@[i] == uniq@[t];
                assert(key_in_range(keys@[i], domain_mins, domain_maxs));
            }
        }
        proof {
            assert(data@.map_values(|d: VoxelData| d.grid_coords) =~= uniq@);
            assert forall|t: int| 0 <= t < m implies (#[trigger] data@[t]).state.spec_neighbors()
                == neighbor_mask(uniq@, data@[t].grid_coords) by {
                lemma_same_keys_same_mask(keys@, uniq@, data@[t].grid_coords);
            }
        }
        let r = Voxels { voxel_size, domain_mins, domain_maxs, data };
        proof {
            VoxelState::lemma_empty_state();
            assert forall|k: IVector| r.has_key(k) <==> keys@.contains(k) by {
                if r.has_key(k) {
                    let t = r.key_index(k);
                    assert(r.data@[t].grid_coords == k);
                    assert(dedup(keys@)[t] == k);
                    assert(dedup(keys@).contains(k));
                }
                if keys@.contains(k) {
                    assert(dedup(keys@).contains(k));
                    let t = choose|t: int| 0 <= t < m && dedup(keys@)[t] == k;
                    assert(r.data@[t].grid_coords == k);
                }
            }
            assert forall|k: IVector| keys@.contains(k) implies key_in_range(
                k,
                domain_mins,
                domain_maxs,
            ) by {
                let i = choose|i: int| 0 <= i < keys@.len() && keys@[i] == k;
                assert(key_in_range(keys@[i], domain_mins, domain_maxs));
            }
            assert forall|k: IVector| keys@.contains(k) implies match #[trigger] r.spec_voxel_state(
                k,
            ) {
                Some(st) => st.spec_neighbors() == neighbor_mask(keys@, k),
                None => false,
            } by {
                let t = r.key_index(k);
                assert(r.data@[t].grid_coords == k);
            }
            assert forall|i: int| 0 <= i < dedup(keys@).len() implies r.spec_linear_id(
                #[trigger] dedup(keys@)[i],
            ) == Some(i as u32) by {
                r.lemma_key_index(i);
            }
            lemma_voxels_listings_valid(&r);
        }
        r
    }
}

/// The lists of voxels that a shape yields obey the contract of
/// `voxels_in_range`, for every grid range.
proof fn lemma_voxels_listings_valid(v: &Voxels)
    requires
        v.wf(),
    ensures
        listings_valid(v),
{
    assert forall|mins: IVector, maxs: IVector|
        #[trigger] lists_voxels_in_range(v, mins, maxs, v.spec_voxels_in_range(mins, maxs)) by {
        v.lemma_range_listing(mins, maxs);
    }
}

/// `p` is a correct answer of the projection of `pt` on the shape `q`: the
/// projection on a closest filled voxel, or, when `q` has no filled voxel, a
/// point at the largest coordinates, outside.
pub open spec fn is_shape_projection<Q: VoxelQuery + ?Sized>(
    q: &Q,
    pt: Vector,
    solid: bool,
    p: PointProjection,
) -> bool {
    &&& (forall|k: IVector| !filled(#[trigger] q.spec_voxel_state(k))) ==> p == (PointProjection {
        is_inside: false,
        point: Vector { x: i64::MAX, y: i64::MAX, z: i64::MAX },
    })
    &&& (exists|k: IVector| filled(#[trigger] q.spec_voxel_state(k))) ==> exists|k: IVector|
        #![trigger q.spec_voxel_state(k)]
        is_closest_voxel(q, pt, solid, k) && p == voxel_projection(q, k, pt, solid)
}

impl<'a> VoxelsChunkRef<'a> {
    /// The voxels of this chunk.
    pub open spec fn spec_voxels(&self) -> Seq<VoxelData> {
        self.parent.chunk_voxels(self.my_id as int)
    }

    /// The voxels of this chunk.
    pub fn voxels(&self) -> (r: Vec<VoxelData>)
        ensures
            r@ == self.spec_voxels(),
            forall|l: int|
                0 <= l < r@.len() ==> {
                    let d = #[trigger] r@[l];
                    &&& !d.state.spec_is_empty()
                    &&& self.parent.spec_voxel_state(d.grid_coords) == Some(d.state)
                    &&& self.parent.spec_linear_id(d.grid_coords) == Some(d.linear_id)
                    &&& d.center == voxel_center_of(self.parent.spec_voxel_size(), d.grid_coords)
                },
    {
        proof {
            use_type_invariant(self.parent);
        }
        let data = &self.parent.data;
        let n = data.len();
        let lo = if self.my_id < n / CHUNK_LEN + 1 && self.my_id * CHUNK_LEN < n {
            self.my_id * CHUNK_LEN
        } else {
            n
        };
        let hi = if lo == n || n - lo <= CHUNK_LEN {
            n
        } else {
            lo + CHUNK_LEN
        };
        assert(lo == n ==> !(self.my_id * CHUNK_LEN < n)) by (nonlinear_arith)
            requires
                lo == n ==> !(self.my_id < n / CHUNK_LEN + 1 && self.my_id * CHUNK_LEN < n),
                CHUNK_LEN == 64,
        ;
        let mut out: Vec<VoxelData> = Vec::new();
        let mut i = lo;
        while i < hi
            invariant
                lo <= i <= hi <= n,
                n == data@.len(),
                out@ == data@.subrange(lo as int, i as int),
            decreases hi - i,
        {
            out.push(data[i]);
            proof {
                assert(out@ =~= data@.subrange(lo as int, i + 1));
            }
            i = i + 1;
        }
        proof {
            assert(out@ =~= self.spec_voxels());
            assert forall|l: int| 0 <= l < out@.len() implies {
                let d = #[trigger] out@[l];
                &&& !d.state.spec_is_empty()
                &&& self.parent.spec_voxel_state(d.grid_coords) == Some(d.state)
                &&& self.parent.spec_linear_id(d.grid_coords) == Some(d.linear_id)
                &&& d.center == voxel_center_of(self.parent.spec_voxel_size(), d.grid_coords)
            } by {
                assert(out@[l] == data@[lo + l]);
                self.parent.lemma_key_index(lo + l);
            }
        }
        out
    }

    /// Projects a point on the voxels of this chunk, and gives the linear id
    /// of the voxel it projects on: the first voxel of the chunk among the
    /// closest ones; `None` for a chunk without voxels.
    pub fn project_local_point_and_get_vox_id(&self, pt: Vector, solid: bool) -> (r: Option<
        (PointProjection, u32),
    >)
        requires
            vector_ok(pt),
        ensures
            match r {
                None => self.spec_voxels().len() == 0,
                Some((proj, id)) => exists|j: int|
                    0 <= j < self.spec_voxels().len() && proj == voxel_projection(
                        self.parent,
                        self.spec_voxels()[j].grid_coords,
                        pt,
                        solid,
                    ) && id == self.spec_voxels()[j].linear_id && (forall|l: int|
                        0 <= l < self.spec_voxels().len() ==> dist2(proj.point, pt) <= dist2(
                            voxel_projection(
                                self.parent,
                                #[trigger] self.spec_voxels()[l].grid_coords,
                                pt,
                                solid,
                            ).point,
                            pt,
                        )) && (forall|l: int|
                        0 <= l < j ==> dist2(proj.point, pt) < dist2(
                            voxel_projection(
                                self.parent,
                                #[trigger] self.spec_voxels()[l].grid_coords,
                                pt,
                                solid,
                            ).point,
                            pt,
                        )),
            },
    {
        proof {
            use_type_invariant(self.parent);
        }
        let size = self.parent.voxel_size();
        let base_cuboid = Cuboid::new(Vector { x: size.x / 2, y: size.y / 2, z: size.z / 2 });
        let vs = self.voxels();
        let mut smallest_dist: i128 = i128::MAX;
        let mut result = PointProjection::new(false, pt);
        let mut result_vox_id: u32 = 0;
        let ghost mut best_j: int = -1;
        let n = vs.len();
        let mut i: usize = 0;
        while i < n
            invariant
                n == vs@.len(),
                vs@ == self.spec_voxels(),
                0 <= i <= n,
                size == self.parent.spec_voxel_size(),
                valid_voxel_size(size),
                vector_ok(pt),
                base_cuboid.half_extents == half_size(size),
                forall|l: int|
                    0 <= l < n ==> (#[trigger] vs@[l]).center == voxel_center_of(
                        size,
                        vs@[l].grid_coords,
                    ),
                (i == 0) == (smallest_dist == i128::MAX),
                i > 0 ==> 0 <= best_j < i && result == voxel_projection(
                    self.parent,
                    vs@[best_j].grid_coords,
                    pt,
                    solid,
                ) && result_vox_id == vs@[best_j].linear_id && smallest_dist == dist2(
                    result.point,
                    pt,
                ),
                forall|l: int|
                    0 <= l < i ==> smallest_dist <= dist2(
                        voxel_projection(self.parent, (#[trigger] vs@[l]).grid_coords, pt, solid).point,
                        pt,
                    ),
                i > 0 ==> forall|l: int|
                    0 <= l < best_j ==> smallest_dist < dist2(
                        voxel_projection(self.parent, (#[trigger] vs@[l]).grid_coords, pt, solid).point,
                        pt,
                    ),
            decreases n - i,
        {
            let vox = vs[i];
            let (candidate, candidate_dist) = project_on_voxel(self.parent, &base_cuboid, &vox, pt, solid);
            if candidate_dist < smallest_dist {
                result = candidate;
                result_vox_id = vox.linear_id;
                smallest_dist = candidate_dist;
                proof {
                    best_j = i as int;
                }
            }
            i = i + 1;
        }
        if smallest_dist < i128::MAX {
            Some((result, result_vox_id))
        } else {
            None
        }
    }
}


/// The projection on a shape agrees with the projection on its voxels found
/// by the generic search: the same answer where there is no voxel, and the
/// same distance to the point otherwise.
pub proof fn lemma_shape_projection_agrees<Q: VoxelQuery + ?Sized>(
    q: &Q,
    pt: Vector,
    solid: bool,
    p: PointProjection,
    r: Option<(PointProjection, u32)>,
)
    requires
        is_shape_projection(q, pt, solid, p),
        is_voxels_projection(q, pt, solid, r),
    ensures
        r is None ==> p == (PointProjection {
            is_inside: false,
            point: Vector { x: i64::MAX, y: i64::MAX, z: i64::MAX },
        }),
        r is Some ==> dist2(p.point, pt) == dist2(r.unwrap().0.point, pt),
{
    if r is Some {
        let k1 = choose|k: IVector|
            #![trigger q.spec_voxel_state(k)]
            is_closest_voxel(q, pt, solid, k) && r.unwrap().0 == voxel_projection(q, k, pt, solid)
                && r.unwrap().1 == id_or_zero(q.spec_linear_id(k));
        assert(filled(q.spec_voxel_state(k1)));
        let k2 = choose|k: IVector|
            #![trigger q.spec_voxel_state(k)]
            is_closest_voxel(q, pt, solid, k) && p == voxel_projection(q, k, pt, solid);
        assert(filled(q.spec_voxel_state(k2)));
    }
}


/// The state of every filled voxel of a shape records exactly which of its
/// six axis-aligned neighbors are filled: over the stored keys, which are the
/// filled voxels (as `voxel_state` ensures), the neighborhood mask is the mask
/// of the filled neighbors.
pub proof fn lemma_voxels_neighbor_masks(v: &Voxels, k: IVector)
    requires
        forall|n: IVector| #[trigger] v.stored_keys().contains(n) <==> filled(v.spec_voxel_state(n)),
    ensures
        neighbor_mask(v.stored_keys(), k) == filled_neighbor_mask(v, k),
{
    assert(v.stored_keys().contains(neighbor(k, 0, -1)) == filled(v.spec_voxel_state(neighbor(k, 0, -1))));
    assert(v.stored_keys().contains(neighbor(k, 1, 1)) == filled(v.spec_voxel_state(neighbor(k, 1, 1))));
    assert(v.stored_keys().contains(neighbor(k, 1, -1)) == filled(v.spec_voxel_state(neighbor(k, 1, -1))));
    assert(v.stored_keys().contains(neighbor(k, 2, 1)) == filled(v.spec_voxel_state(neighbor(k, 2, 1))));
    assert(v.stored_keys().contains(neighbor(k, 2, -1)) == filled(v.spec_voxel_state(neighbor(k, 2, -1))));
    assert(v.stored_keys().contains(neighbor(k, 0, 1)) == filled(v.spec_voxel_state(neighbor(k, 0, 1))));
}


/// Where one filled voxel is strictly closer than every other, the shape
/// projection and the generic search give the same projection: the one on
/// that voxel.
pub proof fn lemma_unique_closest_same_projection<Q: VoxelQuery + ?Sized>(
    q: &Q,
    pt: Vector,
    solid: bool,
    p: PointProjection,
    r: Option<(PointProjection, u32)>,
    k0: IVector,
)
    requires
        is_shape_projection(q, pt, solid, p),
        is_voxels_projection(q, pt, solid, r),
        filled(q.spec_voxel_state(k0)),
        forall|k: IVector|
            #![trigger q.spec_voxel_state(k)]
            filled(q.spec_voxel_state(k)) && k != k0 ==> dist2(
                voxel_projection(q, k0, pt, solid).point,
                pt,
            ) < dist2(voxel_projection(q, k, pt, solid).point, pt),
    ensures
        p == voxel_projection(q, k0, pt, solid),
        r == Some((p, id_or_zero(q.spec_linear_id(k0)))),
{
    lemma_unique_closest_voxel(q, pt, solid, r, k0);
    let k = choose|k: IVector|
        #![trigger q.spec_voxel_state(k)]
        is_closest_voxel(q, pt, solid, k) && p == voxel_projection(q, k, pt, solid);
    assert(q.spec_voxel_state(k0) == q.spec_voxel_state(k0));
    assert(k == k0);
}

} // verus!
