//! A single chunk of the voxel world: 62^3 voxels plus one voxel of padding
//! on every side (64^3 in all), with bit masks of its opaque and transparent
//! voxels for meshing.

pub mod padded;
pub mod unpadded;

use vstd::prelude::*;

verus! {

pub type Scalar = i32;

} // verus!

use bevy_platform::collections::HashMap;
use bevy_platform::hash::FixedHasher;

use crate::math::IVec3;
use crate::voxel::voxel::{spec_from_id, Voxel};

verus! {

/// Number of voxels in a padded chunk (64^3).
pub open spec fn spec_padded_len() -> int {
    262144
}

/// Number of mask words in a padded chunk (64^2), one per XY column.
pub open spec fn spec_mask_len() -> int {
    4096
}

/// Whether the voxel with this id is see-through.
pub open spec fn id_transparent(id: u16) -> bool {
    id == 0 || id == 2 || id == 7 || id == 8
}

/// Bit `b` of a mask word.
pub open spec fn mask_bit(w: u64, b: int) -> bool {
    (w >> (b as u64)) & 1u64 == 1u64
}

/// The key a health entry is stored under.
pub open spec fn key3(p: [Scalar; 3]) -> (i32, i32, i32) {
    (p[0], p[1], p[2])
}

#[verifier::external_type_specification]
#[verifier::external_body]
pub struct ExFixedHasher(FixedHasher);

#[verifier::external_type_specification]
#[verifier::external_body]
#[verifier::reject_recursive_types(K)]
#[verifier::reject_recursive_types(V)]
#[verifier::reject_recursive_types(S)]
pub struct ExPlatformHashMap<K, V, S>(HashMap<K, V, S>);

/// Health overrides by padded coordinate.
pub type HealthTable = HashMap<(i32, i32, i32), i16, FixedHasher>;

/// What a health table holds: health by padded coordinate.
pub uninterp spec fn health_table_entries(m: HealthTable) -> Map<(i32, i32, i32), i16>;

/// `HashMap::new`: an empty table.
#[verifier::external_body]
fn health_table_new() -> (r: HealthTable)
    ensures
        health_table_entries(r) =~= Map::empty(),
{
    HashMap::new()
}

/// `HashMap::get`: the health stored under the key, if any.
#[verifier::external_body]
fn health_table_get(m: &HealthTable, key: (i32, i32, i32)) -> (r: Option<i16>)
    ensures
        r == if health_table_entries(*m).dom().contains(key) {
            Some(health_table_entries(*m)[key])
        } else {
            None
        },
{
    m.get(&key).copied()
}

/// `HashMap::insert`: the key now maps to the value, the other entries
/// stay.
#[verifier::external_body]
fn health_table_insert(m: &mut HealthTable, key: (i32, i32, i32), value: i16)
    ensures
        health_table_entries(*final(m)) == health_table_entries(*old(m)).insert(key, value),
{
    m.insert(key, value);
}

/// `HashMap::remove`: the key maps to nothing, the other entries stay.
#[verifier::external_body]
fn health_table_remove(m: &mut HealthTable, key: (i32, i32, i32))
    ensures
        health_table_entries(*final(m)) == health_table_entries(*old(m)).remove(key),
{
    m.remove(&key);
}

/// `Clone::clone` of a table: a table with the same entries.
#[verifier::external_body]
fn health_table_clone(m: &HealthTable) -> (r: HealthTable)
    ensures
        health_table_entries(r) == health_table_entries(*m),
{
    m.clone()
}

/// Whether a point lies in the 62^3 interior coordinates of a chunk.
pub open spec fn in_unpadded_bounds(x: int, y: int, z: int) -> bool {
    0 <= x < 62 && 0 <= y < 62 && 0 <= z < 62
}

/// Whether a point lies in the 64^3 padded coordinates of a chunk.
pub open spec fn in_padded_bounds(x: int, y: int, z: int) -> bool {
    0 <= x < 64 && 0 <= y < 64 && 0 <= z < 64
}

/// Linear index of a padded coordinate.
pub open spec fn padded_index(x: int, y: int, z: int) -> int {
    z + x * 64 + y * 4096
}

pub proof fn lemma_bit_set_clear(w: u64, b: u64, q: u64)
    requires
        b < 64,
        q < 64,
    ensures
        (((w | (1u64 << b)) >> q) & 1u64 == 1u64) == (q == b || (w >> q) & 1u64 == 1u64),
        (((w & !(1u64 << b)) >> q) & 1u64 == 1u64) == (q != b && (w >> q) & 1u64 == 1u64),
{
    assert((((w | (1u64 << b)) >> q) & 1u64 == 1u64) == (q == b || (w >> q) & 1u64 == 1u64))
        by (bit_vector)
        requires b < 64, q < 64;
    assert((((w & !(1u64 << b)) >> q) & 1u64 == 1u64) == (q != b && (w >> q) & 1u64 == 1u64))
        by (bit_vector)
        requires b < 64, q < 64;
}

pub proof fn lemma_zero_word_bits(q: u64)
    requires
        q < 64,
    ensures
        !((0u64 >> q) & 1u64 == 1u64),
{
    assert(!((0u64 >> q) & 1u64 == 1u64)) by (bit_vector);
}

/// Single voxel chunk, 64^3 (1 padding on the edges for meshing).
#[derive(Debug)]
pub struct VoxelChunk {
    /// Voxel ids, padded::ARR_STRIDE long.
    pub voxels: Vec<u16>,
    /// padded::SIZE^2 long, bit masks of the opaque voxels of each column.
    pub opaque_mask: Vec<u64>,
    /// padded::SIZE^2 long, bit masks of the transparent voxels of each column.
    pub transparent_mask: Vec<u64>,
    /// Voxel health, for the points whose health differs from the starting one.
    pub health: HealthTable,
}

impl Clone for VoxelChunk {
    fn clone(&self) -> (r: Self)
        ensures
            r.voxels@ == self.voxels@,
            r.opaque_mask@ == self.opaque_mask@,
            r.transparent_mask@ == self.transparent_mask@,
            r.health_map() == self.health_map(),
    {
        VoxelChunk {
            voxels: self.voxels.clone(),
            opaque_mask: self.opaque_mask.clone(),
            transparent_mask: self.transparent_mask.clone(),
            health: health_table_clone(&self.health),
        }
    }
}

impl VoxelChunk {
    /// Health overrides by padded coordinate.
    pub closed spec fn health_map(&self) -> Map<(i32, i32, i32), i16> {
        health_table_entries(self.health)
    }

    /// The id stored at a padded coordinate.
    pub open spec fn id_at(&self, x: int, y: int, z: int) -> u16 {
        self.voxels@[padded_index(x, y, z)]
    }

    /// The voxel stored at a padded coordinate.
    pub open spec fn padded_voxel(&self, x: int, y: int, z: int) -> Voxel {
        spec_from_id(self.id_at(x, y, z) as int).unwrap()
    }

    /// The voxel at an interior (unpadded) coordinate.
    pub open spec fn voxel_at(&self, x: int, y: int, z: int) -> Voxel {
        self.padded_voxel(x + 1, y + 1, z + 1)
    }

    /// Well-formedness: sizes, valid ids and masks that agree with the
    /// voxels.
    pub open spec fn wf(&self) -> bool {
        &&& self.voxels@.len() == spec_padded_len()
        &&& self.opaque_mask@.len() == spec_mask_len()
        &&& self.transparent_mask@.len() == spec_mask_len()
        &&& forall|i: int| 0 <= i < spec_padded_len() ==> #[trigger] self.voxels@[i] < 9
        &&& forall|r: int, q: int|
            0 <= r < spec_mask_len() && 0 <= q < 64 ==> (#[trigger] mask_bit(self.opaque_mask@[r], q)
                == !id_transparent(self.voxels@[r * 64 + q]))
        &&& forall|r: int, q: int|
            0 <= r < spec_mask_len() && 0 <= q < 64 && #[trigger] mask_bit(self.transparent_mask@[r], q)
                ==> id_transparent(self.voxels@[r * 64 + q])
    }

    /// Whether two chunks hold the same voxels, masks and health entries.
    pub open spec fn same_parts(&self, other: VoxelChunk) -> bool {
        &&& self.voxels@ == other.voxels@
        &&& self.opaque_mask@ == other.opaque_mask@
        &&& self.transparent_mask@ == other.transparent_mask@
        &&& self.health_map() == other.health_map()
    }

    /// A chunk with the same voxels, masks and health entries as a
    /// well-formed chunk is well-formed.
    pub proof fn lemma_same_parts_wf(&self, other: VoxelChunk)
        requires
            other.wf(),
            self.voxels@ == other.voxels@,
            self.opaque_mask@ == other.opaque_mask@,
            self.transparent_mask@ == other.transparent_mask@,
            self.health_map() == other.health_map(),
        ensures
            self.wf(),
    {
    }


    pub fn new() -> (r: Self)
        ensures
            r.wf(),
            forall|i: int| 0 <= i < spec_padded_len() ==> r.voxels@[i] == 0,
            forall|r2: int| 0 <= r2 < spec_mask_len() ==> r.opaque_mask@[r2] == 0 && r.transparent_mask@[r2] == 0,
            r.health_map() == Map::<(i32, i32, i32), i16>::empty(),
    {
        Self::default()
    }

    pub fn default() -> (r: Self)
        ensures
            r.wf(),
            forall|i: int| 0 <= i < spec_padded_len() ==> r.voxels@[i] == 0,
            forall|r2: int| 0 <= r2 < spec_mask_len() ==> r.opaque_mask@[r2] == 0 && r.transparent_mask@[r2] == 0,
            r.health_map() == Map::<(i32, i32, i32), i16>::empty(),
    {
        let r = VoxelChunk {
            voxels: vec![Voxel::Air.id(); padded::ARR_STRIDE],
            opaque_mask: vec![0u64; padded::SIZE * padded::SIZE],
            transparent_mask: vec![0u64; padded::SIZE * padded::SIZE],
            health: health_table_new(),
        };
        proof {
            assert forall|r2: int, q: int| 0 <= r2 < spec_mask_len() && 0 <= q < 64 implies
                (#[trigger] mask_bit(r.opaque_mask@[r2], q) == !id_transparent(r.voxels@[r2 * 64 + q]))
            by {
                lemma_zero_word_bits(q as u64);
                assert(0 <= r2 * 64 + q < 262144) by (nonlinear_arith)
                    requires 0 <= r2 < 4096, 0 <= q < 64 {}
            }
            assert forall|r2: int, q: int| 0 <= r2 < spec_mask_len() && 0 <= q < 64 implies
                !#[trigger] mask_bit(r.transparent_mask@[r2], q)
            by {
                lemma_zero_word_bits(q as u64);
            }
            assert(r.health_map() =~= Map::<(i32, i32, i32), i16>::empty());
        }
        r
    }
}


/// A padded coordinate's index splits into its column word and its z bit.
pub proof fn lemma_padded_index_split(x: int, y: int, z: int)
    requires
        in_padded_bounds(x, y, z),
    ensures
        0 <= padded_index(x, y, z) < 262144,
        padded_index(x, y, z) / 64 == x + y * 64,
        padded_index(x, y, z) % 64 == z,
        0 <= x + y * 64 < 4096,
{
    let i = padded_index(x, y, z);
    assert(i / 64 == x + y * 64 && i % 64 == z) by (nonlinear_arith)
        requires i == z + x * 64 + y * 4096, 0 <= z < 64, 0 <= x, 0 <= y {}
}

/// A word index and bit name exactly one padded index.
pub proof fn lemma_word_bit_injective(r1: int, q1: int, r2: int, q2: int)
    requires
        0 <= q1 < 64,
        0 <= q2 < 64,
        r1 * 64 + q1 == r2 * 64 + q2,
    ensures
        r1 == r2,
        q1 == q2,
{
    assert(r1 == r2 && q1 == q2) by (nonlinear_arith)
        requires 0 <= q1 < 64, 0 <= q2 < 64, r1 * 64 + q1 == r2 * 64 + q2 {}
}

impl VoxelChunk {
    /// Is this point within the bounds of this grid (interior coordinates)?
    pub fn in_chunk_bounds(&self, point: IVec3) -> (r: bool)
        ensures
            r == in_unpadded_bounds(point.x as int, point.y as int, point.z as int),
    {
        point.x >= 0 && point.y >= 0 && point.z >= 0 && point.x < self.x_size()
            && point.y < self.y_size() && point.z < self.z_size()
    }

    /// Is this point within the padded bounds of this grid?
    pub fn in_chunk_bounds_unpadded(&self, point: IVec3) -> (r: bool)
        ensures
            r == in_padded_bounds(point.x as int, point.y as int, point.z as int),
    {
        point.x >= 0 && point.y >= 0 && point.z >= 0 && point.x < padded::SIZE_SCALAR
            && point.y < padded::SIZE_SCALAR && point.z < padded::SIZE_SCALAR
    }

    pub fn array_size(&self) -> (r: usize)
        ensures
            r == 238328,
    {
        unpadded::ARR_STRIDE
    }

    pub fn x_size(&self) -> (r: Scalar)
        ensures
            r == 62,
    {
        unpadded::SIZE_SCALAR
    }

    pub fn y_size(&self) -> (r: Scalar)
        ensures
            r == 62,
    {
        unpadded::SIZE_SCALAR
    }

    pub fn z_size(&self) -> (r: Scalar)
        ensures
            r == 62,
    {
        unpadded::SIZE_SCALAR
    }

    pub fn chunk_bounds(&self) -> (r: [Scalar; 3])
        ensures
            r[0] == 62 && r[1] == 62 && r[2] == 62,
    {
        [self.x_size(), self.y_size(), self.z_size()]
    }

    /// Half the chunk height, rounded up.
    pub fn ground_level(&self) -> (r: Scalar)
        ensures
            r == 31,
    {
        (self.y_size() + 1) / 2
    }

    /// The voxel stored at a linear padded index.
    pub fn voxel_from_index(&self, index: usize) -> (r: Voxel)
        requires
            self.wf(),
            index < spec_padded_len(),
        ensures
            r == spec_from_id(self.voxels@[index as int] as int).unwrap(),
    {
        match Voxel::from_id(self.voxels[index]) {
            Some(v) => v,
            None => Voxel::Air,
        }
    }

    /// The voxel at an interior point, or `None` outside the 62^3 interior.
    pub fn get_voxel(&self, point: [Scalar; 3]) -> (r: Option<Voxel>)
        requires
            self.wf(),
        ensures
            r == if in_unpadded_bounds(point[0] as int, point[1] as int, point[2] as int) {
                Some(self.voxel_at(point[0] as int, point[1] as int, point[2] as int))
            } else {
                None
            },
    {
        if !self.in_chunk_bounds(IVec3::from_array(point)) {
            return None;
        }
        Some(self.voxel_from_index(padded::pad_linearize(point)))
    }

    /// The voxel at an interior point.
    pub fn voxel(&self, point: [Scalar; 3]) -> (r: Voxel)
        requires
            self.wf(),
            in_unpadded_bounds(point[0] as int, point[1] as int, point[2] as int),
        ensures
            r == self.voxel_at(point[0] as int, point[1] as int, point[2] as int),
    {
        self.voxel_from_index(padded::pad_linearize(point))
    }

    /// Set the voxel at an interior point (and its masks), forgetting its
    /// health.
    pub fn set(&mut self, point: [Scalar; 3], voxel: Voxel)
        requires
            old(self).wf(),
            in_unpadded_bounds(point[0] as int, point[1] as int, point[2] as int),
        ensures
            final(self).wf(),
            final(self).voxels@ == old(self).voxels@.update(
                padded_index(point[0] + 1, point[1] + 1, point[2] + 1),
                voxel.spec_id(),
            ),
            final(self).health_map() == old(self).health_map().remove(
                ((point[0] + 1) as i32, (point[1] + 1) as i32, (point[2] + 1) as i32),
            ),
            ({
                let k = padded_index(point[0] + 1, point[1] + 1, point[2] + 1);
                let mi = k / 64;
                let m = 1u64 << ((k % 64) as u64);
                &&& final(self).transparent_mask@ == old(self).transparent_mask@.update(mi,
                    if voxel.spec_transparent() { old(self).transparent_mask@[mi] | m } else { old(self).transparent_mask@[mi] & !m })
                &&& final(self).opaque_mask@ == old(self).opaque_mask@.update(mi,
                    if voxel.spec_transparent() { old(self).opaque_mask@[mi] & !m } else { old(self).opaque_mask@[mi] | m })
            }),
    {
        let padded_point = [point[0] + 1, point[1] + 1, point[2] + 1];
        self.set_unpadded(padded_point, voxel);
    }

    /// Set the voxel at a padded coordinate (and its masks), forgetting its
    /// health.
    pub fn set_unpadded(&mut self, point: [Scalar; 3], voxel: Voxel)
        requires
            old(self).wf(),
            in_padded_bounds(point[0] as int, point[1] as int, point[2] as int),
        ensures
            final(self).wf(),
            final(self).voxels@ == old(self).voxels@.update(
                padded_index(point[0] as int, point[1] as int, point[2] as int),
                voxel.spec_id(),
            ),
            final(self).health_map() == old(self).health_map().remove(key3(point)),
            ({
                let k = padded_index(point[0] as int, point[1] as int, point[2] as int);
                let mi = k / 64;
                let m = 1u64 << ((k % 64) as u64);
                &&& final(self).transparent_mask@ == old(self).transparent_mask@.update(mi,
                    if voxel.spec_transparent() { old(self).transparent_mask@[mi] | m } else { old(self).transparent_mask@[mi] & !m })
                &&& final(self).opaque_mask@ == old(self).opaque_mask@.update(mi,
                    if voxel.spec_transparent() { old(self).opaque_mask@[mi] & !m } else { old(self).opaque_mask@[mi] | m })
            }),
    {
        let index = padded::linearize(point);
        proof {
            lemma_padded_index_split(point[0] as int, point[1] as int, point[2] as int);
        }
        self.clear_health(point);
        self.voxels.set(index, voxel.id());
        let t = voxel.transparent();
        let ghost mid = *self;
        self.set_masks(point, t);
        proof {
            let k = index as int;
            let mi = k / 64;
            let b = k % 64;
            assert forall|r: int, q: int| 0 <= r < spec_mask_len() && 0 <= q < 64 implies
                (#[trigger] mask_bit(self.opaque_mask@[r], q) == !id_transparent(self.voxels@[r * 64 + q]))
            by {
                lemma_bit_set_clear(mid.opaque_mask@[mi], b as u64, q as u64);
                if r == mi && q == b {
                    assert(r * 64 + q == k);
                } else {
                    if r * 64 + q == k {
                        lemma_word_bit_injective(r, q, mi, b);
                    }
                    assert(mask_bit(old(self).opaque_mask@[r], q) == !id_transparent(old(self).voxels@[r * 64 + q]));
                }
            }
            assert forall|r: int, q: int| 0 <= r < spec_mask_len() && 0 <= q < 64
                && #[trigger] mask_bit(self.transparent_mask@[r], q) implies
                id_transparent(self.voxels@[r * 64 + q])
            by {
                lemma_bit_set_clear(mid.transparent_mask@[mi], b as u64, q as u64);
                if r == mi && q == b {
                    assert(r * 64 + q == k);
                } else {
                    if r * 64 + q == k {
                        lemma_word_bit_injective(r, q, mi, b);
                    }
                    assert(mask_bit(old(self).transparent_mask@[r], q));
                }
            }
            assert forall|i: int| 0 <= i < spec_padded_len() implies #[trigger] self.voxels@[i] < 9 by {
                if i != k {
                    assert(self.voxels@[i] == old(self).voxels@[i]);
                }
            }
        }
    }

    /// Update the two mask bits of a padded coordinate.
    pub fn set_masks(&mut self, padded_point: [Scalar; 3], transparent: bool)
        requires
            old(self).opaque_mask@.len() == spec_mask_len(),
            old(self).transparent_mask@.len() == spec_mask_len(),
            in_padded_bounds(padded_point[0] as int, padded_point[1] as int, padded_point[2] as int),
        ensures
            ({
                let k = padded_index(padded_point[0] as int, padded_point[1] as int, padded_point[2] as int);
                let mi = k / 64;
                let m = 1u64 << ((k % 64) as u64);
                &&& final(self).transparent_mask@ == old(self).transparent_mask@.update(mi,
                    if transparent { old(self).transparent_mask@[mi] | m } else { old(self).transparent_mask@[mi] & !m })
                &&& final(self).opaque_mask@ == old(self).opaque_mask@.update(mi,
                    if transparent { old(self).opaque_mask@[mi] & !m } else { old(self).opaque_mask@[mi] | m })
            }),
            final(self).voxels@ == old(self).voxels@,
            final(self).health_map() == old(self).health_map(),
    {
        let padded_index = padded::linearize(padded_point);
        proof {
            lemma_padded_index_split(padded_point[0] as int, padded_point[1] as int, padded_point[2] as int);
        }
        let mask_index = padded_index / padded::SIZE;
        let mask_bit = padded_index % padded::SIZE;
        let mask = 1u64 << (mask_bit as u64);
        if transparent {
            let t = self.transparent_mask[mask_index] | mask;
            self.transparent_mask.set(mask_index, t);
            let o = self.opaque_mask[mask_index] & !mask;
            self.opaque_mask.set(mask_index, o);
        } else {
            let t = self.transparent_mask[mask_index] & !mask;
            self.transparent_mask.set(mask_index, t);
            let o = self.opaque_mask[mask_index] | mask;
            self.opaque_mask.set(mask_index, o);
        }
    }

    /// The health of an interior point: its stored override, else the
    /// starting health of the voxel there.
    pub fn health(&self, point: [Scalar; 3]) -> (r: i16)
        requires
            self.wf(),
            self.health_map().dom().contains(key3(point))
                || in_unpadded_bounds(point[0] as int, point[1] as int, point[2] as int),
        ensures
            r == if self.health_map().dom().contains(key3(point)) {
                self.health_map()[key3(point)]
            } else {
                self.voxel_at(point[0] as int, point[1] as int, point[2] as int).spec_initial_health()
            },
    {
        match health_table_get(&self.health, (point[0], point[1], point[2])) {
            Some(h) => h,
            None => self.voxel(point).starting_health(),
        }
    }

    /// Override the health stored for a point.
    pub fn set_health(&mut self, point: [Scalar; 3], health: i16)
        requires
            old(self).wf(),
        ensures
            final(self).wf(),
            final(self).voxels@ == old(self).voxels@,
            final(self).opaque_mask@ == old(self).opaque_mask@,
            final(self).transparent_mask@ == old(self).transparent_mask@,
            final(self).health_map() == old(self).health_map().insert(key3(point), health),
    {
        health_table_insert(&mut self.health, (point[0], point[1], point[2]), health);
    }

    /// Forget the health stored for a point.
    pub fn clear_health(&mut self, point: [Scalar; 3])
        requires
            old(self).wf(),
        ensures
            final(self).wf(),
            final(self).voxels@ == old(self).voxels@,
            final(self).opaque_mask@ == old(self).opaque_mask@,
            final(self).transparent_mask@ == old(self).transparent_mask@,
            final(self).health_map() == old(self).health_map().remove(key3(point)),
    {
        health_table_remove(&mut self.health, (point[0], point[1], point[2]));
    }
}

/// The coordinates of a point array.
pub open spec fn pt3(a: [Scalar; 3]) -> (int, int, int) {
    (a[0] as int, a[1] as int, a[2] as int)
}

/// Whether a point array holds the `j`-th point of the iteration order.
pub open spec fn is_iter_point(a: [Scalar; 3], j: int) -> bool {
    pt3(a) == iter_point(j)
}

/// The `j`-th point of the iteration order over a chunk's interior: x fastest,
/// then z, then y (the storage order).
pub open spec fn iter_point(j: int) -> (int, int, int) {
    (j % 62, j / 3844, (j / 62) % 62)
}

pub proof fn lemma_iter_point(x: int, y: int, z: int)
    requires
        0 <= x < 62,
        0 <= z < 62,
        0 <= y,
    ensures
        iter_point(x + 62 * z + 3844 * y) == (x, y, z),
{
    let j = x + 62 * z + 3844 * y;
    assert(j % 62 == x && j / 3844 == y && (j / 62) % 62 == z) by (nonlinear_arith)
        requires j == x + 62 * z + 3844 * y, 0 <= x < 62, 0 <= z < 62, 0 <= y {}
}

/// A well-formed chunk's opaque mask has bit `q` of word `r` set exactly when
/// the voxel at padded index `64 * r + q` is neither air nor transparent: the
/// mask a mesher computes from the voxels alone.
pub proof fn lemma_opaque_mask_matches_voxels(chunk: &VoxelChunk)
    requires
        chunk.wf(),
    ensures
        forall|r: int, q: int| 0 <= r < spec_mask_len() && 0 <= q < 64 ==>
            (#[trigger] mask_bit(chunk.opaque_mask@[r], q) <==> (chunk.voxels@[r * 64 + q] != 0
                && !id_transparent(chunk.voxels@[r * 64 + q]))),
{
}

impl VoxelChunk {
    /// Whether an entry holds the `j`-th point of the iteration order and
    /// its voxel.
    pub open spec fn is_voxel_entry(&self, e: ([Scalar; 3], Voxel), j: int) -> bool {
        is_iter_point(e.0, j) && e.1 == self.voxel_at(iter_point(j).0, iter_point(j).1, iter_point(j).2)
    }

    /// Iterate over all interior points of this chunk, x fastest, then z,
    /// then y (the same order as stored, for the cache).
    pub fn point_iter(&self) -> (r: Vec<[Scalar; 3]>)
        ensures
            r@.len() == 238328,
            forall|j: int| 0 <= j < 238328 ==> #[trigger] is_iter_point(r@[j], j),
    {
        let mut pts: Vec<[Scalar; 3]> = Vec::new();
        let mut x: Scalar = 0;
        let mut y: Scalar = 0;
        let mut z: Scalar = 0;
        while y < unpadded::SIZE_SCALAR
            invariant
                0 <= x < 62,
                0 <= z < 62,
                0 <= y <= 62,
                y == 62 ==> x == 0 && z == 0,
                pts@.len() == x + 62 * z + 3844 * y,
                forall|j: int| 0 <= j < pts@.len() ==> #[trigger] is_iter_point(pts@[j], j),
            decreases 238328 - pts@.len(),
        {
            proof {
                lemma_iter_point(x as int, y as int, z as int);
            }
            let ghost old_pts = pts@;
            pts.push([x, y, z]);
            proof {
                assert forall|j: int| 0 <= j < pts@.len() implies #[trigger] is_iter_point(pts@[j], j) by {
                    if j < old_pts.len() {
                        assert(pts@[j] == old_pts[j]);
                    }
                }
            }
            x += 1;
            if x >= unpadded::SIZE_SCALAR {
                x = 0;
                z += 1;
                if z >= unpadded::SIZE_SCALAR {
                    z = 0;
                    y += 1;
                }
            }
        }
        assert(pts@.len() == 238328);
        pts
    }

    /// Every interior point with its voxel, in `point_iter` order.
    pub fn voxel_iter(&self) -> (r: Vec<([Scalar; 3], Voxel)>)
        requires
            self.wf(),
        ensures
            r@.len() == 238328,
            forall|j: int| 0 <= j < 238328 ==> #[trigger] self.is_voxel_entry(r@[j], j),
    {
        let pts = self.point_iter();
        let mut out: Vec<([Scalar; 3], Voxel)> = Vec::new();
        let mut i: usize = 0;
        while i < pts.len()
            invariant
                pts@.len() == 238328,
                i <= pts@.len(),
                out@.len() == i,
                self.wf(),
                forall|j: int| 0 <= j < 238328 ==> #[trigger] is_iter_point(pts@[j], j),
                forall|j: int| 0 <= j < i ==> #[trigger] self.is_voxel_entry(out@[j], j),
            decreases pts@.len() - i,
        {
            let ghost old_out = out@;
            let p = pts[i];
            proof {
                let j = i as int;
                assert(is_iter_point(pts@[j], j));
                assert(0 <= j % 62 < 62 && 0 <= (j / 62) % 62 < 62 && 0 <= j / 3844 < 62) by (nonlinear_arith)
                    requires 0 <= j < 238328 {}
            }
            let v = self.voxel(p);
            out.push((p, v));
            proof {
                let j = i as int;
                assert(out@[j] == (p, v));
                assert(is_iter_point(p, j));
                assert(v == self.voxel_at(pt3(p).0, pt3(p).1, pt3(p).2));
                assert forall|j2: int| 0 <= j2 < i + 1 implies #[trigger] self.is_voxel_entry(out@[j2], j2) by {
                    if j2 < j {
                        assert(out@[j2] == old_out[j2]);
                        assert(self.is_voxel_entry(old_out[j2], j2));
                    }
                }
            }
            i += 1;
        }
        assert(i == 238328);
        assert(forall|j: int| 0 <= j < i ==> #[trigger] self.is_voxel_entry(out@[j], j));
        assert(out@.len() == 238328);
        out
    }

    /// The topmost non-air voxel of the column at `x`, `z`, with its height.
    pub fn surface_voxel(&self, x: Scalar, z: Scalar) -> (r: Option<(Voxel, Scalar)>)
        requires
            self.wf(),
            0 <= x < 62,
            0 <= z < 62,
        ensures
            match r {
                Some((v, y)) => {
                    &&& 0 <= y < 62
                    &&& v == self.voxel_at(x as int, y as int, z as int)
                    &&& v != Voxel::Air
                    &&& forall|y2: int| y < y2 < 62 ==> self.voxel_at(x as int, y2, z as int) == Voxel::Air
                },
                None => forall|y2: int| 0 <= y2 < 62 ==> self.voxel_at(x as int, y2, z as int) == Voxel::Air,
            },
    {
        let mut y: Scalar = self.y_size();
        while y > 0
            invariant
                0 <= y <= 62,
                self.wf(),
                0 <= x < 62,
                0 <= z < 62,
                forall|y2: int| y <= y2 < 62 ==> self.voxel_at(x as int, y2, z as int) == Voxel::Air,
            decreases y,
        {
            y -= 1;
            let voxel = self.voxel([x, y, z]);
            if voxel != Voxel::Air {
                return Some((voxel, y));
            }
        }
        None
    }
}
} // verus!
