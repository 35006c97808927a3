//! The chunked voxel world: chunks stored by chunk position, each holding a
//! copy of its neighbours' boundary voxels in its padding.

use std::ops::RangeInclusive;

use bevy_platform::collections::HashSet;
use bevy_platform::hash::FixedHasher;
use vstd::prelude::*;

use crate::math::{div_euclid, rem_euclid, IVec3};
use crate::voxel::chunk::{
    iter_point, is_iter_point,
    in_padded_bounds, in_unpadded_bounds, padded, padded_index, unpadded, Scalar, VoxelChunk,
};
use crate::voxel::voxel::{spec_from_id, Voxel};
use crate::voxel::grid::trunc_div;
use crate::voxel::voxel_aabb::VoxelAabb;

verus! {

#[verifier::external_type_specification]
#[verifier::external_body]
#[verifier::reject_recursive_types(T)]
#[verifier::reject_recursive_types(S)]
pub struct ExPlatformHashSet<T, S>(HashSet<T, S>);

/// Chunk positions recorded as changed.
pub type ChangedTable = HashSet<IVec3, FixedHasher>;

/// What a set of changed chunk positions holds.
pub uninterp spec fn changed_table_entries(s: ChangedTable) -> Set<IVec3>;

/// `HashSet::new`: an empty set.
#[verifier::external_body]
fn changed_table_new() -> (r: ChangedTable)
    ensures
        changed_table_entries(r) =~= Set::empty(),
{
    HashSet::new()
}

/// `HashSet::insert`: the position is now in the set, the others stay.
#[verifier::external_body]
fn changed_table_insert(s: &mut ChangedTable, c: IVec3)
    ensures
        changed_table_entries(*final(s)) == changed_table_entries(*old(s)).insert(c),
{
    s.insert(c);
}

/// `HashSet::clear`: the set is empty.
#[verifier::external_body]
fn changed_table_clear(s: &mut ChangedTable)
    ensures
        changed_table_entries(*final(s)) =~= Set::empty(),
{
    s.clear();
}

/// `HashSet::iter`, collected: each position of the set once, in an order
/// that the set's hashing decides and that is left unstated.
#[verifier::external_body]
fn changed_table_items(s: &ChangedTable) -> (r: Vec<IVec3>)
    ensures
        r@.no_duplicates(),
        forall|c: IVec3| #[trigger] r@.contains(c) <==> changed_table_entries(*s).contains(c),
{
    s.iter().copied().collect()
}

/// A voxel position queued for the falling-sands step.
#[derive(Debug, Clone, Copy, PartialEq, Eq, Structural)]
pub struct VoxelUpdate(pub IVec3);

/// One point where two worlds hold different voxels.
#[derive(Debug, Copy, Clone)]
pub struct VoxelDiff {
    pub point: IVec3,
    pub v1: Voxel,
    pub v2: Voxel,
}

/// Chunk coordinates stay well inside `i32` so that chunk origins and
/// neighbouring chunk positions can be computed.
pub open spec fn chunk_key_in_range(c: IVec3) -> bool {
    -34636830 <= c.x <= 34636830 && -34636830 <= c.y <= 34636830 && -34636830 <= c.z <= 34636830
}

/// A world point far enough inside `i32` that its chunk's origin and its
/// neighbouring chunks can be computed.
pub open spec fn point_in_range(p: IVec3) -> bool {
    -2147483000 <= p.x <= 2147483000 && -2147483000 <= p.y <= 2147483000 && -2147483000 <= p.z
        <= 2147483000
}

/// The chunk a world point lies in.
pub open spec fn home_chunk(p: IVec3) -> IVec3 {
    IVec3 { x: (p.x as int / 62) as i32, y: (p.y as int / 62) as i32, z: (p.z as int / 62) as i32 }
}

/// Whether chunk `c` stores point `p` (in its interior or its padding).
pub open spec fn stores(c: IVec3, p: IVec3) -> bool {
    in_padded_bounds(p.x - 62 * c.x + 1, p.y - 62 * c.y + 1, p.z - 62 * c.z + 1)
}

/// Where chunk `c` stores point `p`, as a padded coordinate key.
pub open spec fn loc(c: IVec3, p: IVec3) -> (i32, i32, i32) {
    ((p.x - 62 * c.x + 1) as i32, (p.y - 62 * c.y + 1) as i32, (p.z - 62 * c.z + 1) as i32)
}

/// First chunk coordinate whose padded region may hold coordinate `a`.
pub open spec fn overlap_lo(a: int) -> int {
    (a - 2) / 62
}

/// One past the last chunk coordinate whose padded region may hold `a`.
pub open spec fn overlap_hi(a: int) -> int {
    (a + 2 + 61) / 62
}

/// Whether chunk `c` is one of the chunks visited when setting `p`.
pub open spec fn in_overlap(c: IVec3, p: IVec3) -> bool {
    &&& overlap_lo(p.x as int) <= c.x < overlap_hi(p.x as int)
    &&& overlap_lo(p.y as int) <= c.y < overlap_hi(p.y as int)
    &&& overlap_lo(p.z as int) <= c.z < overlap_hi(p.z as int)
}

/// Every chunk that stores a coordinate lies in its overlap range.
pub proof fn lemma_overlap_axis(c: int, a: int)
    requires
        62 * c - 1 <= a <= 62 * c + 62,
    ensures
        overlap_lo(a) <= c < overlap_hi(a),
{
    let m = (a - 2) / 62;
    let mm = (a + 63) / 62;
    assert(62 * m <= a - 2 < 62 * m + 62) by (nonlinear_arith)
        requires m == (a - 2) / 62 {}
    assert(62 * mm <= a + 63 < 62 * mm + 62) by (nonlinear_arith)
        requires mm == (a + 63) / 62 {}
}

/// The position, relative to chunk `c`, of point `p` in interior coordinates.
pub open spec fn rel(c: IVec3, p: IVec3) -> (int, int, int) {
    (p.x - 62 * c.x, p.y - 62 * c.y, p.z - 62 * c.z)
}

pub proof fn lemma_home_chunk(p: IVec3)
    ensures
        in_unpadded_bounds(rel(home_chunk(p), p).0, rel(home_chunk(p), p).1, rel(home_chunk(p), p).2),
        stores(home_chunk(p), p),
        -34636834 <= home_chunk(p).x <= 34636833,
        -34636834 <= home_chunk(p).y <= 34636833,
        -34636834 <= home_chunk(p).z <= 34636833,
        point_in_range(p) ==> chunk_key_in_range(home_chunk(p)),
        get_ok(p) ==> -34636833 <= home_chunk(p).x && -34636833 <= home_chunk(p).y && -34636833
            <= home_chunk(p).z,
{
    let hx = p.x as int / 62;
    let hy = p.y as int / 62;
    let hz = p.z as int / 62;
    assert(62 * hx <= p.x < 62 * hx + 62 && -34636834 <= hx <= 34636833) by (nonlinear_arith)
        requires hx == p.x as int / 62, i32::MIN <= p.x <= i32::MAX {}
    assert(62 * hy <= p.y < 62 * hy + 62 && -34636834 <= hy <= 34636833) by (nonlinear_arith)
        requires hy == p.y as int / 62, i32::MIN <= p.y <= i32::MAX {}
    assert(62 * hz <= p.z < 62 * hz + 62 && -34636834 <= hz <= 34636833) by (nonlinear_arith)
        requires hz == p.z as int / 62, i32::MIN <= p.z <= i32::MAX {}
}

/// The home chunk is the one chunk whose interior holds the point.
pub proof fn lemma_home_unique(c: IVec3, p: IVec3)
    requires
        in_unpadded_bounds(rel(c, p).0, rel(c, p).1, rel(c, p).2),
    ensures
        c == home_chunk(p),
{
    lemma_home_chunk(p);
    let h = home_chunk(p);
    assert(c.x == h.x);
    assert(c.y == h.y);
    assert(c.z == h.z);
}

pub struct Voxels {
    /// Spatially keyed chunks.
    chunks: Vec<(IVec3, VoxelChunk)>,
    changed_chunks: ChangedTable,
    pub(crate) update_voxels: Vec<VoxelUpdate>,
    clip: VoxelAabb,
}

impl Voxels {
    /// Whether a chunk is stored at chunk position `c`.
    pub closed spec fn has_chunk(&self, c: IVec3) -> bool {
        exists|i: int| 0 <= i < self.chunks@.len() && self.chunks@[i].0 == c
    }

    pub closed spec fn chunk_index(&self, c: IVec3) -> int {
        choose|i: int| 0 <= i < self.chunks@.len() && self.chunks@[i].0 == c
    }

    /// The chunk stored at chunk position `c` (meaningful when there is one).
    pub closed spec fn chunk_of(&self, c: IVec3) -> VoxelChunk {
        self.chunks@[self.chunk_index(c)].1
    }

    /// The positions of the stored chunks.
    pub closed spec fn chunk_keys(&self) -> Set<IVec3> {
        Set::new(|c: IVec3| self.has_chunk(c))
    }

    /// The chunk positions recorded as changed.
    pub closed spec fn changed_set(&self) -> Set<IVec3> {
        changed_table_entries(self.changed_chunks)
    }

    /// The queued voxel updates.
    pub closed spec fn updates(&self) -> Seq<VoxelUpdate> {
        self.update_voxels@
    }

    pub closed spec fn clip_box(&self) -> VoxelAabb {
        self.clip
    }

    /// The voxel chunk `c` stores at padded coordinate `(x, y, z)`; air where
    /// there is no chunk.
    pub open spec fn stored(&self, c: IVec3, x: int, y: int, z: int) -> Voxel {
        if self.has_chunk(c) {
            self.chunk_of(c).padded_voxel(x, y, z)
        } else {
            Voxel::Air
        }
    }

    /// The health overrides of chunk `c`; empty where there is no chunk.
    pub open spec fn chunk_health(&self, c: IVec3) -> Map<(i32, i32, i32), i16> {
        if self.has_chunk(c) {
            self.chunk_of(c).health_map()
        } else {
            Map::empty()
        }
    }

    /// The voxel at a world point: what its home chunk holds there.
    #[verifier::opaque]
    pub open spec fn world(&self, p: IVec3) -> Voxel {
        let c = home_chunk(p);
        self.stored(c, p.x - 62 * c.x + 1, p.y - 62 * c.y + 1, p.z - 62 * c.z + 1)
    }

    /// The voxel at the world point with integer coordinates; air outside
    /// the `i32` range.
    pub open spec fn world_at(&self, x: int, y: int, z: int) -> Voxel {
        if i32::MIN <= x <= i32::MAX && i32::MIN <= y <= i32::MAX && i32::MIN <= z <= i32::MAX {
            self.world(IVec3 { x: x as i32, y: y as i32, z: z as i32 })
        } else {
            Voxel::Air
        }
    }

    /// Every chunk's padding agrees with the world: the voxel a chunk stores
    /// at any padded coordinate is the voxel of the world point there.
    #[verifier::opaque]
    pub open spec fn coherent(&self) -> bool {
        forall|c: IVec3, x: int, y: int, z: int|
            in_padded_bounds(x, y, z) && chunk_key_in_range(c) ==> #[trigger] self.stored(c, x, y, z)
                == self.world_at(62 * c.x + x - 1, 62 * c.y + y - 1, 62 * c.z + z - 1)
    }

    /// Well-formedness of the world.
    pub open spec fn wf(&self) -> bool {
        self.wf_parts() && self.coherent()
    }

    /// Everything of well-formedness but coherence.
    pub closed spec fn wf_parts(&self) -> bool {
        &&& forall|i: int, j: int|
            0 <= i < self.chunks@.len() && 0 <= j < self.chunks@.len() && i != j
                ==> self.chunks@[i].0 != self.chunks@[j].0
        &&& forall|i: int| 0 <= i < self.chunks@.len() ==> (#[trigger] self.chunks@[i]).1.wf()
        &&& forall|i: int| 0 <= i < self.chunks@.len() ==> chunk_key_in_range(#[trigger] self.chunks@[i].0)
    }

    proof fn lemma_chunk_index(&self, i: int)
        requires
            self.wf_parts(),
            0 <= i < self.chunks@.len(),
        ensures
            self.has_chunk(self.chunks@[i].0),
            self.chunk_index(self.chunks@[i].0) == i,
            self.chunk_of(self.chunks@[i].0) == self.chunks@[i].1,
            self.chunk_of(self.chunks@[i].0).wf(),
    {
        let c = self.chunks@[i].0;
        assert(self.has_chunk(c));
        let j = self.chunk_index(c);
        if j != i {
            assert(self.chunks@[j].0 != self.chunks@[i].0);
        }
        assert(self.chunks@[i].1.wf());
    }

    proof fn lemma_has_chunk_wf(&self, c: IVec3)
        requires
            self.wf_parts(),
            self.has_chunk(c),
        ensures
            self.chunk_of(c).wf(),
            0 <= self.chunk_index(c) < self.chunks@.len(),
            self.chunks@[self.chunk_index(c)].0 == c,
            chunk_key_in_range(c),
    {
        let i = self.chunk_index(c);
        self.lemma_chunk_index(i);
        assert(chunk_key_in_range(self.chunks@[i].0));
    }

    /// An empty world.
    pub fn new() -> (r: Self)
        ensures
            r.wf(),
            r.chunk_keys() == Set::<IVec3>::empty(),
            r.changed_set() == Set::<IVec3>::empty(),
            r.updates() == Seq::<VoxelUpdate>::empty(),
            forall|p: IVec3| #[trigger] r.world(p) == Voxel::Air,
    {
        let r = Voxels {
            chunks: Vec::new(),
            changed_chunks: changed_table_new(),
            update_voxels: Vec::new(),
            clip: VoxelAabb { min: IVec3::new(-1000, -100, -1000), max: IVec3::new(1000, 300, 1000) },
        };
        assert(r.chunk_keys() =~= Set::<IVec3>::empty());
        proof {
            reveal(Voxels::coherent);
            reveal(Voxels::world);
        }
        assert(r.changed_set() =~= Set::<IVec3>::empty());
        assert(r.updates() =~= Seq::<VoxelUpdate>::empty());
        r
    }

    /// Given a voxel position, find the chunk it is in.
    pub fn find_chunk(point: IVec3) -> (r: IVec3)
        ensures
            r == home_chunk(point),
    {
        IVec3::new(div_euclid(point.x, 62), div_euclid(point.y, 62), div_euclid(point.z, 62))
    }

    /// The position of `world_point` relative to the origin of `chunk`.
    pub fn relative_point(chunk: IVec3, world_point: IVec3) -> (r: IVec3)
        requires
            i32::MIN <= world_point.x - 62 * chunk.x <= i32::MAX,
            i32::MIN <= world_point.y - 62 * chunk.y <= i32::MAX,
            i32::MIN <= world_point.z - 62 * chunk.z <= i32::MAX,
            i32::MIN <= 62 * chunk.x <= i32::MAX,
            i32::MIN <= 62 * chunk.y <= i32::MAX,
            i32::MIN <= 62 * chunk.z <= i32::MAX,
        ensures
            r.x == world_point.x - 62 * chunk.x,
            r.y == world_point.y - 62 * chunk.y,
            r.z == world_point.z - 62 * chunk.z,
    {
        let chunk_origin = IVec3::new(chunk.x * unpadded::SIZE_SCALAR, chunk.y * unpadded::SIZE_SCALAR, chunk.z * unpadded::SIZE_SCALAR);
        world_point.sub(chunk_origin)
    }

    /// The position of `world_point` in the padded coordinates of `chunk`.
    pub fn relative_point_with_boundary(chunk: IVec3, world_point: IVec3) -> (r: IVec3)
        requires
            i32::MIN <= world_point.x - 62 * chunk.x <= i32::MAX - 1,
            i32::MIN <= world_point.y - 62 * chunk.y <= i32::MAX - 1,
            i32::MIN <= world_point.z - 62 * chunk.z <= i32::MAX - 1,
            i32::MIN <= 62 * chunk.x <= i32::MAX,
            i32::MIN <= 62 * chunk.y <= i32::MAX,
            i32::MIN <= 62 * chunk.z <= i32::MAX,
        ensures
            r.x == world_point.x - 62 * chunk.x + 1,
            r.y == world_point.y - 62 * chunk.y + 1,
            r.z == world_point.z - 62 * chunk.z + 1,
    {
        Self::relative_point(chunk, world_point).add(IVec3::new(1, 1, 1))
    }

    /// The position of a world point inside its own chunk.
    pub fn relative_point_unoriented(point: IVec3) -> (r: IVec3)
        ensures
            r.x == rel(home_chunk(point), point).0,
            r.y == rel(home_chunk(point), point).1,
            r.z == rel(home_chunk(point), point).2,
            in_unpadded_bounds(r.x as int, r.y as int, r.z as int),
    {
        proof {
            lemma_home_chunk(point);
        }
        IVec3::new(rem_euclid(point.x, 62), rem_euclid(point.y, 62), rem_euclid(point.z, 62))
    }

    /// The position of a world point in the padded coordinates of its own
    /// chunk.
    pub fn relative_point_padded(point: IVec3) -> (r: IVec3)
        ensures
            r.x == rel(home_chunk(point), point).0 + 1,
            r.y == rel(home_chunk(point), point).1 + 1,
            r.z == rel(home_chunk(point), point).2 + 1,
    {
        Self::relative_point_unoriented(point).add(IVec3::new(1, 1, 1))
    }

    /// Whether a point lies on the low face of its chunk on some axis.
    pub fn is_boundary_point(point: IVec3) -> (r: bool)
        ensures
            r == (rel(home_chunk(point), point).0 == 0 || rel(home_chunk(point), point).1 == 0
                || rel(home_chunk(point), point).2 == 0),
    {
        let relative_point = Self::relative_point_unoriented(point);
        relative_point.x == 0 || relative_point.x == unpadded::SIZE_SCALAR || relative_point.y == 0
            || relative_point.y == unpadded::SIZE_SCALAR || relative_point.z == 0 || relative_point.z
            == unpadded::SIZE_SCALAR
    }

    /// Index of the chunk stored at `c`, if any.
    fn chunk_position(&self, c: IVec3) -> (r: Option<usize>)
        requires
            self.wf_parts(),
        ensures
            match r {
                Some(i) => i < self.chunks@.len() && self.chunks@[i as int].0 == c && self.has_chunk(c)
                    && self.chunk_index(c) == i,
                None => !self.has_chunk(c),
            },
    {
        let mut i: usize = 0;
        while i < self.chunks.len()
            invariant
                i <= self.chunks@.len(),
                self.wf_parts(),
                forall|j: int| 0 <= j < i ==> self.chunks@[j].0 != c,
            decreases self.chunks@.len() - i,
        {
            if self.chunks[i].0 == c {
                proof {
                    self.lemma_chunk_index(i as int);
                }
                return Some(i);
            }
            i += 1;
        }
        None
    }

    /// The chunk at chunk position `point`, if there is one.
    pub fn get_chunk(&self, point: IVec3) -> (r: Option<&VoxelChunk>)
        requires
            self.wf(),
        ensures
            match r {
                Some(ch) => self.has_chunk(point) && *ch == self.chunk_of(point) && ch.wf(),
                None => !self.has_chunk(point),
            },
    {
        match self.chunk_position(point) {
            Some(i) => {
                proof {
                    self.lemma_chunk_index(i as int);
                }
                Some(&self.chunks[i].1)
            },
            None => None,
        }
    }

    /// The voxel at a world point; air where no chunk is stored.
    pub fn get_voxel(&self, point: IVec3) -> (r: Voxel)
        requires
            self.wf(),
            get_ok(point),
        ensures
            r == self.world(point),
    {
        let chunk_point = Self::find_chunk(point);
        proof {
            lemma_home_chunk(point);
            reveal(Voxels::world);
        }
        match self.get_chunk(chunk_point) {
            Some(chunk) => chunk.voxel(Self::relative_point(chunk_point, point).to_array()),
            None => Voxel::Air,
        }
    }
}


/// Lexicographic progress of the overlap loops: `c` comes before `(x, y, z)`
/// in y, then x, then z order.
pub open spec fn before_yxz(c: IVec3, x: int, y: int, z: int) -> bool {
    c.y < y || (c.y == y && (c.x < x || (c.x == x && c.z < z)))
}

/// The chunk positions `(x, y, lo..hi)`, in z order.
pub open spec fn zrow(x: int, y: int, lo: int, hi: int) -> Seq<IVec3> {
    Seq::new(if hi > lo { (hi - lo) as nat } else { 0 }, |i: int| IVec3 { x: x as i32, y: y as i32, z: (lo + i) as i32 })
}

/// The rows `zrow(lo_x + i, y, lo_z, hi_z)` for `i < n`, in x order.
pub open spec fn xlayer(y: int, lo_x: int, n: int, lo_z: int, hi_z: int) -> Seq<IVec3>
    decreases n,
{
    if n <= 0 {
        Seq::empty()
    } else {
        xlayer(y, lo_x, n - 1, lo_z, hi_z) + zrow(lo_x + n - 1, y, lo_z, hi_z)
    }
}

/// The layers `xlayer(lo_y + i, ..)` for `i < n`, in y order.
pub open spec fn ygrid(lo_y: int, n: int, lo_x: int, hi_x: int, lo_z: int, hi_z: int) -> Seq<IVec3>
    decreases n,
{
    if n <= 0 {
        Seq::empty()
    } else {
        ygrid(lo_y, n - 1, lo_x, hi_x, lo_z, hi_z) + xlayer(lo_y + n - 1, lo_x, hi_x - lo_x, lo_z, hi_z)
    }
}

/// The chunks visited when setting `p`, in the order they are visited: y
/// outermost, then x, then z.
pub open spec fn overlap_seq(p: IVec3) -> Seq<IVec3> {
    ygrid(
        overlap_lo(p.y as int),
        overlap_hi(p.y as int) - overlap_lo(p.y as int),
        overlap_lo(p.x as int),
        overlap_hi(p.x as int),
        overlap_lo(p.z as int),
        overlap_hi(p.z as int),
    )
}

impl Voxels {
    /// The chunks whose padded region may hold a voxel near `voxel_pos`:
    /// every chunk within two voxels of it, in y, then x, then z order.
    #[verifier::spinoff_prover]
    #[verifier::rlimit(40)]
    pub fn chunks_overlapping_voxel(voxel_pos: IVec3) -> (r: Vec<IVec3>)
        requires
            point_in_range(voxel_pos),
        ensures
            forall|c: IVec3| r@.contains(c) <==> #[trigger] in_overlap(c, voxel_pos),
            forall|i: int| 0 <= i < r@.len() ==> chunk_key_in_range(#[trigger] r@[i]),
            r@ == overlap_seq(voxel_pos),
            r@.no_duplicates(),
            1 <= r@.len() <= 8,
            r@.contains(home_chunk(voxel_pos)),
            forall|c: IVec3| #[trigger] stores(c, voxel_pos) ==> r@.contains(c),
    {
        proof {
            lemma_overlap_seq(voxel_pos);
        }
        let lo_x = div_euclid(voxel_pos.x - 2, 62);
        let lo_y = div_euclid(voxel_pos.y - 2, 62);
        let lo_z = div_euclid(voxel_pos.z - 2, 62);
        let hi_x = div_euclid(voxel_pos.x + 63, 62);
        let hi_y = div_euclid(voxel_pos.y + 63, 62);
        let hi_z = div_euclid(voxel_pos.z + 63, 62);
        proof {
            assert(-34636830 <= lo_x && hi_x <= 34636830 + 1) by (nonlinear_arith)
                requires lo_x == (voxel_pos.x - 2) / 62, hi_x == (voxel_pos.x + 63) / 62,
                    -2147483000 <= voxel_pos.x <= 2147483000 {}
            assert(-34636830 <= lo_y && hi_y <= 34636830 + 1) by (nonlinear_arith)
                requires lo_y == (voxel_pos.y - 2) / 62, hi_y == (voxel_pos.y + 63) / 62,
                    -2147483000 <= voxel_pos.y <= 2147483000 {}
            assert(-34636830 <= lo_z && hi_z <= 34636830 + 1) by (nonlinear_arith)
                requires lo_z == (voxel_pos.z - 2) / 62, hi_z == (voxel_pos.z + 63) / 62,
                    -2147483000 <= voxel_pos.z <= 2147483000 {}
        }
        let mut chunks: Vec<IVec3> = Vec::new();
        let mut y = lo_y;
        if y > hi_y {
            y = hi_y;
        }
        while y < hi_y
            invariant
                lo_y <= y <= hi_y || (y == hi_y && hi_y < lo_y),
                -34636830 <= lo_x && hi_x <= 34636830 + 1,
                -34636830 <= lo_y && hi_y <= 34636830 + 1,
                -34636830 <= lo_z && hi_z <= 34636830 + 1,
                lo_x == overlap_lo(voxel_pos.x as int), hi_x == overlap_hi(voxel_pos.x as int),
                lo_y == overlap_lo(voxel_pos.y as int), hi_y == overlap_hi(voxel_pos.y as int),
                lo_z == overlap_lo(voxel_pos.z as int), hi_z == overlap_hi(voxel_pos.z as int),
                forall|c: IVec3| chunks@.contains(c) <==> (#[trigger] in_overlap(c, voxel_pos) && c.y < y),
                forall|i: int| 0 <= i < chunks@.len() ==> chunk_key_in_range(#[trigger] chunks@[i]),
                chunks@ == ygrid(lo_y as int, y - lo_y, lo_x as int, hi_x as int, lo_z as int, hi_z as int),
            decreases hi_y - y,
        {
            let mut x = lo_x;
            if x > hi_x {
                x = hi_x;
            }
            while x < hi_x
                invariant
                    lo_y <= y < hi_y,
                    lo_x <= x <= hi_x || (x == hi_x && hi_x < lo_x),
                    -34636830 <= lo_x && hi_x <= 34636830 + 1,
                    -34636830 <= lo_y && hi_y <= 34636830 + 1,
                    -34636830 <= lo_z && hi_z <= 34636830 + 1,
                    lo_x == overlap_lo(voxel_pos.x as int), hi_x == overlap_hi(voxel_pos.x as int),
                    lo_y == overlap_lo(voxel_pos.y as int), hi_y == overlap_hi(voxel_pos.y as int),
                    lo_z == overlap_lo(voxel_pos.z as int), hi_z == overlap_hi(voxel_pos.z as int),
                    forall|c: IVec3| chunks@.contains(c) <==> (#[trigger] in_overlap(c, voxel_pos)
                        && (c.y < y || (c.y == y && c.x < x))),
                    forall|i: int| 0 <= i < chunks@.len() ==> chunk_key_in_range(#[trigger] chunks@[i]),
                    chunks@ == ygrid(lo_y as int, y - lo_y, lo_x as int, hi_x as int, lo_z as int, hi_z as int)
                        + xlayer(y as int, lo_x as int, x - lo_x, lo_z as int, hi_z as int),
                decreases hi_x - x,
            {
                let mut z = lo_z;
                if z > hi_z {
                    z = hi_z;
                }
                while z < hi_z
                    invariant
                        lo_y <= y < hi_y,
                        lo_x <= x < hi_x,
                        lo_z <= z <= hi_z || (z == hi_z && hi_z < lo_z),
                        -34636830 <= lo_x && hi_x <= 34636830 + 1,
                        -34636830 <= lo_y && hi_y <= 34636830 + 1,
                        -34636830 <= lo_z && hi_z <= 34636830 + 1,
                        lo_x == overlap_lo(voxel_pos.x as int), hi_x == overlap_hi(voxel_pos.x as int),
                        lo_y == overlap_lo(voxel_pos.y as int), hi_y == overlap_hi(voxel_pos.y as int),
                        lo_z == overlap_lo(voxel_pos.z as int), hi_z == overlap_hi(voxel_pos.z as int),
                        forall|c: IVec3| chunks@.contains(c) <==> (#[trigger] in_overlap(c, voxel_pos)
                            && before_yxz(c, x as int, y as int, z as int)),
                        forall|i: int| 0 <= i < chunks@.len() ==> chunk_key_in_range(#[trigger] chunks@[i]),
                        chunks@ == ygrid(lo_y as int, y - lo_y, lo_x as int, hi_x as int, lo_z as int, hi_z as int)
                            + xlayer(y as int, lo_x as int, x - lo_x, lo_z as int, hi_z as int)
                            + zrow(x as int, y as int, lo_z as int, z as int),
                    decreases hi_z - z,
                {
                    let ghost old_chunks = chunks@;
                    let c_new = IVec3::new(x, y, z);
                    chunks.push(c_new);
                    proof {
                        assert(zrow(x as int, y as int, lo_z as int, z + 1) =~= zrow(x as int, y as int, lo_z as int, z as int).push(c_new));
                        assert(chunks@ =~= ygrid(lo_y as int, y - lo_y, lo_x as int, hi_x as int, lo_z as int, hi_z as int)
                            + xlayer(y as int, lo_x as int, x - lo_x, lo_z as int, hi_z as int)
                            + zrow(x as int, y as int, lo_z as int, z + 1));
                        assert forall|c: IVec3| chunks@.contains(c) <==> (#[trigger] in_overlap(c, voxel_pos)
                            && before_yxz(c, x as int, y as int, z + 1)) by {
                            if c == c_new {
                                assert(chunks@[old_chunks.len() as int] == c);
                            } else {
                                if chunks@.contains(c) {
                                    let i = choose|i: int| 0 <= i < chunks@.len() && chunks@[i] == c;
                                    assert(i < old_chunks.len());
                                    assert(old_chunks[i] == c);
                                    assert(old_chunks.contains(c));
                                }
                                if old_chunks.contains(c) {
                                    let i = choose|i: int| 0 <= i < old_chunks.len() && old_chunks[i] == c;
                                    assert(chunks@[i] == c);
                                }
                            }
                        }
                    }
                    z += 1;
                }
                proof {
                    let a = ygrid(lo_y as int, y - lo_y, lo_x as int, hi_x as int, lo_z as int, hi_z as int);
                    let b = xlayer(y as int, lo_x as int, x - lo_x, lo_z as int, hi_z as int);
                    let c = zrow(x as int, y as int, lo_z as int, z as int);
                    assert(z == hi_z);
                    assert(xlayer(y as int, lo_x as int, x + 1 - lo_x, lo_z as int, hi_z as int) == b + c);
                    assert(a + b + c =~= a + (b + c));
                    assert forall|c2: IVec3| chunks@.contains(c2) <==> (#[trigger] in_overlap(c2, voxel_pos)
                        && (c2.y < y || (c2.y == y && c2.x < x + 1))) by {
                        lemma_row_done(c2, voxel_pos, x as int, y as int, z as int);
                    }
                }
                x += 1;
            }
            proof {
                let a = ygrid(lo_y as int, y - lo_y, lo_x as int, hi_x as int, lo_z as int, hi_z as int);
                let b = xlayer(y as int, lo_x as int, x - lo_x, lo_z as int, hi_z as int);
                assert(x == hi_x);
                assert(ygrid(lo_y as int, y + 1 - lo_y, lo_x as int, hi_x as int, lo_z as int, hi_z as int) == a + b);
                assert forall|c2: IVec3| #[trigger] in_overlap(c2, voxel_pos) implies ((c2.y < y || (c2.y == y && c2.x < x))
                    <==> c2.y < y + 1) by {}
            }
            y += 1;
        }
        proof {
            assert(y == hi_y);
        }
        chunks
    }
}

/// Once a row of the overlap is done, the chunks before its end are those
/// before the next row.
proof fn lemma_row_done(c: IVec3, p: IVec3, x: int, y: int, z: int)
    requires
        z == overlap_hi(p.z as int),
    ensures
        in_overlap(c, p) ==> (before_yxz(c, x, y, z) <==> (c.y < y || (c.y == y && c.x < x + 1))),
{
}

/// Distinct padded coordinates have distinct linear indices.
pub proof fn lemma_padded_index_injective(x1: int, y1: int, z1: int, x2: int, y2: int, z2: int)
    requires
        in_padded_bounds(x1, y1, z1),
        in_padded_bounds(x2, y2, z2),
        padded_index(x1, y1, z1) == padded_index(x2, y2, z2),
    ensures
        x1 == x2 && y1 == y2 && z1 == z2,
{
    assert(x1 == x2 && y1 == y2 && z1 == z2) by (nonlinear_arith)
        requires
            0 <= x1 < 64, 0 <= y1 < 64, 0 <= z1 < 64, 0 <= x2 < 64, 0 <= y2 < 64, 0 <= z2 < 64,
            z1 + x1 * 64 + y1 * 4096 == z2 + x2 * 64 + y2 * 4096,
    {}
}

/// Whether `(x, y, z)` is where chunk `c` stores point `p`.
pub open spec fn at_loc(c: IVec3, p: IVec3, x: int, y: int, z: int) -> bool {
    x == p.x - 62 * c.x + 1 && y == p.y - 62 * c.y + 1 && z == p.z - 62 * c.z + 1
}

/// How a world relates to an earlier one after `p` was set to `v` in every
/// chunk position for which `done` holds.
pub open spec fn overlap_step(old: Voxels, new: Voxels, p: IVec3, v: Voxel, done: spec_fn(IVec3) -> bool) -> bool {
    &&& forall|c: IVec3| #[trigger] new.has_chunk(c) <==> (old.has_chunk(c) || done(c))
    &&& forall|c: IVec3, x: int, y: int, z: int| in_padded_bounds(x, y, z) ==> #[trigger] new.stored(c, x, y, z)
        == if done(c) && stores(c, p) && at_loc(c, p, x, y, z) {
            v
        } else {
            old.stored(c, x, y, z)
        }
    &&& forall|c: IVec3| #[trigger] new.chunk_health(c) == if done(c) && stores(c, p) {
            old.chunk_health(c).remove(loc(c, p))
        } else {
            old.chunk_health(c)
        }
    &&& new.changed_set() == old.changed_set().union(Set::new(|c: IVec3| done(c) && stores(c, p)))
    &&& new.updates() == old.updates()
    &&& new.clip_box() == old.clip_box()
}

impl Voxels {
    /// After `p` has been written into every chunk that stores it, the world
    /// holds `v` at `p` and nothing else changed.
    pub proof fn lemma_overlap_world(old: Voxels, new: Voxels, p: IVec3, v: Voxel)
        requires
            point_in_range(p),
            overlap_step(old, new, p, v, |c: IVec3| in_overlap(c, p)),
        ensures
            forall|r: IVec3| #[trigger] new.world(r) == if r == p { v } else { old.world(r) },
    {
        reveal(Voxels::world);
        assert forall|r: IVec3| #[trigger] new.world(r) == if r == p { v } else { old.world(r) } by {
            let h = home_chunk(r);
            lemma_home_chunk(r);
            let x = r.x - 62 * h.x + 1;
            let y = r.y - 62 * h.y + 1;
            let z = r.z - 62 * h.z + 1;
            assert(new.stored(h, x, y, z) == if in_overlap(h, p) && stores(h, p) && at_loc(h, p, x, y, z) {
                v } else { old.stored(h, x, y, z) });
            if r == p {
                lemma_overlap_axis(h.x as int, p.x as int);
                lemma_overlap_axis(h.y as int, p.y as int);
                lemma_overlap_axis(h.z as int, p.z as int);
                assert(in_overlap(h, p));
            }
        }
    }

    /// After `p` has been written into every chunk that stores it, the chunks
    /// still agree with the world.
    #[verifier::spinoff_prover]
    pub proof fn lemma_overlap_done(old: Voxels, new: Voxels, p: IVec3, v: Voxel)
        requires
            old.wf(),
            new.wf_parts(),
            point_in_range(p),
            overlap_step(old, new, p, v, |c: IVec3| in_overlap(c, p)),
        ensures
            new.wf(),
            forall|r: IVec3| #[trigger] new.world(r) == if r == p { v } else { old.world(r) },
    {
        Self::lemma_overlap_world(old, new, p, v);
        reveal(Voxels::coherent);
        assert forall|c: IVec3, x: int, y: int, z: int|
            in_padded_bounds(x, y, z) && chunk_key_in_range(c) implies #[trigger] new.stored(c, x, y, z)
                == new.world_at(62 * c.x + x - 1, 62 * c.y + y - 1, 62 * c.z + z - 1) by {
            let rx = 62 * c.x + x - 1;
            let ry = 62 * c.y + y - 1;
            let rz = 62 * c.z + z - 1;
            assert(old.stored(c, x, y, z) == old.world_at(rx, ry, rz));
            assert(new.stored(c, x, y, z) == if in_overlap(c, p) && stores(c, p) && at_loc(c, p, x, y, z) {
                v } else { old.stored(c, x, y, z) });
            if i32::MIN <= rx <= i32::MAX && i32::MIN <= ry <= i32::MAX && i32::MIN <= rz <= i32::MAX {
                let r = IVec3 { x: rx as i32, y: ry as i32, z: rz as i32 };
                assert(new.world(r) == if r == p { v } else { old.world(r) });
                if r == p {
                    lemma_overlap_axis(c.x as int, p.x as int);
                    lemma_overlap_axis(c.y as int, p.y as int);
                    lemma_overlap_axis(c.z as int, p.z as int);
                }
            }
        }
    }

    /// The index of the chunk at `c`, creating an empty chunk there first if
    /// there is none.
    fn entry_or_default(&mut self, c: IVec3) -> (i: usize)
        requires
            old(self).wf_parts(),
            chunk_key_in_range(c),
        ensures
            final(self).wf_parts(),
            i < final(self).chunks@.len(),
            final(self).chunks@[i as int].0 == c,
            forall|c2: IVec3| #[trigger] final(self).has_chunk(c2) <==> (old(self).has_chunk(c2) || c2 == c),
            forall|c2: IVec3, x: int, y: int, z: int| in_padded_bounds(x, y, z) ==>
                #[trigger] final(self).stored(c2, x, y, z) == old(self).stored(c2, x, y, z),
            forall|c2: IVec3| #[trigger] final(self).chunk_health(c2) == old(self).chunk_health(c2),
            final(self).changed_set() == old(self).changed_set(),
            final(self).updates() == old(self).updates(),
            final(self).clip_box() == old(self).clip_box(),
    {
        match self.chunk_position(c) {
            Some(i) => {
                i
            },
            None => {
                let ghost o = *self;
                self.chunks.push((c, VoxelChunk::new()));
                let i = self.chunks.len() - 1;
                proof {
                    let n = *self;
                    assert forall|a: int, b: int|
                        0 <= a < n.chunks@.len() && 0 <= b < n.chunks@.len() && a != b
                        implies n.chunks@[a].0 != n.chunks@[b].0 by {
                        if a < o.chunks@.len() && b < o.chunks@.len() {
                            assert(o.chunks@[a].0 != o.chunks@[b].0);
                        } else if a < o.chunks@.len() {
                            assert(o.chunks@[a].0 != c);
                        } else {
                            assert(o.chunks@[b].0 != c);
                        }
                    }
                    assert forall|a: int| 0 <= a < n.chunks@.len() implies (#[trigger] n.chunks@[a]).1.wf() by {
                        if a < o.chunks@.len() {
                            assert(n.chunks@[a] == o.chunks@[a]);
                        }
                    }
                    assert forall|a: int| 0 <= a < n.chunks@.len() implies chunk_key_in_range(#[trigger] n.chunks@[a].0) by {
                        if a < o.chunks@.len() {
                            assert(n.chunks@[a] == o.chunks@[a]);
                        }
                    }
                    assert(n.wf_parts());
                    assert forall|c2: IVec3| #[trigger] n.has_chunk(c2) <==> (o.has_chunk(c2) || c2 == c) by {
                        if o.has_chunk(c2) {
                            let j = o.chunk_index(c2);
                            assert(n.chunks@[j] == o.chunks@[j]);
                        }
                        if c2 == c {
                            assert(n.chunks@[i as int].0 == c);
                        }
                        if n.has_chunk(c2) && c2 != c {
                            let j = n.chunk_index(c2);
                            assert(j < o.chunks@.len());
                            assert(o.chunks@[j].0 == c2);
                        }
                    }
                    assert forall|c2: IVec3, x: int, y: int, z: int| in_padded_bounds(x, y, z) implies
                        #[trigger] n.stored(c2, x, y, z) == o.stored(c2, x, y, z) by {
                        if o.has_chunk(c2) {
                            let j = o.chunk_index(c2);
                            o.lemma_chunk_index(j);
                            assert(n.chunks@[j] == o.chunks@[j]);
                            n.lemma_chunk_index(j);
                        } else if c2 == c {
                            n.lemma_chunk_index(i as int);
                            crate::voxel::chunk::lemma_padded_index_split(x, y, z);
                        }
                    }
                    assert forall|c2: IVec3| #[trigger] n.chunk_health(c2) == o.chunk_health(c2) by {
                        if o.has_chunk(c2) {
                            let j = o.chunk_index(c2);
                            o.lemma_chunk_index(j);
                            assert(n.chunks@[j] == o.chunks@[j]);
                            n.lemma_chunk_index(j);
                        } else if c2 == c {
                            n.lemma_chunk_index(i as int);
                        }
                    }
                    assert(n.changed_set() =~= o.changed_set());
                }
                i
            },
        }
    }
}

impl Voxels {
    /// Record chunk position `c` as changed.
    fn insert_changed(&mut self, c: IVec3)
        requires
            old(self).wf_parts(),
        ensures
            final(self).wf_parts(),
            final(self).chunks@ == old(self).chunks@,
            final(self).changed_set() == old(self).changed_set().insert(c),
            final(self).updates() == old(self).updates(),
            final(self).clip_box() == old(self).clip_box(),
    {
        changed_table_insert(&mut self.changed_chunks, c);
    }
}

impl Voxels {
    /// Set a voxel at a padded coordinate of the chunk stored at index `i`.
    fn set_in_chunk(&mut self, i: usize, relp: [Scalar; 3], voxel: Voxel)
        requires
            old(self).wf_parts(),
            i < old(self).chunks@.len(),
            in_padded_bounds(relp[0] as int, relp[1] as int, relp[2] as int),
        ensures
            final(self).wf_parts(),
            forall|c: IVec3| #[trigger] final(self).has_chunk(c) == old(self).has_chunk(c),
            final(self).chunks@.len() == old(self).chunks@.len(),
            forall|j: int| 0 <= j < final(self).chunks@.len() ==> #[trigger] final(self).chunks@[j].0 == old(self).chunks@[j].0,
            forall|c: IVec3, x: int, y: int, z: int| in_padded_bounds(x, y, z) ==>
                #[trigger] final(self).stored(c, x, y, z) == if c == old(self).chunks@[i as int].0
                    && x == relp[0] && y == relp[1] && z == relp[2] {
                    voxel
                } else {
                    old(self).stored(c, x, y, z)
                },
            forall|c: IVec3| #[trigger] final(self).chunk_health(c) == if c == old(self).chunks@[i as int].0 {
                old(self).chunk_health(c).remove(crate::voxel::chunk::key3(relp))
            } else {
                old(self).chunk_health(c)
            },
            final(self).changed_set() == old(self).changed_set(),
            final(self).updates() == old(self).updates(),
            final(self).clip_box() == old(self).clip_box(),
    {
        proof {
            old(self).lemma_chunk_index(i as int);
        }
        self.chunks[i].1.set_unpadded(relp, voxel);
        proof {
            let o = *old(self);
            let n = *self;
            let key = o.chunks@[i as int].0;
            assert forall|a: int| 0 <= a < n.chunks@.len() implies (#[trigger] n.chunks@[a]).1.wf() by {
                if a != i {
                    assert(n.chunks@[a] == o.chunks@[a]);
                }
            }
            assert forall|a: int| 0 <= a < n.chunks@.len() implies #[trigger] n.chunks@[a].0 == o.chunks@[a].0 by {
                if a != i {
                    assert(n.chunks@[a] == o.chunks@[a]);
                }
            }
            assert forall|a: int, b: int|
                0 <= a < n.chunks@.len() && 0 <= b < n.chunks@.len() && a != b
                implies n.chunks@[a].0 != n.chunks@[b].0 by {
                assert(n.chunks@[a].0 == o.chunks@[a].0);
                assert(n.chunks@[b].0 == o.chunks@[b].0);
            }
            assert forall|a: int| 0 <= a < n.chunks@.len() implies chunk_key_in_range(#[trigger] n.chunks@[a].0) by {
                assert(n.chunks@[a].0 == o.chunks@[a].0);
            }
            assert(n.wf_parts());
            assert forall|c: IVec3| #[trigger] n.has_chunk(c) == o.has_chunk(c) by {
                if o.has_chunk(c) {
                    let j = o.chunk_index(c);
                    assert(n.chunks@[j].0 == o.chunks@[j].0);
                }
                if n.has_chunk(c) {
                    let j = n.chunk_index(c);
                    assert(n.chunks@[j].0 == o.chunks@[j].0);
                }
            }
            assert forall|c: IVec3, x: int, y: int, z: int| in_padded_bounds(x, y, z) implies
                #[trigger] n.stored(c, x, y, z) == if c == key && x == relp[0] && y == relp[1] && z == relp[2] {
                    voxel
                } else {
                    o.stored(c, x, y, z)
                } by {
                if o.has_chunk(c) {
                    let j = o.chunk_index(c);
                    o.lemma_chunk_index(j);
                    assert(n.chunks@[j].0 == o.chunks@[j].0);
                    n.lemma_chunk_index(j);
                    if j == i {
                        crate::voxel::chunk::lemma_padded_index_split(x, y, z);
                        crate::voxel::chunk::lemma_padded_index_split(relp[0] as int, relp[1] as int, relp[2] as int);
                        if padded_index(x, y, z) == padded_index(relp[0] as int, relp[1] as int, relp[2] as int) {
                            lemma_padded_index_injective(x, y, z, relp[0] as int, relp[1] as int, relp[2] as int);
                        }
                        crate::voxel::voxel::lemma_id_round_trip(voxel);
                    } else {
                        assert(n.chunks@[j] == o.chunks@[j]);
                    }
                }
            }
            assert forall|c: IVec3| #[trigger] n.chunk_health(c) == if c == key {
                o.chunk_health(c).remove(crate::voxel::chunk::key3(relp))
            } else {
                o.chunk_health(c)
            } by {
                if o.has_chunk(c) {
                    let j = o.chunk_index(c);
                    o.lemma_chunk_index(j);
                    assert(n.chunks@[j].0 == o.chunks@[j].0);
                    n.lemma_chunk_index(j);
                    if j != i {
                        assert(n.chunks@[j] == o.chunks@[j]);
                    }
                }
            }
        }
    }
}

/// A chunk visited while setting a point lies next to it.
pub proof fn lemma_overlap_near(c: IVec3, p: IVec3)
    requires
        in_overlap(c, p),
    ensures
        -1 <= p.x - 62 * c.x <= 63,
        -1 <= p.y - 62 * c.y <= 63,
        -1 <= p.z - 62 * c.z <= 63,
{
    let a = p.x as int;
    let lo = (a - 2) / 62;
    let hi = (a + 63) / 62;
    assert(62 * lo <= a - 2 < 62 * lo + 62) by (nonlinear_arith) requires lo == (a - 2) / 62 {}
    assert(62 * hi <= a + 63 < 62 * hi + 62) by (nonlinear_arith) requires hi == (a + 63) / 62 {}
    let a = p.y as int;
    let lo = (a - 2) / 62;
    let hi = (a + 63) / 62;
    assert(62 * lo <= a - 2 < 62 * lo + 62) by (nonlinear_arith) requires lo == (a - 2) / 62 {}
    assert(62 * hi <= a + 63 < 62 * hi + 62) by (nonlinear_arith) requires hi == (a + 63) / 62 {}
    let a = p.z as int;
    let lo = (a - 2) / 62;
    let hi = (a + 63) / 62;
    assert(62 * lo <= a - 2 < 62 * lo + 62) by (nonlinear_arith) requires lo == (a - 2) / 62 {}
    assert(62 * hi <= a + 63 < 62 * hi + 62) by (nonlinear_arith) requires hi == (a + 63) / 62 {}
}

/// One more chunk position processed keeps the overlap relation.
proof fn lemma_step_extend(
    old: Voxels,
    s0: Voxels,
    s3: Voxels,
    p: IVec3,
    v: Voxel,
    done_old: spec_fn(IVec3) -> bool,
    done_new: spec_fn(IVec3) -> bool,
    cp: IVec3,
    inb: bool,
)
    requires
        overlap_step(old, s0, p, v, done_old),
        inb == stores(cp, p),
        forall|c: IVec3| #[trigger] done_new(c) == (done_old(c) || c == cp),
        forall|c: IVec3| #[trigger] s3.has_chunk(c) <==> (s0.has_chunk(c) || c == cp),
        forall|c: IVec3, x: int, y: int, z: int| in_padded_bounds(x, y, z) ==> #[trigger] s3.stored(c, x, y, z)
            == if inb && c == cp && at_loc(cp, p, x, y, z) { v } else { s0.stored(c, x, y, z) },
        forall|c: IVec3| #[trigger] s3.chunk_health(c) == if inb && c == cp {
            s0.chunk_health(c).remove(loc(cp, p))
        } else {
            s0.chunk_health(c)
        },
        s3.changed_set() == if inb { s0.changed_set().insert(cp) } else { s0.changed_set() },
        s3.updates() == s0.updates(),
        s3.clip_box() == s0.clip_box(),
    ensures
        overlap_step(old, s3, p, v, done_new),
{
    assert forall|c: IVec3| #[trigger] s3.has_chunk(c) <==> (old.has_chunk(c) || done_new(c)) by {
        assert(s0.has_chunk(c) <==> (old.has_chunk(c) || done_old(c)));
    }
    assert forall|c: IVec3, x: int, y: int, z: int| in_padded_bounds(x, y, z) implies #[trigger] s3.stored(c, x, y, z)
        == if done_new(c) && stores(c, p) && at_loc(c, p, x, y, z) { v } else { old.stored(c, x, y, z) } by {
        assert(s0.stored(c, x, y, z) == if done_old(c) && stores(c, p) && at_loc(c, p, x, y, z) { v } else { old.stored(c, x, y, z) });
    }
    assert forall|c: IVec3| #[trigger] s3.chunk_health(c) == if done_new(c) && stores(c, p) {
        old.chunk_health(c).remove(loc(c, p))
    } else {
        old.chunk_health(c)
    } by {
        assert(s0.chunk_health(c) == if done_old(c) && stores(c, p) {
            old.chunk_health(c).remove(loc(c, p))
        } else {
            old.chunk_health(c)
        });
        if done_old(c) && stores(c, p) && c == cp {
            assert(old.chunk_health(c).remove(loc(c, p)).remove(loc(c, p)) =~= old.chunk_health(c).remove(loc(c, p)));
        }
    }
    assert(s3.changed_set() =~= old.changed_set().union(Set::new(|c: IVec3| done_new(c) && stores(c, p))));
}

impl Voxels {
    /// Set a voxel in every chunk that stores it (its home chunk and the
    /// padding of its neighbours), creating the chunks around it that do not
    /// exist yet.
    pub fn set_voxel_chunk_overlap(&mut self, point: IVec3, voxel: Voxel)
        requires
            old(self).wf(),
            point_in_range(point),
        ensures
            final(self).wf(),
            final(self).model() == model_overlap(old(self).model(), point, voxel),
    {
        let list = Self::chunks_overlapping_voxel(point);
        let mut k: usize = 0;
        proof {
            assert forall|c: IVec3| !list@.subrange(0, 0).contains(c) by {}
            assert(self.changed_set() =~= old(self).changed_set().union(
                Set::new(|c: IVec3| list@.subrange(0, 0).contains(c) && stores(c, point))));
            assert forall|i: int| 0 <= i < list@.len() implies #[trigger] in_overlap(list@[i], point) by {
                assert(list@.contains(list@[i]));
            }
            let done0 = |c: IVec3| list@.subrange(0, k as int).contains(c);
            assert forall|c: IVec3| !#[trigger] done0(c) by {}
            assert(self.changed_set() =~= old(self).changed_set().union(Set::new(|c: IVec3| done0(c) && stores(c, point))));
            assert(overlap_step(*old(self), *self, point, voxel, done0));
        }
        while k < list.len()
            invariant
                k <= list@.len(),
                self.wf_parts(),
                old(self).wf(),
                point_in_range(point),
                forall|i: int| 0 <= i < list@.len() ==> chunk_key_in_range(#[trigger] list@[i]),
                forall|i: int| 0 <= i < list@.len() ==> #[trigger] in_overlap(list@[i], point),
                overlap_step(*old(self), *self, point, voxel, |c: IVec3| list@.subrange(0, k as int).contains(c)),
            decreases list@.len() - k,
        {
            let ghost s0 = *self;
            let cp = list[k];
            proof {
                assert(in_overlap(list@[k as int], point));
                lemma_overlap_near(cp, point);
            }
            let i = self.entry_or_default(cp);
            let ghost s1 = *self;
            let relp = Self::relative_point_with_boundary(cp, point);
            let inb = self.chunks[i].1.in_chunk_bounds_unpadded(relp);
            if inb {
                self.insert_changed(cp);
                let ghost s2 = *self;
                proof {
                    assert forall|c: IVec3| #[trigger] s2.has_chunk(c) == s1.has_chunk(c) by {}
                    assert forall|c: IVec3, x: int, y: int, z: int| in_padded_bounds(x, y, z) implies
                        #[trigger] s2.stored(c, x, y, z) == s1.stored(c, x, y, z) by {}
                    assert forall|c: IVec3| #[trigger] s2.chunk_health(c) == s1.chunk_health(c) by {}
                }
                self.set_in_chunk(i, relp.to_array(), voxel);
            }
            proof {
                let done_old = |c: IVec3| list@.subrange(0, k as int).contains(c);
                let done_new = |c: IVec3| list@.subrange(0, k + 1).contains(c);
                assert forall|c: IVec3| #[trigger] done_new(c) == (done_old(c) || c == cp) by {
                    let a = list@.subrange(0, k as int);
                    let b = list@.subrange(0, k + 1);
                    if b.contains(c) {
                        let j = choose|j: int| 0 <= j < b.len() && b[j] == c;
                        if j < k {
                            assert(a[j] == c);
                        }
                    }
                    if a.contains(c) {
                        let j = choose|j: int| 0 <= j < a.len() && a[j] == c;
                        assert(b[j] == c);
                    }
                    if c == cp {
                        assert(b[k as int] == c);
                    }
                }
                assert(inb == stores(cp, point));
                lemma_step_extend(*old(self), s0, *self, point, voxel, done_old, done_new, cp, inb);
            }
            k += 1;
        }
        proof {
            let done_list = |c: IVec3| list@.subrange(0, k as int).contains(c);
            let done_overlap = |c: IVec3| in_overlap(c, point);
            assert(list@.subrange(0, k as int) =~= list@);
            assert(done_list =~= done_overlap);
            Self::lemma_overlap_done(*old(self), *self, point, voxel);
            assert forall|c: IVec3| #[trigger] self.chunk_health(c) == if stores(c, point) {
                old(self).chunk_health(c).remove(loc(c, point))
            } else {
                old(self).chunk_health(c)
            } by {
                if stores(c, point) {
                    lemma_overlap_axis(c.x as int, point.x as int);
                    lemma_overlap_axis(c.y as int, point.y as int);
                    lemma_overlap_axis(c.z as int, point.z as int);
                }
            }
            assert forall|c: IVec3| (in_overlap(c, point) && stores(c, point)) == stores(c, point) by {
                if stores(c, point) {
                    lemma_overlap_axis(c.x as int, point.x as int);
                    lemma_overlap_axis(c.y as int, point.y as int);
                    lemma_overlap_axis(c.z as int, point.z as int);
                }
            }
            assert(self.changed_set() =~= old(self).changed_set().union(Set::new(|c: IVec3| stores(c, point))));
            assert(self.chunk_keys() =~= old(self).chunk_keys().union(Set::new(|c: IVec3| in_overlap(c, point))));
            assert(self.model() =~= model_overlap(old(self).model(), point, voxel));
        }
    }
}

/// The abstract state of a world: the voxel at every point, where chunks are
/// stored, the health overrides of each chunk, the chunks marked changed, the
/// queued updates and the clip box.
#[verifier::ext_equal]
pub struct VoxelsModel {
    pub world: spec_fn(IVec3) -> Voxel,
    pub keys: Set<IVec3>,
    pub health: spec_fn(IVec3) -> Map<(i32, i32, i32), i16>,
    pub changed: Set<IVec3>,
    pub updates: Seq<VoxelUpdate>,
    pub clip: VoxelAabb,
}

/// The model after `p` is written with `v` into every chunk that stores it.
pub open spec fn model_overlap(m: VoxelsModel, p: IVec3, v: Voxel) -> VoxelsModel {
    VoxelsModel {
        world: |r: IVec3| if r == p { v } else { (m.world)(r) },
        keys: m.keys.union(Set::new(|c: IVec3| in_overlap(c, p))),
        health: |c: IVec3| if stores(c, p) { (m.health)(c).remove(loc(c, p)) } else { (m.health)(c) },
        changed: m.changed.union(Set::new(|c: IVec3| stores(c, p))),
        updates: m.updates,
        clip: m.clip,
    }
}

/// The offset of the `k`-th update pushed around a point: y outermost, then
/// x, then z, each from -1 to 1.
pub open spec fn update_offset(k: int) -> (int, int, int) {
    ((k / 3) % 3 - 1, k / 9 - 1, k % 3 - 1)
}

/// The 27 updates queued around a point (the point and its neighbours).
pub open spec fn neighborhood(p: IVec3) -> Seq<VoxelUpdate> {
    Seq::new(27, |k: int| VoxelUpdate(IVec3 {
        x: (p.x + update_offset(k).0) as i32,
        y: (p.y + update_offset(k).1) as i32,
        z: (p.z + update_offset(k).2) as i32,
    }))
}

/// The model after `set_voxel(p, v)`: points outside the simulated height band
/// are ignored.
pub open spec fn model_set_voxel(m: VoxelsModel, p: IVec3, v: Voxel) -> VoxelsModel {
    if p.y < -50 || p.y > 250 {
        m
    } else {
        let m2 = model_overlap(m, p, v);
        VoxelsModel { updates: m2.updates + neighborhood(p), ..m2 }
    }
}

impl Voxels {
    /// The abstract state of this world.
    pub open spec fn model(&self) -> VoxelsModel {
        VoxelsModel {
            world: |r: IVec3| self.world(r),
            keys: self.chunk_keys(),
            health: |c: IVec3| self.chunk_health(c),
            changed: self.changed_set(),
            updates: self.updates(),
            clip: self.clip_box(),
        }
    }
}

impl Voxels {
    /// Two worlds with the same chunks agree on everything the chunks decide.
    proof fn lemma_same_chunks(a: Voxels, b: Voxels)
        requires
            a.chunks@ == b.chunks@,
        ensures
            forall|r: IVec3| #[trigger] a.world(r) == b.world(r),
            forall|c: IVec3| #[trigger] a.chunk_health(c) == b.chunk_health(c),
            a.chunk_keys() == b.chunk_keys(),
            a.coherent() == b.coherent(),
    {
        assert(a.chunk_keys() =~= b.chunk_keys());
        assert forall|c: IVec3, x: int, y: int, z: int| #[trigger] a.stored(c, x, y, z) == b.stored(c, x, y, z) by {}
        assert forall|r: IVec3| #[trigger] a.world(r) == b.world(r) by {
            reveal(Voxels::world);
        }
        assert forall|x: int, y: int, z: int| #[trigger] a.world_at(x, y, z) == b.world_at(x, y, z) by {}
        assert(a.coherent() ==> b.coherent()) by {
            reveal(Voxels::coherent);
            if a.coherent() {
                assert forall|c: IVec3, x: int, y: int, z: int|
                    in_padded_bounds(x, y, z) && chunk_key_in_range(c) implies #[trigger] b.stored(c, x, y, z)
                        == b.world_at(62 * c.x + x - 1, 62 * c.y + y - 1, 62 * c.z + z - 1) by {
                    assert(a.stored(c, x, y, z) == a.world_at(62 * c.x + x - 1, 62 * c.y + y - 1, 62 * c.z + z - 1));
                }
            }
        }
        assert(b.coherent() ==> a.coherent()) by {
            reveal(Voxels::coherent);
            if b.coherent() {
                assert forall|c: IVec3, x: int, y: int, z: int|
                    in_padded_bounds(x, y, z) && chunk_key_in_range(c) implies #[trigger] a.stored(c, x, y, z)
                        == a.world_at(62 * c.x + x - 1, 62 * c.y + y - 1, 62 * c.z + z - 1) by {
                    assert(b.stored(c, x, y, z) == b.world_at(62 * c.x + x - 1, 62 * c.y + y - 1, 62 * c.z + z - 1));
                }
            }
        }
    }

    /// Queue a point and its 26 neighbours for the falling-sands step.
    pub fn set_update_voxels(&mut self, point: IVec3)
        requires
            old(self).wf(),
            point_in_range(point),
        ensures
            final(self).wf(),
            final(self).model() == (VoxelsModel { updates: old(self).model().updates + neighborhood(point), ..old(self).model() }),
    {
        let ghost o = *self;
        let mut k: i32 = 0;
        while k < 27
            invariant
                0 <= k <= 27,
                point_in_range(point),
                self.chunks@ == o.chunks@,
                self.changed_chunks == o.changed_chunks,
                self.clip == o.clip,
                self.update_voxels@ == o.update_voxels@ + neighborhood(point).subrange(0, k as int),
            decreases 27 - k,
        {
            let dy = k / 9 - 1;
            let dx = (k / 3) % 3 - 1;
            let dz = k % 3 - 1;
            let ghost before = self.update_voxels@;
            self.update_voxels.push(VoxelUpdate(point.add(IVec3::new(dx, dy, dz))));
            proof {
                assert(self.update_voxels@ =~= o.update_voxels@ + neighborhood(point).subrange(0, k + 1));
            }
            k += 1;
        }
        proof {
            assert(neighborhood(point).subrange(0, 27) =~= neighborhood(point));
            Self::lemma_same_chunks(*self, o);
            assert(self.wf_parts());
            assert(self.model() =~= (VoxelsModel { updates: old(self).model().updates + neighborhood(point), ..old(self).model() }));
        }
    }

    /// Queue one point for the falling-sands step.
    pub fn add_update_voxel(&mut self, point: IVec3)
        requires
            old(self).wf(),
        ensures
            final(self).wf(),
            final(self).model() == (VoxelsModel { updates: old(self).model().updates.push(VoxelUpdate(point)), ..old(self).model() }),
    {
        let ghost o = *self;
        self.update_voxels.push(VoxelUpdate(point));
        proof {
            Self::lemma_same_chunks(*self, o);
            assert(self.wf_parts());
            assert(self.model() =~= (VoxelsModel { updates: old(self).model().updates.push(VoxelUpdate(point)), ..old(self).model() }));
        }
    }

    /// Set a voxel (with the chunk paddings around it) and queue it and its
    /// neighbours for simulation. Points below -50 or above 250 in y are
    /// ignored.
    pub fn set_voxel(&mut self, point: IVec3, voxel: Voxel)
        requires
            old(self).wf(),
            -50 <= point.y <= 250 ==> point_in_range(point),
        ensures
            final(self).wf(),
            final(self).model() == model_set_voxel(old(self).model(), point, voxel),
            point.y < -50 || point.y > 250 ==> *final(self) == *old(self),
    {
        if point.y < -50 || point.y > 250 {
            return;
        }
        self.set_voxel_chunk_overlap(point, voxel);
        self.set_update_voxels(point);
        proof {
            assert(self.model() =~= model_set_voxel(old(self).model(), point, voxel));
        }
    }
}

impl Voxels {
    /// Whether `new` is `old` with the chunk at `c` replaced by `ch`.
    pub closed spec fn replaced_chunk(old: Voxels, new: Voxels, c: IVec3, ch: VoxelChunk) -> bool {
        &&& new.chunks@ == old.chunks@.update(old.chunk_index(c), (c, ch))
        &&& new.changed_chunks == old.changed_chunks
        &&& new.update_voxels@ == old.update_voxels@
        &&& new.clip == old.clip
    }

    /// Mutable access to the chunk at chunk position `point`, if there is
    /// one. Whatever the caller does to it becomes the chunk stored there.
    pub fn get_chunk_mut(&mut self, point: IVec3) -> (r: Option<&mut VoxelChunk>)
        requires
            old(self).wf(),
        ensures
            match r {
                Some(ch) => old(self).has_chunk(point) && *ch == old(self).chunk_of(point)
                    && Self::replaced_chunk(*old(self), *final(self), point, *final(ch)),
                None => !old(self).has_chunk(point) && *final(self) == *old(self),
            },
    {
        match self.chunk_position(point) {
            Some(i) => {
                proof {
                    self.lemma_chunk_index(i as int);
                }
                Some(&mut self.chunks[i].1)
            },
            None => None,
        }
    }
}

impl Voxels {
    /// The health of the voxel at a world point: the override its home chunk
    /// stores for its chunk-relative position, else the starting health of
    /// the voxel; `None` where no chunk is stored.
    pub fn health(&self, point: IVec3) -> (r: Option<i16>)
        requires
            self.wf(),
            point_in_range(point),
        ensures
            r == if self.has_chunk(home_chunk(point)) {
                let rp = rel(home_chunk(point), point);
                let k = (rp.0 as i32, rp.1 as i32, rp.2 as i32);
                Some(if self.chunk_health(home_chunk(point)).dom().contains(k) {
                    self.chunk_health(home_chunk(point))[k]
                } else {
                    self.world(point).spec_initial_health()
                })
            } else {
                None
            },
    {
        let chunk_point = Self::find_chunk(point);
        proof {
            lemma_home_chunk(point);
            reveal(Voxels::world);
        }
        match self.get_chunk(chunk_point) {
            Some(chunk) => Some(chunk.health(Self::relative_point(chunk_point, point).to_array())),
            None => None,
        }
    }

    /// Store a health override in the home chunk of `point`, keyed by the
    /// world coordinates of `point`; nothing happens where no chunk is stored.
    pub fn set_health(&mut self, point: IVec3, health: i16)
        requires
            old(self).wf(),
        ensures
            final(self).wf(),
            final(self).model() == if old(self).has_chunk(home_chunk(point)) {
                VoxelsModel {
                    health: |c: IVec3| if c == home_chunk(point) {
                        old(self).chunk_health(c).insert((point.x, point.y, point.z), health)
                    } else {
                        old(self).chunk_health(c)
                    },
                    ..old(self).model()
                }
            } else {
                old(self).model()
            },
    {
        let chunk_point = Self::find_chunk(point);
        match self.chunk_position(chunk_point) {
            Some(i) => {
                let ghost o = *self;
                proof {
                    o.lemma_chunk_index(i as int);
                }
                self.chunks[i].1.set_health(point.to_array(), health);
                proof {
                    let n = *self;
                    assert forall|a: int| 0 <= a < n.chunks@.len() implies #[trigger] n.chunks@[a].0 == o.chunks@[a].0 by {
                        if a != i { assert(n.chunks@[a] == o.chunks@[a]); }
                    }
                    assert forall|a: int| 0 <= a < n.chunks@.len() implies (#[trigger] n.chunks@[a]).1.wf() by {
                        if a != i { assert(n.chunks@[a] == o.chunks@[a]); }
                    }
                    assert forall|a: int, b: int|
                        0 <= a < n.chunks@.len() && 0 <= b < n.chunks@.len() && a != b
                        implies n.chunks@[a].0 != n.chunks@[b].0 by {
                        assert(n.chunks@[a].0 == o.chunks@[a].0);
                        assert(n.chunks@[b].0 == o.chunks@[b].0);
                    }
                    assert forall|a: int| 0 <= a < n.chunks@.len() implies chunk_key_in_range(#[trigger] n.chunks@[a].0) by {
                        assert(n.chunks@[a].0 == o.chunks@[a].0);
                    }
                    assert(n.wf_parts());
                    assert forall|c: IVec3| #[trigger] n.has_chunk(c) == o.has_chunk(c) by {
                        if o.has_chunk(c) {
                            let j = o.chunk_index(c);
                            assert(n.chunks@[j].0 == o.chunks@[j].0);
                        }
                        if n.has_chunk(c) {
                            let j = n.chunk_index(c);
                            assert(n.chunks@[j].0 == o.chunks@[j].0);
                        }
                    }
                    assert forall|c: IVec3, x: int, y: int, z: int| #[trigger] n.stored(c, x, y, z) == o.stored(c, x, y, z) by {
                        if o.has_chunk(c) {
                            let j = o.chunk_index(c);
                            o.lemma_chunk_index(j);
                            assert(n.chunks@[j].0 == o.chunks@[j].0);
                            n.lemma_chunk_index(j);
                        }
                    }
                    assert forall|r: IVec3| #[trigger] n.world(r) == o.world(r) by {
                        reveal(Voxels::world);
                    }
                    assert forall|x: int, y: int, z: int| #[trigger] n.world_at(x, y, z) == o.world_at(x, y, z) by {}
                    assert(n.coherent()) by {
                        reveal(Voxels::coherent);
                        assert forall|c: IVec3, x: int, y: int, z: int|
                            in_padded_bounds(x, y, z) && chunk_key_in_range(c) implies #[trigger] n.stored(c, x, y, z)
                                == n.world_at(62 * c.x + x - 1, 62 * c.y + y - 1, 62 * c.z + z - 1) by {
                            assert(o.stored(c, x, y, z) == o.world_at(62 * c.x + x - 1, 62 * c.y + y - 1, 62 * c.z + z - 1));
                        }
                    }
                    assert forall|c: IVec3| #[trigger] n.chunk_health(c) == if c == chunk_point {
                        o.chunk_health(c).insert((point.x, point.y, point.z), health)
                    } else {
                        o.chunk_health(c)
                    } by {
                        if o.has_chunk(c) {
                            let j = o.chunk_index(c);
                            o.lemma_chunk_index(j);
                            assert(n.chunks@[j].0 == o.chunks@[j].0);
                            n.lemma_chunk_index(j);
                            if j != i {
                                assert(n.chunks@[j] == o.chunks@[j]);
                            }
                        }
                    }
                    assert(n.chunk_keys() =~= o.chunk_keys());
                    assert(n.model() =~= VoxelsModel {
                        health: |c: IVec3| if c == home_chunk(point) {
                            o.chunk_health(c).insert((point.x, point.y, point.z), health)
                        } else {
                            o.chunk_health(c)
                        },
                        ..o.model()
                    });
                }
            },
            None => {},
        }
    }

    /// The smallest and one past the largest chunk position on each axis;
    /// two zero vectors when no chunk is stored.
    pub fn chunk_bounds(&self) -> (r: (IVec3, IVec3))
        requires
            self.wf(),
        ensures
            self.num_chunks() == 0 ==> r.0 == (IVec3 { x: 0, y: 0, z: 0 }) && r.1 == (IVec3 { x: 0, y: 0, z: 0 }),
            self.num_chunks() > 0 ==> self.bounds_of_keys(r),
            chunk_key_in_range(r.0),
            -34636830 <= r.1.x <= 34636831 && -34636830 <= r.1.y <= 34636831 && -34636830 <= r.1.z <= 34636831,
    {
        let mut min = IVec3::new(i32::MAX, i32::MAX, i32::MAX);
        let mut max = IVec3::new(i32::MIN, i32::MIN, i32::MIN);
        if self.chunks.len() == 0 {
            return (IVec3::new(0, 0, 0), IVec3::new(0, 0, 0));
        }
        let mut i: usize = 0;
        while i < self.chunks.len()
            invariant
                self.wf(),
                0 <= i <= self.chunks@.len(),
                self.chunks@.len() > 0,
                i == 0 ==> min == (IVec3 { x: i32::MAX, y: i32::MAX, z: i32::MAX }) && max == (IVec3 { x: i32::MIN, y: i32::MIN, z: i32::MIN }),
                i > 0 ==> chunk_key_in_range(min),
                i > 0 ==> -34636830 <= max.x <= 34636831 && -34636830 <= max.y <= 34636831 && -34636830 <= max.z <= 34636831,
                forall|j: int| 0 <= j < i ==> min.x <= (#[trigger] self.chunks@[j]).0.x && min.y <= self.chunks@[j].0.y
                    && min.z <= self.chunks@[j].0.z && self.chunks@[j].0.x + 1 <= max.x
                    && self.chunks@[j].0.y + 1 <= max.y && self.chunks@[j].0.z + 1 <= max.z,
                i > 0 ==> exists|j: int| 0 <= j < i && min.x == (#[trigger] self.chunks@[j]).0.x,
                i > 0 ==> exists|j: int| 0 <= j < i && min.y == (#[trigger] self.chunks@[j]).0.y,
                i > 0 ==> exists|j: int| 0 <= j < i && min.z == (#[trigger] self.chunks@[j]).0.z,
                i > 0 ==> exists|j: int| 0 <= j < i && max.x == (#[trigger] self.chunks@[j]).0.x + 1,
                i > 0 ==> exists|j: int| 0 <= j < i && max.y == (#[trigger] self.chunks@[j]).0.y + 1,
                i > 0 ==> exists|j: int| 0 <= j < i && max.z == (#[trigger] self.chunks@[j]).0.z + 1,
            decreases self.chunks@.len() - i,
        {
            let chunk_point = self.chunks[i].0;
            proof {
                assert(chunk_key_in_range(self.chunks@[i as int].0));
            }
            min = min.min(chunk_point);
            max = max.max(chunk_point.add(IVec3::new(1, 1, 1)));
            i += 1;
        }
        proof {
            assert forall|c: IVec3| #[trigger] self.has_chunk(c) implies min.x <= c.x && min.y <= c.y && min.z <= c.z
                && c.x + 1 <= max.x && c.y + 1 <= max.y && c.z + 1 <= max.z by {
                let j = self.chunk_index(c);
                assert(self.chunks@[j].0 == c);
            }
            let j = choose|j: int| 0 <= j < i && min.x == (#[trigger] self.chunks@[j]).0.x;
            self.lemma_chunk_index(j);
            let j = choose|j: int| 0 <= j < i && min.y == (#[trigger] self.chunks@[j]).0.y;
            self.lemma_chunk_index(j);
            let j = choose|j: int| 0 <= j < i && min.z == (#[trigger] self.chunks@[j]).0.z;
            self.lemma_chunk_index(j);
            let j = choose|j: int| 0 <= j < i && max.x == (#[trigger] self.chunks@[j]).0.x + 1;
            self.lemma_chunk_index(j);
            let j = choose|j: int| 0 <= j < i && max.y == (#[trigger] self.chunks@[j]).0.y + 1;
            self.lemma_chunk_index(j);
            let j = choose|j: int| 0 <= j < i && max.z == (#[trigger] self.chunks@[j]).0.z + 1;
            self.lemma_chunk_index(j);
        }
        (min, max)
    }

    /// The chunk bounds as a box.
    pub fn chunk_aabb(&self) -> (r: VoxelAabb)
        requires
            self.wf(),
        ensures
            (r.min, r.max) == self.spec_chunk_bounds(),
    {
        let (min, max) = self.chunk_bounds();
        proof { self.lemma_chunk_bounds_unique(min, max); }
        VoxelAabb::new(min, max)
    }

    /// The chunk bounds in voxel coordinates.
    pub fn voxel_bounds(&self) -> (r: (IVec3, IVec3))
        requires
            self.wf(),
        ensures
            r.0.x == 62 * self.spec_chunk_bounds().0.x && r.0.y == 62 * self.spec_chunk_bounds().0.y
                && r.0.z == 62 * self.spec_chunk_bounds().0.z,
            r.1.x == 62 * self.spec_chunk_bounds().1.x && r.1.y == 62 * self.spec_chunk_bounds().1.y
                && r.1.z == 62 * self.spec_chunk_bounds().1.z,
    {
        let (min, max) = self.chunk_bounds();
        proof { self.lemma_chunk_bounds_unique(min, max); }
        (
            IVec3::new(min.x * unpadded::SIZE_SCALAR, min.y * unpadded::SIZE_SCALAR, min.z * unpadded::SIZE_SCALAR),
            IVec3::new(max.x * unpadded::SIZE_SCALAR, max.y * unpadded::SIZE_SCALAR, max.z * unpadded::SIZE_SCALAR),
        )
    }

    /// The voxel bounds as a box.
    pub fn voxel_aabb(&self) -> (r: VoxelAabb)
        requires
            self.wf(),
        ensures
            r.min.x == 62 * self.spec_chunk_bounds().0.x && r.min.y == 62 * self.spec_chunk_bounds().0.y
                && r.min.z == 62 * self.spec_chunk_bounds().0.z,
            r.max.x == 62 * self.spec_chunk_bounds().1.x && r.max.y == 62 * self.spec_chunk_bounds().1.y
                && r.max.z == 62 * self.spec_chunk_bounds().1.z,
    {
        let (min, max) = self.voxel_bounds();
        VoxelAabb::new(min, max)
    }

    /// How many chunks the bounds span on each axis.
    pub fn chunk_size(&self) -> (r: IVec3)
        requires
            self.wf(),
        ensures
            r.x == self.spec_chunk_bounds().1.x - self.spec_chunk_bounds().0.x,
            r.y == self.spec_chunk_bounds().1.y - self.spec_chunk_bounds().0.y,
            r.z == self.spec_chunk_bounds().1.z - self.spec_chunk_bounds().0.z,
    {
        let (min, max) = self.chunk_bounds();
        proof { self.lemma_chunk_bounds_unique(min, max); }
        max.sub(min)
    }

    /// How many chunks are stored.
    pub closed spec fn num_chunks(&self) -> nat {
        self.chunks@.len()
    }

    /// The bounds `chunk_bounds` returns.
    pub closed spec fn spec_chunk_bounds(&self) -> (IVec3, IVec3) {
        if self.chunks@.len() == 0 {
            (IVec3 { x: 0, y: 0, z: 0 }, IVec3 { x: 0, y: 0, z: 0 })
        } else {
            choose|r: (IVec3, IVec3)| self.bounds_of_keys(r)
        }
    }

    pub closed spec fn bounds_of_keys(&self, r: (IVec3, IVec3)) -> bool {
        &&& forall|c: IVec3| #[trigger] self.has_chunk(c) ==> r.0.x <= c.x && r.0.y <= c.y && r.0.z <= c.z
            && c.x + 1 <= r.1.x && c.y + 1 <= r.1.y && c.z + 1 <= r.1.z
        &&& exists|c: IVec3| #[trigger] self.has_chunk(c) && r.0.x == c.x
        &&& exists|c: IVec3| #[trigger] self.has_chunk(c) && r.0.y == c.y
        &&& exists|c: IVec3| #[trigger] self.has_chunk(c) && r.0.z == c.z
        &&& exists|c: IVec3| #[trigger] self.has_chunk(c) && r.1.x == c.x + 1
        &&& exists|c: IVec3| #[trigger] self.has_chunk(c) && r.1.y == c.y + 1
        &&& exists|c: IVec3| #[trigger] self.has_chunk(c) && r.1.z == c.z + 1
    }

    proof fn lemma_chunk_bounds_unique(&self, min: IVec3, max: IVec3)
        requires
            self.wf(),
            self.chunks@.len() == 0 ==> min == (IVec3 { x: 0, y: 0, z: 0 }) && max == (IVec3 { x: 0, y: 0, z: 0 }),
            self.chunks@.len() > 0 ==> self.bounds_of_keys((min, max)),
            chunk_key_in_range(min),
            -34636830 <= max.x <= 34636831 && -34636830 <= max.y <= 34636831 && -34636830 <= max.z <= 34636831,
        ensures
            self.spec_chunk_bounds() == (min, max),
    {
        if self.chunks@.len() > 0 {
            let r = choose|r: (IVec3, IVec3)| self.bounds_of_keys(r);
            assert(self.bounds_of_keys(r));
            let c = choose|c: IVec3| #[trigger] self.has_chunk(c) && r.0.x == c.x;
            let d = choose|c: IVec3| #[trigger] self.has_chunk(c) && min.x == c.x;
            assert(r.0.x == min.x);
            let c = choose|c: IVec3| #[trigger] self.has_chunk(c) && r.0.y == c.y;
            let d = choose|c: IVec3| #[trigger] self.has_chunk(c) && min.y == c.y;
            assert(r.0.y == min.y);
            let c = choose|c: IVec3| #[trigger] self.has_chunk(c) && r.0.z == c.z;
            let d = choose|c: IVec3| #[trigger] self.has_chunk(c) && min.z == c.z;
            assert(r.0.z == min.z);
            let c = choose|c: IVec3| #[trigger] self.has_chunk(c) && r.1.x == c.x + 1;
            let d = choose|c: IVec3| #[trigger] self.has_chunk(c) && max.x == c.x + 1;
            assert(r.1.x == max.x);
            let c = choose|c: IVec3| #[trigger] self.has_chunk(c) && r.1.y == c.y + 1;
            let d = choose|c: IVec3| #[trigger] self.has_chunk(c) && max.y == c.y + 1;
            assert(r.1.y == max.y);
            let c = choose|c: IVec3| #[trigger] self.has_chunk(c) && r.1.z == c.z + 1;
            let d = choose|c: IVec3| #[trigger] self.has_chunk(c) && max.z == c.z + 1;
            assert(r.1.z == max.z);
        }
    }
}

/// A world point at which `get_voxel` can compute its chunk's origin.
pub open spec fn get_ok(p: IVec3) -> bool {
    p.x >= i32::MIN + 2 && p.y >= i32::MIN + 2 && p.z >= i32::MIN + 2
}

impl Voxels {
    /// The stored chunk positions in storage order.
    pub closed spec fn key_seq(&self) -> Seq<IVec3> {
        self.chunks@.map_values(|e: (IVec3, VoxelChunk)| e.0)
    }


    /// The chunk keys of the model are the stored chunk positions: those
    /// `has_chunk` holds of, which are the entries of `key_seq`.
    pub proof fn lemma_chunk_keys(&self)
        requires
            self.wf(),
        ensures
            forall|c: IVec3| #[trigger] self.chunk_keys().contains(c) <==> self.has_chunk(c),
            forall|c: IVec3| #[trigger] self.model().keys.contains(c) <==> self.key_seq().contains(c),
    {
        self.lemma_key_seq();
        assert forall|c: IVec3| #[trigger] self.model().keys.contains(c) <==> self.key_seq().contains(c) by {
            assert(self.model().keys == self.chunk_keys());
        }
    }

    pub proof fn lemma_key_seq(&self)
        requires
            self.wf(),
        ensures
            self.key_seq().len() == self.num_chunks(),
            forall|c: IVec3| self.key_seq().contains(c) <==> #[trigger] self.has_chunk(c),
            forall|i: int, j: int| 0 <= i < self.key_seq().len() && 0 <= j < self.key_seq().len() && i != j
                ==> self.key_seq()[i] != self.key_seq()[j],
            forall|i: int| 0 <= i < self.key_seq().len() ==> #[trigger] self.has_chunk(self.key_seq()[i])
                && chunk_key_in_range(self.key_seq()[i]),
    {
        assert forall|c: IVec3| self.key_seq().contains(c) <==> #[trigger] self.has_chunk(c) by {
            if self.has_chunk(c) {
                let i = self.chunk_index(c);
                assert(self.key_seq()[i] == c);
            }
            if self.key_seq().contains(c) {
                let i = choose|i: int| 0 <= i < self.key_seq().len() && self.key_seq()[i] == c;
                assert(self.chunks@[i].0 == c);
            }
        }
        assert forall|i: int| 0 <= i < self.key_seq().len() implies #[trigger] self.has_chunk(self.key_seq()[i])
            && chunk_key_in_range(self.key_seq()[i]) by {
            assert(self.chunks@[i].0 == self.key_seq()[i]);
            assert(chunk_key_in_range(self.chunks@[i].0));
        }
    }

    /// The stored chunk positions, in storage order.
    pub fn chunk_pos_iter(&self) -> (r: Vec<IVec3>)
        requires
            self.wf(),
        ensures
            r@ == self.key_seq(),
    {
        let mut r: Vec<IVec3> = Vec::new();
        let mut i: usize = 0;
        while i < self.chunks.len()
            invariant
                i <= self.chunks@.len(),
                r@ == self.key_seq().subrange(0, i as int),
            decreases self.chunks@.len() - i,
        {
            r.push(self.chunks[i].0);
            i += 1;
            assert(r@ =~= self.key_seq().subrange(0, i as int));
        }
        assert(r@ =~= self.key_seq());
        r
    }

    /// Every stored chunk with its position, in storage order.
    pub fn chunk_iter(&self) -> (r: Vec<(IVec3, &VoxelChunk)>)
        requires
            self.wf(),
        ensures
            r@.len() == self.key_seq().len(),
            forall|i: int| 0 <= i < r@.len() ==> (#[trigger] r@[i]).0 == self.key_seq()[i]
                && *r@[i].1 == self.chunk_of(r@[i].0) && r@[i].1.wf(),
    {
        let mut r: Vec<(IVec3, &VoxelChunk)> = Vec::new();
        let mut i: usize = 0;
        while i < self.chunks.len()
            invariant
                self.wf(),
                i <= self.chunks@.len(),
                r@.len() == i,
                forall|j: int| 0 <= j < i ==> (#[trigger] r@[j]).0 == self.key_seq()[j]
                    && *r@[j].1 == self.chunk_of(r@[j].0) && r@[j].1.wf(),
            decreases self.chunks@.len() - i,
        {
            proof {
                self.lemma_chunk_index(i as int);
            }
            r.push((self.chunks[i].0, &self.chunks[i].1));
            i += 1;
        }
        r
    }

    /// The positions of the chunks changed since the last clear, each once.
    pub fn changed_chunk_pos_iter(&self) -> (r: Vec<IVec3>)
        requires
            self.wf(),
        ensures
            r@.no_duplicates(),
            forall|c: IVec3| #[trigger] r@.contains(c) <==> self.changed_set().contains(c),
    {
        changed_table_items(&self.changed_chunks)
    }

    /// The changed chunks that are stored, each once, with their positions.
    pub fn changed_chunk_iter(&self) -> (r: Vec<(IVec3, &VoxelChunk)>)
        requires
            self.wf(),
        ensures
            forall|i: int, j: int| 0 <= i < r@.len() && 0 <= j < r@.len() && i != j
                ==> (#[trigger] r@[i]).0 != (#[trigger] r@[j]).0,
            forall|i: int| 0 <= i < r@.len() ==> self.changed_set().contains((#[trigger] r@[i]).0)
                && self.has_chunk(r@[i].0) && *r@[i].1 == self.chunk_of(r@[i].0),
            forall|c: IVec3| #[trigger] self.changed_set().contains(c) && self.has_chunk(c) ==>
                exists|i: int| 0 <= i < r@.len() && (#[trigger] r@[i]).0 == c,
    {
        let items = changed_table_items(&self.changed_chunks);
        let mut r: Vec<(IVec3, &VoxelChunk)> = Vec::new();
        let mut i: usize = 0;
        while i < items.len()
            invariant
                self.wf(),
                i <= items@.len(),
                items@.no_duplicates(),
                forall|c: IVec3| #[trigger] items@.contains(c) <==> self.changed_set().contains(c),
                forall|a: int, b: int| 0 <= a < r@.len() && 0 <= b < r@.len() && a != b
                    ==> (#[trigger] r@[a]).0 != (#[trigger] r@[b]).0,
                forall|j: int| 0 <= j < r@.len() ==> exists|k: int| 0 <= k < i && items@[k] == (#[trigger] r@[j]).0,
                forall|j: int| 0 <= j < r@.len() ==> self.changed_set().contains((#[trigger] r@[j]).0)
                    && self.has_chunk(r@[j].0) && *r@[j].1 == self.chunk_of(r@[j].0),
                forall|j: int| 0 <= j < i && self.has_chunk(#[trigger] items@[j]) ==>
                    exists|k: int| 0 <= k < r@.len() && (#[trigger] r@[k]).0 == items@[j],
            decreases items@.len() - i,
        {
            let p = items[i];
            proof {
                assert(items@.contains(p));
            }
            match self.get_chunk(p) {
                Some(chunk) => {
                    let ghost old_r = r@;
                    proof {
                        assert forall|j: int| 0 <= j < old_r.len() implies old_r[j].0 != p by {
                            let k = choose|k: int| 0 <= k < i && items@[k] == (#[trigger] old_r[j]).0;
                            assert(items@[k] != items@[i as int]);
                        }
                    }
                    r.push((p, chunk));
                    proof {
                        assert(r@[old_r.len() as int].0 == p);
                        assert forall|a: int, b: int| 0 <= a < r@.len() && 0 <= b < r@.len() && a != b
                            implies (#[trigger] r@[a]).0 != (#[trigger] r@[b]).0 by {
                            if a < old_r.len() && b < old_r.len() {
                                assert(old_r[a].0 != old_r[b].0);
                            } else if a < old_r.len() {
                                assert(old_r[a].0 != p);
                            } else if b < old_r.len() {
                                assert(old_r[b].0 != p);
                            }
                        }
                        assert forall|j: int| 0 <= j < r@.len() implies exists|k: int| 0 <= k < i + 1 && items@[k] == (#[trigger] r@[j]).0 by {
                            if j < old_r.len() {
                                let k = choose|k: int| 0 <= k < i && items@[k] == (#[trigger] old_r[j]).0;
                                assert(items@[k] == r@[j].0);
                            } else {
                                assert(items@[i as int] == r@[j].0);
                            }
                        }
                        assert forall|j: int| 0 <= j < i + 1 && self.has_chunk(#[trigger] items@[j]) implies
                            exists|k: int| 0 <= k < r@.len() && (#[trigger] r@[k]).0 == items@[j] by {
                            if j < i {
                                let k = choose|k: int| 0 <= k < old_r.len() && (#[trigger] old_r[k]).0 == items@[j];
                                assert(r@[k] == old_r[k]);
                            } else {
                                assert(r@[old_r.len() as int].0 == items@[j]);
                            }
                        }
                    }
                },
                None => {},
            }
            i += 1;
        }
        proof {
            assert forall|c: IVec3| #[trigger] self.changed_set().contains(c) && self.has_chunk(c) implies
                exists|k: int| 0 <= k < r@.len() && (#[trigger] r@[k]).0 == c by {
                assert(items@.contains(c));
                let j = choose|j: int| 0 <= j < items@.len() && items@[j] == c;
                assert(self.has_chunk(items@[j]));
            }
        }
        r
    }

    /// Whether every queued point can be simulated: its neighbours, and
    /// theirs, have coordinates.
    pub fn updates_simulable(&self) -> (r: bool)
        ensures
            r == crate::voxel::simulation::updates_in_range(self.updates()),
    {
        let lo: i32 = -2147482999;
        let hi: i32 = 2147482999;
        let mut i: usize = 0;
        while i < self.update_voxels.len()
            invariant
                i <= self.update_voxels@.len(),
                lo == -2147482999 && hi == 2147482999,
                forall|j: int| 0 <= j < i ==> crate::voxel::simulation::sim_range(#[trigger] self.update_voxels@[j].0),
            decreases self.update_voxels@.len() - i,
        {
            let p = self.update_voxels[i].0;
            if p.x < lo || p.x > hi || p.y < lo || p.y > hi || p.z < lo || p.z > hi {
                assert(!crate::voxel::simulation::sim_range(self.update_voxels@[i as int].0));
                return false;
            }
            i += 1;
        }
        true
    }

    /// Forget which chunks changed.
    pub fn clear_changed_chunks(&mut self)
        requires
            old(self).wf(),
        ensures
            final(self).wf(),
            final(self).model() == (VoxelsModel { changed: Set::empty(), ..old(self).model() }),
    {
        let ghost o = *self;
        changed_table_clear(&mut self.changed_chunks);
        proof {
            Self::lemma_same_chunks(*self, o);
            assert(self.changed_set() =~= Set::empty());
            assert(self.model() =~= (VoxelsModel { changed: Set::empty(), ..old(self).model() }));
        }
    }
}

/// The world voxel at `p` moved by the `k`-th neighbourhood offset.
pub open spec fn adjacent_world(w: Voxels, p: IVec3, k: int) -> Voxel {
    w.world_at(p.x + update_offset(k).0, p.y + update_offset(k).1, p.z + update_offset(k).2)
}

pub proof fn lemma_update_offset(k: int)
    requires
        0 <= k < 27,
    ensures
        -1 <= update_offset(k).0 <= 1,
        -1 <= update_offset(k).1 <= 1,
        -1 <= update_offset(k).2 <= 1,
{
    assert(-1 <= (k / 3) % 3 - 1 <= 1 && -1 <= k / 9 - 1 <= 1 && -1 <= k % 3 - 1 <= 1) by (nonlinear_arith)
        requires 0 <= k < 27 {}
}

impl Voxels {
    /// What a chunk stores next to an interior point is the world's voxel
    /// there.
    proof fn lemma_padding_read(&self, point: IVec3, dx: int, dy: int, dz: int)
        requires
            self.wf(),
            point_in_range(point) || chunk_key_in_range(home_chunk(point)),
            -1 <= dx <= 1 && -1 <= dy <= 1 && -1 <= dz <= 1,
        ensures
            ({
                let h = home_chunk(point);
                let q = rel(h, point);
                self.stored(h, q.0 + 1 + dx, q.1 + 1 + dy, q.2 + 1 + dz)
                    == self.world_at(point.x + dx, point.y + dy, point.z + dz)
            }),
    {
        reveal(Voxels::coherent);
        lemma_home_chunk(point);
        let h = home_chunk(point);
        let q = rel(h, point);
        assert(self.stored(h, q.0 + 1 + dx, q.1 + 1 + dy, q.2 + 1 + dz)
            == self.world_at(62 * h.x + q.0 + 1 + dx - 1, 62 * h.y + q.1 + 1 + dy - 1, 62 * h.z + q.2 + 1 + dz - 1));
    }

    /// A point with a coordinate below `i32::MIN + 2` lies in a chunk
    /// position beyond the stored range, so the world holds air there.
    proof fn lemma_far_air(&self, q: IVec3)
        requires
            self.wf(),
            !get_ok(q),
        ensures
            self.world(q) == Voxel::Air,
    {
        reveal(Voxels::world);
        let h = home_chunk(q);
        assert(!chunk_key_in_range(h));
        if self.has_chunk(h) {
            self.lemma_has_chunk_wf(h);
        }
    }

    /// The 27 voxels of the 3x3x3 block around a point, y outermost, then x,
    /// then z, each from -1 to 1. Away from the low faces of its chunk, and
    /// when that chunk lies in the stored range, they are read straight from
    /// the chunk's array (its padding holds the neighbours' voxels);
    /// otherwise one by one from the world.
    pub fn get_adjacent_voxels(&self, point: IVec3) -> (r: [Voxel; 27])
        requires
            self.wf(),
            adjacent_ok(point),
        ensures
            forall|k: int| 0 <= k < 27 ==> #[trigger] r@[k] == adjacent_world(*self, point, k),
    {
        let center = Self::relative_point_unoriented(point);
        let chunk_point = Self::find_chunk(point);
        let mut out = [Voxel::Air; 27];
        let on_face = center.x == 0 || center.x == unpadded::SIZE_SCALAR || center.y == 0 || center.y
            == unpadded::SIZE_SCALAR || center.z == 0 || center.z == unpadded::SIZE_SCALAR;
        let far = chunk_point.x < -34636830 || chunk_point.x > 34636830 || chunk_point.y < -34636830
            || chunk_point.y > 34636830 || chunk_point.z < -34636830 || chunk_point.z > 34636830;
        if on_face || far {
            let mut k: i32 = 0;
            while k < 27
                invariant
                    0 <= k <= 27,
                    self.wf(),
                    adjacent_ok(point),
                    forall|j: int| 0 <= j < k ==> #[trigger] out@[j] == adjacent_world(*self, point, j),
                decreases 27 - k,
            {
                proof { lemma_update_offset(k as int); }
                let offset = IVec3::new((k / 3) % 3 - 1, k / 9 - 1, k % 3 - 1);
                let q = point.add(offset);
                let v = if q.x >= i32::MIN + 2 && q.y >= i32::MIN + 2 && q.z >= i32::MIN + 2 {
                    self.get_voxel(q)
                } else {
                    proof { self.lemma_far_air(q); }
                    Voxel::Air
                };
                out[k as usize] = v;
                k += 1;
            }
            out
        } else {
            proof {
                assert(chunk_key_in_range(home_chunk(point)));
            }
            match self.get_chunk(chunk_point) {
                None => {
                    proof {
                        assert forall|k: int| 0 <= k < 27 implies #[trigger] out@[k] == adjacent_world(*self, point, k) by {
                            lemma_update_offset(k);
                            self.lemma_padding_read(point, update_offset(k).0, update_offset(k).1, update_offset(k).2);
                        }
                    }
                    out
                },
                Some(chunk) => {
                    let center_index = padded::pad_linearize(center.to_array());
                    let mut k: i32 = 0;
                    while k < 27
                        invariant
                            0 <= k <= 27,
                            self.wf(),
                            chunk_key_in_range(home_chunk(point)),
                            chunk.wf(),
                            self.has_chunk(chunk_point),
                            *chunk == self.chunk_of(chunk_point),
                            chunk_point == home_chunk(point),
                            center.x == rel(home_chunk(point), point).0,
                            center.y == rel(home_chunk(point), point).1,
                            center.z == rel(home_chunk(point), point).2,
                            1 <= center.x < 62 && 1 <= center.y < 62 && 1 <= center.z < 62,
                            center_index == padded_index(center.x + 1, center.y + 1, center.z + 1),
                            forall|j: int| 0 <= j < k ==> #[trigger] out@[j] == adjacent_world(*self, point, j),
                        decreases 27 - k,
                    {
                        proof { lemma_update_offset(k as int); }
                        let dx = (k / 3) % 3 - 1;
                        let dy = k / 9 - 1;
                        let dz = k % 3 - 1;
                        let stride: isize = dz as isize + (dx as isize) * padded::X_STRIDE_I + (dy as isize) * padded::Y_STRIDE_I;
                        let index = (center_index as isize + stride) as usize;
                        proof {
                            assert(index == padded_index(center.x + 1 + dx, center.y + 1 + dy, center.z + 1 + dz));
                            self.lemma_padding_read(point, dx as int, dy as int, dz as int);
                        }
                        let v = chunk.voxel_from_index(index);
                        out[k as usize] = v;
                        k += 1;
                    }
                    out
                },
            }
        }
    }
}

/// Whether every neighbour of `p` has `i32` coordinates.
pub open spec fn adjacent_ok(p: IVec3) -> bool {
    -2147483647 <= p.x <= 2147483646 && -2147483647 <= p.y <= 2147483646 && -2147483647 <= p.z
        <= 2147483646
}

/// The voxel at `p` moved by `o`.
pub open spec fn offset_world(w: Voxels, p: IVec3, o: [Scalar; 3]) -> Voxel {
    w.world_at(p.x + o[0], p.y + o[1], p.z + o[2])
}

/// Each offset moves at most one voxel along each axis.
pub open spec fn unit_offsets(offsets: Seq<[Scalar; 3]>) -> bool {
    forall|i: int| 0 <= i < offsets.len() ==> {
        let o = #[trigger] offsets[i];
        -1 <= o[0] <= 1 && -1 <= o[1] <= 1 && -1 <= o[2] <= 1
    }
}

impl Voxels {
    /// The voxels at `point` moved by each offset, in order. Away from the
    /// low faces of its chunk they are read straight from the chunk's array;
    /// otherwise one by one from the world.
    pub fn get_nearby_voxels(&self, point: IVec3, offsets: &[[Scalar; 3]]) -> (r: Vec<Voxel>)
        requires
            self.wf(),
            point_in_range(point),
            unit_offsets(offsets@),
        ensures
            r@.len() == offsets@.len(),
            forall|i: int| 0 <= i < offsets@.len() ==> #[trigger] r@[i] == offset_world(*self, point, offsets@[i]),
    {
        let center = Self::relative_point_unoriented(point);
        let mut out: Vec<Voxel> = Vec::new();
        if center.x == 0 || center.x == unpadded::SIZE_SCALAR || center.y == 0 || center.y
            == unpadded::SIZE_SCALAR || center.z == 0 || center.z == unpadded::SIZE_SCALAR {
            let mut i: usize = 0;
            while i < offsets.len()
                invariant
                    i <= offsets@.len(),
                    self.wf(),
                    point_in_range(point),
                    unit_offsets(offsets@),
                    out@.len() == i,
                    forall|j: int| 0 <= j < i ==> #[trigger] out@[j] == offset_world(*self, point, offsets@[j]),
                decreases offsets@.len() - i,
            {
                let o = offsets[i];
                assert(-1 <= o[0] <= 1 && -1 <= o[1] <= 1 && -1 <= o[2] <= 1) by {
                    assert(o == offsets@[i as int]);
                }
                let v = self.get_voxel(point.add(IVec3::from_array(o)));
                out.push(v);
                i += 1;
            }
            out
        } else {
            let chunk_point = Self::find_chunk(point);
            match self.get_chunk(chunk_point) {
                None => {
                    let mut i: usize = 0;
                    while i < offsets.len()
                        invariant
                            i <= offsets@.len(),
                            self.wf(),
                            point_in_range(point),
                            unit_offsets(offsets@),
                            !self.has_chunk(chunk_point),
                            chunk_point == home_chunk(point),
                            1 <= center.x < 62 && 1 <= center.y < 62 && 1 <= center.z < 62,
                            center.x == rel(home_chunk(point), point).0,
                            center.y == rel(home_chunk(point), point).1,
                            center.z == rel(home_chunk(point), point).2,
                            out@.len() == i,
                            forall|j: int| 0 <= j < i ==> #[trigger] out@[j] == offset_world(*self, point, offsets@[j]),
                        decreases offsets@.len() - i,
                    {
                        let o = offsets[i];
                        proof {
                            assert(o == offsets@[i as int]);
                            self.lemma_padding_read(point, o[0] as int, o[1] as int, o[2] as int);
                        }
                        out.push(Voxel::Air);
                        i += 1;
                    }
                    out
                },
                Some(chunk) => {
                    let center_index = padded::pad_linearize(center.to_array());
                    let mut i: usize = 0;
                    while i < offsets.len()
                        invariant
                            i <= offsets@.len(),
                            self.wf(),
                            point_in_range(point),
                            unit_offsets(offsets@),
                            chunk.wf(),
                            self.has_chunk(chunk_point),
                            *chunk == self.chunk_of(chunk_point),
                            chunk_point == home_chunk(point),
                            center.x == rel(home_chunk(point), point).0,
                            center.y == rel(home_chunk(point), point).1,
                            center.z == rel(home_chunk(point), point).2,
                            1 <= center.x < 62 && 1 <= center.y < 62 && 1 <= center.z < 62,
                            center_index == padded_index(center.x + 1, center.y + 1, center.z + 1),
                            out@.len() == i,
                            forall|j: int| 0 <= j < i ==> #[trigger] out@[j] == offset_world(*self, point, offsets@[j]),
                        decreases offsets@.len() - i,
                    {
                        let o = offsets[i];
                        assert(o == offsets@[i as int]);
                        let stride = padded::pad_linearize_offset(o);
                        let index = (center_index as isize + stride) as usize;
                        proof {
                            assert(index == padded_index(center.x + 1 + o[0], center.y + 1 + o[1], center.z + 1 + o[2]));
                            self.lemma_padding_read(point, o[0] as int, o[1] as int, o[2] as int);
                        }
                        let v = chunk.voxel_from_index(index);
                        out.push(v);
                        i += 1;
                    }
                    out
                },
            }
        }
    }
}


/// The updates queued around each of the first `n` points, in order.
pub open spec fn neighborhoods(pts: Seq<IVec3>, n: int) -> Seq<VoxelUpdate>
    decreases n,
{
    if n <= 0 {
        Seq::empty()
    } else {
        neighborhoods(pts, n - 1) + neighborhood(pts[n - 1])
    }
}

/// The model after the first `n` points are written with their voxels into
/// every chunk that stores them, in order.
pub open spec fn overlap_all(m: VoxelsModel, pts: Seq<IVec3>, vs: Seq<Voxel>, n: int) -> VoxelsModel
    decreases n,
{
    if n <= 0 {
        m
    } else {
        model_overlap(overlap_all(m, pts, vs, n - 1), pts[n - 1], vs[n - 1])
    }
}

/// The model after `set_voxel` is called on the first `n` pairs, in order.
pub open spec fn set_voxel_all(m: VoxelsModel, pts: Seq<IVec3>, vs: Seq<Voxel>, n: int) -> VoxelsModel
    decreases n,
{
    if n <= 0 {
        m
    } else {
        model_set_voxel(set_voxel_all(m, pts, vs, n - 1), pts[n - 1], vs[n - 1])
    }
}

/// The model after `set_voxels(pts, vs)`: every point's neighbourhood is
/// queued, then each point paired with a voxel is written.
pub open spec fn model_set_voxels(m: VoxelsModel, pts: Seq<IVec3>, vs: Seq<Voxel>) -> VoxelsModel {
    let n = if pts.len() <= vs.len() { pts.len() as int } else { vs.len() as int };
    overlap_all(VoxelsModel { updates: m.updates + neighborhoods(pts, pts.len() as int), ..m }, pts, vs, n)
}

/// Whether every point lies in the height band that `set_voxel` writes.
pub open spec fn all_in_band(pts: Seq<IVec3>) -> bool {
    forall|i: int| 0 <= i < pts.len() ==> -50 <= (#[trigger] pts[i]).y <= 250
}

/// Whether every point is in range.
pub open spec fn all_in_range(pts: Seq<IVec3>) -> bool {
    forall|i: int| 0 <= i < pts.len() ==> point_in_range(#[trigger] pts[i])
}

/// Writing only changes updates through the queued neighbourhoods.
proof fn lemma_overlap_all_updates(m: VoxelsModel, pts: Seq<IVec3>, vs: Seq<Voxel>, n: int)
    ensures
        overlap_all(m, pts, vs, n).updates == m.updates,
        overlap_all(m, pts, vs, n).clip == m.clip,
    decreases n,
{
    if n > 0 {
        lemma_overlap_all_updates(m, pts, vs, n - 1);
    }
}

/// Setting voxels one by one in the height band queues the same updates and
/// writes the same voxels as the batch.
proof fn lemma_set_voxel_all(m: VoxelsModel, pts: Seq<IVec3>, vs: Seq<Voxel>, n: int)
    requires
        0 <= n <= pts.len(),
        n <= vs.len(),
        all_in_band(pts),
    ensures
        set_voxel_all(m, pts, vs, n) == overlap_all(
            VoxelsModel { updates: m.updates + neighborhoods(pts, n), ..m }, pts, vs, n),
    decreases n,
{
    if n == 0 {
        assert(m.updates + neighborhoods(pts, 0) =~= m.updates);
        assert((VoxelsModel { updates: m.updates + neighborhoods(pts, n), ..m }) =~= m);
    } else {
        lemma_set_voxel_all(m, pts, vs, n - 1);
        let m_prev = VoxelsModel { updates: m.updates + neighborhoods(pts, n - 1), ..m };
        let m_cur = VoxelsModel { updates: m.updates + neighborhoods(pts, n), ..m };
        lemma_overlap_all_updates(m_prev, pts, vs, n - 1);
        lemma_overlap_all_updates(m_cur, pts, vs, n - 1);
        assert(-50 <= pts[n - 1].y <= 250);
        lemma_overlap_all_same(m_prev, m_cur, pts, vs, n - 1);
        assert(m.updates + neighborhoods(pts, n) =~= m.updates + neighborhoods(pts, n - 1) + neighborhood(pts[n - 1]));
        let a = set_voxel_all(m, pts, vs, n);
        let b = overlap_all(m_cur, pts, vs, n);
        assert(a.updates =~= b.updates);
        assert(a =~= b);
    }
}

/// Folding writes over two models that differ only in their queued updates
/// gives models that differ only there.
proof fn lemma_overlap_all_same(m1: VoxelsModel, m2: VoxelsModel, pts: Seq<IVec3>, vs: Seq<Voxel>, n: int)
    requires
        m1.world == m2.world,
        m1.keys == m2.keys,
        m1.health == m2.health,
        m1.changed == m2.changed,
        m1.clip == m2.clip,
    ensures
        overlap_all(m1, pts, vs, n) == (VoxelsModel { updates: overlap_all(m1, pts, vs, n).updates, ..overlap_all(m2, pts, vs, n) }),
    decreases n,
{
    if n > 0 {
        lemma_overlap_all_same(m1, m2, pts, vs, n - 1);
        let a = overlap_all(m1, pts, vs, n);
        let b = overlap_all(m2, pts, vs, n);
        assert(a.world =~= b.world);
        assert(a.keys =~= b.keys);
        assert(a.health =~= b.health);
        assert(a.changed =~= b.changed);
    }
}

/// Setting a batch of voxels does the same as setting them one by one, when
/// every point is in the height band that `set_voxel` writes and each point
/// has its voxel.
pub proof fn lemma_set_voxels_batch(m: VoxelsModel, pts: Seq<IVec3>, vs: Seq<Voxel>)
    requires
        pts.len() == vs.len(),
        all_in_band(pts),
    ensures
        model_set_voxels(m, pts, vs) == set_voxel_all(m, pts, vs, pts.len() as int),
{
    lemma_set_voxel_all(m, pts, vs, pts.len() as int);
}

impl Voxels {
    /// Queue every point's neighbourhood, then write each point paired with a
    /// voxel (the shorter of the two lists decides how many) into every chunk
    /// that stores it. Unlike `set_voxel`, no height band applies.
    pub fn set_voxels(&mut self, voxel_points: &[IVec3], voxels: &[Voxel])
        requires
            old(self).wf(),
            all_in_range(voxel_points@),
        ensures
            final(self).wf(),
            final(self).model() == model_set_voxels(old(self).model(), voxel_points@, voxels@),
    {
        let ghost m0 = self.model();
        let mut i: usize = 0;
        while i < voxel_points.len()
            invariant
                i <= voxel_points@.len(),
                self.wf(),
                all_in_range(voxel_points@),
                self.model() == (VoxelsModel { updates: m0.updates + neighborhoods(voxel_points@, i as int), ..m0 }),
            decreases voxel_points@.len() - i,
        {
            let p = voxel_points[i];
            assert(point_in_range(voxel_points@[i as int]));
            self.set_update_voxels(p);
            proof {
                assert(m0.updates + neighborhoods(voxel_points@, i + 1) =~= m0.updates
                    + neighborhoods(voxel_points@, i as int) + neighborhood(voxel_points@[i as int]));
                assert(self.model() =~= (VoxelsModel { updates: m0.updates + neighborhoods(voxel_points@, i + 1), ..m0 }));
            }
            i += 1;
        }
        let ghost m1 = self.model();
        let n: usize = if voxel_points.len() <= voxels.len() { voxel_points.len() } else { voxels.len() };
        let mut k: usize = 0;
        while k < n
            invariant
                k <= n,
                n <= voxel_points@.len(),
                n <= voxels@.len(),
                n == (if voxel_points@.len() <= voxels@.len() { voxel_points@.len() as int } else { voxels@.len() as int }),
                self.wf(),
                all_in_range(voxel_points@),
                self.model() == overlap_all(m1, voxel_points@, voxels@, k as int),
            decreases n - k,
        {
            let p = voxel_points[k];
            let v = voxels[k];
            assert(point_in_range(voxel_points@[k as int]));
            self.set_voxel_chunk_overlap(p, v);
            k += 1;
        }
    }
}


/// The padded coordinate of `p` in chunk `c`.
pub open spec fn boundary_point(c: IVec3, p: IVec3) -> IVec3 {
    IVec3 { x: (p.x - 62 * c.x + 1) as i32, y: (p.y - 62 * c.y + 1) as i32, z: (p.z - 62 * c.z + 1) as i32 }
}

/// For each of the first `n` points, every chunk visited when setting it,
/// paired with the point's padded coordinate in that chunk.
pub open spec fn relative_pairs(pts: Seq<IVec3>, n: int) -> Seq<(IVec3, IVec3)>
    decreases n,
{
    if n <= 0 {
        Seq::empty()
    } else {
        let p = pts[n - 1];
        relative_pairs(pts, n - 1) + overlap_seq(p).map_values(|c: IVec3| (c, boundary_point(c, p)))
    }
}

/// The world point of the `j`-th interior point of chunk `key`.
pub open spec fn chunk_point_at(key: IVec3, j: int) -> IVec3 {
    IVec3 {
        x: (62 * key.x + iter_point(j).0) as i32,
        y: (62 * key.y + iter_point(j).1) as i32,
        z: (62 * key.z + iter_point(j).2) as i32,
    }
}

/// The voxels at which two worlds differ, among the first `n` points.
pub open spec fn diffs(a: Voxels, b: Voxels, pts: Seq<IVec3>, n: int) -> Seq<VoxelDiff>
    decreases n,
{
    if n <= 0 {
        Seq::empty()
    } else {
        let p = pts[n - 1];
        if a.world(p) != b.world(p) {
            diffs(a, b, pts, n - 1).push(VoxelDiff { point: p, v1: a.world(p), v2: b.world(p) })
        } else {
            diffs(a, b, pts, n - 1)
        }
    }
}

/// The differences among fewer points are a prefix of those among more.
proof fn lemma_diffs_prefix(a: Voxels, b: Voxels, pts: Seq<IVec3>, n: int, m: int)
    requires
        0 <= n <= m,
    ensures
        diffs(a, b, pts, n).len() <= diffs(a, b, pts, m).len(),
        diffs(a, b, pts, m).take(diffs(a, b, pts, n).len() as int) == diffs(a, b, pts, n),
    decreases m - n,
{
    if n < m {
        lemma_diffs_prefix(a, b, pts, n, m - 1);
        let dn = diffs(a, b, pts, n);
        let dm1 = diffs(a, b, pts, m - 1);
        let dm = diffs(a, b, pts, m);
        assert(dm.take(dn.len() as int) =~= dm1.take(dn.len() as int));
    } else {
        assert(diffs(a, b, pts, m).take(diffs(a, b, pts, m).len() as int) =~= diffs(a, b, pts, m));
    }
}

proof fn lemma_split_index(a: int, j: int)
    requires
        0 <= a,
        0 <= j < 238328,
    ensures
        (a * 238328 + j) / 238328 == a,
        (a * 238328 + j) % 238328 == j,
{
    assert((a * 238328 + j) / 238328 == a && (a * 238328 + j) % 238328 == j) by (nonlinear_arith)
        requires 0 <= a, 0 <= j < 238328 {}
}

impl Voxels {
    /// Every interior point of every stored chunk, chunk by chunk in storage
    /// order, each chunk's points in its own iteration order.
    pub open spec fn world_points(&self) -> Seq<IVec3> {
        Seq::new(
            self.key_seq().len() * 238328,
            |t: int| chunk_point_at(self.key_seq()[t / 238328], t % 238328),
        )
    }

    /// For each point, every chunk visited when setting it, paired with the
    /// point's padded coordinate in that chunk.
    pub fn get_relative_points(points: &[IVec3]) -> (r: Vec<(IVec3, IVec3)>)
        requires
            all_in_range(points@),
        ensures
            r@ == relative_pairs(points@, points@.len() as int),
    {
        let mut out: Vec<(IVec3, IVec3)> = Vec::new();
        let mut i: usize = 0;
        while i < points.len()
            invariant
                i <= points@.len(),
                all_in_range(points@),
                out@ == relative_pairs(points@, i as int),
            decreases points@.len() - i,
        {
            let p = points[i];
            assert(point_in_range(points@[i as int]));
            let list = Self::chunks_overlapping_voxel(p);
            let ghost base = out@;
            let mut k: usize = 0;
            while k < list.len()
                invariant
                    k <= list@.len(),
                    point_in_range(p),
                    list@ == overlap_seq(p),
                    forall|c: IVec3| list@.contains(c) <==> #[trigger] in_overlap(c, p),
                    forall|j: int| 0 <= j < list@.len() ==> chunk_key_in_range(#[trigger] list@[j]),
                    out@ == base + list@.subrange(0, k as int).map_values(|c: IVec3| (c, boundary_point(c, p))),
                decreases list@.len() - k,
            {
                let c = list[k];
                assert(list@.contains(list@[k as int]));
                assert(in_overlap(c, p));
                assert(chunk_key_in_range(list@[k as int]));
                let rp = Self::relative_point_with_boundary(c, p);
                out.push((c, rp));
                proof {
                    assert(rp == boundary_point(c, p));
                    assert(list@.subrange(0, k + 1).map_values(|c: IVec3| (c, boundary_point(c, p)))
                        =~= list@.subrange(0, k as int).map_values(|c: IVec3| (c, boundary_point(c, p))).push((c, rp)));
                    assert(out@ =~= base + list@.subrange(0, k + 1).map_values(|c: IVec3| (c, boundary_point(c, p))));
                }
                k += 1;
            }
            proof {
                assert(list@.subrange(0, list@.len() as int) =~= list@);
                assert(points@[i as int] == p);
            }
            i += 1;
        }
        out
    }

    /// Every interior point of every stored chunk, in world coordinates.
    pub fn point_iter(&self) -> (r: Vec<IVec3>)
        requires
            self.wf(),
        ensures
            r@ == self.world_points(),
    {
        let keys = self.chunk_pos_iter();
        let mut out: Vec<IVec3> = Vec::new();
        let mut a: usize = 0;
        proof {
            self.lemma_key_seq();
        }
        while a < self.chunks.len()
            invariant
                a <= self.chunks@.len(),
                self.wf(),
                keys@ == self.key_seq(),
                self.key_seq().len() == self.chunks@.len(),
                forall|i: int| 0 <= i < self.key_seq().len() ==> chunk_key_in_range(#[trigger] self.key_seq()[i]),
                out@.len() == a * 238328,
                forall|t: int| 0 <= t < out@.len() ==> #[trigger] out@[t] == chunk_point_at(self.key_seq()[t / 238328], t % 238328),
            decreases self.chunks@.len() - a,
        {
            let key = keys[a];
            assert(chunk_key_in_range(self.key_seq()[a as int]));
            let base = IVec3::new(key.x * 62, key.y * 62, key.z * 62);
            let pts = self.chunks[a].1.point_iter();
            let mut j: usize = 0;
            while j < 238328
                invariant
                    j <= 238328,
                    a < self.key_seq().len(),
                    key == self.key_seq()[a as int],
                    chunk_key_in_range(key),
                    base.x == 62 * key.x && base.y == 62 * key.y && base.z == 62 * key.z,
                    pts@.len() == 238328,
                    forall|t: int| 0 <= t < 238328 ==> #[trigger] is_iter_point(pts@[t], t),
                    out@.len() == a * 238328 + j,
                    forall|t: int| 0 <= t < out@.len() ==> #[trigger] out@[t] == chunk_point_at(self.key_seq()[t / 238328], t % 238328),
                decreases 238328 - j,
            {
                let q = pts[j];
                assert(is_iter_point(pts@[j as int], j as int));
                proof {
                    assert(0 <= j % 62 < 62 && 0 <= (j / 62) % 62 < 62 && 0 <= j / 3844 < 62) by (nonlinear_arith)
                        requires j < 238328 {}
                }
                let wp = base.add(IVec3::from_array(q));
                proof {
                    lemma_split_index(a as int, j as int);
                }
                out.push(wp);
                j += 1;
            }
            a += 1;
        }
        proof {
            assert(out@ =~= self.world_points());
        }
        out
    }

    /// The points (of this world's chunks, in `point_iter` order) where the
    /// two worlds hold different voxels; the search stops once more than
    /// `cutoff` are found.
    pub fn diff(&self, other: &Voxels, cutoff: usize) -> (r: Vec<VoxelDiff>)
        requires
            self.wf(),
            other.wf(),
        ensures
            ({
                let all = diffs(*self, *other, self.world_points(), self.world_points().len() as int);
                r@ == all.take(if all.len() <= cutoff + 1 { all.len() as int } else { cutoff + 1 })
            }),
    {
        let pts = self.point_iter();
        let ghost wp = self.world_points();
        let mut out: Vec<VoxelDiff> = Vec::new();
        let mut i: usize = 0;
        proof {
            self.lemma_key_seq();
        }
        while i < pts.len()
            invariant
                i <= pts@.len(),
                pts@ == wp,
                wp == self.world_points(),
                self.wf(),
                other.wf(),
                forall|k: int| 0 <= k < self.key_seq().len() ==> chunk_key_in_range(#[trigger] self.key_seq()[k]),
                out@ == diffs(*self, *other, wp, i as int),
                out@.len() <= cutoff,
            decreases pts@.len() - i,
        {
            let p = pts[i];
            proof {
                let t = i as int;
                assert(0 <= t / 238328 < self.key_seq().len()) by (nonlinear_arith)
                    requires 0 <= t < self.key_seq().len() * 238328 {}
                assert(chunk_key_in_range(self.key_seq()[t / 238328]));
                assert(0 <= t % 238328 < 238328);
                let j = t % 238328;
                assert(0 <= j % 62 < 62 && 0 <= (j / 62) % 62 < 62 && 0 <= j / 3844 < 62) by (nonlinear_arith)
                    requires 0 <= j < 238328 {}
            }
            let v1 = self.get_voxel(p);
            let v2 = other.get_voxel(p);
            if v1 != v2 {
                out.push(VoxelDiff { point: p, v1, v2 });
                if out.len() > cutoff {
                    proof {
                        let all = diffs(*self, *other, wp, wp.len() as int);
                        lemma_diffs_prefix(*self, *other, wp, i + 1, wp.len() as int);
                    }
                    return out;
                }
            }
            i += 1;
        }
        proof {
            assert(pts@.len() == wp.len());
        }
        out
    }
}


/// `RangeInclusive::start`: the range's lower bound, as it was made.
#[verifier::external_body]
fn range_start(r: &RangeInclusive<i32>) -> (s: i32)
    ensures
        s == r@.start,
{
    *r.start()
}

/// `RangeInclusive::end`: the range's upper bound, as it was made.
#[verifier::external_body]
fn range_end(r: &RangeInclusive<i32>) -> (e: i32)
    ensures
        e == r@.end,
{
    *r.end()
}

/// The inputs on which `smooth_voxel` stays in `i32`: the column can be
/// written (`set_voxel`'s range in x and z), every probed height added to
/// `pos.y` stays a coordinate that `get_voxel` reads (one below the column
/// included, for its top voxel), and fifteen times the largest height (the
/// weighted sum of nine heights) fits.
pub open spec fn smooth_in_range(pos: IVec3, start: int, end: int) -> bool {
    &&& -2147483000 <= pos.x <= 2147483000 && -2147483000 <= pos.z <= 2147483000
    &&& i32::MIN + 3 <= pos.y + (if start < 0 { start } else { 0 })
    &&& pos.y + (if end > 0 { end } else { 0 }) <= i32::MAX
    &&& -143165576 <= start && end <= 143165576
}

/// The sum of the first `k` smoothing weights.
pub open spec fn weight_prefix(k: int) -> int {
    if k <= 0 {
        0
    } else if k == 1 {
        1
    } else if k == 2 {
        3
    } else if k == 3 {
        4
    } else if k == 4 {
        6
    } else if k == 5 {
        9
    } else if k == 6 {
        11
    } else if k == 7 {
        12
    } else if k == 8 {
        14
    } else {
        15
    }
}

/// The point `h` above `p` (below, for negative `h`).
pub open spec fn above(p: IVec3, h: int) -> IVec3 {
    IVec3 { x: p.x, y: (p.y + h) as i32, z: p.z }
}

/// Searching down a column from offset `h` to `start`: the first offset
/// holding a voxel, or `start`.
pub open spec fn search_down(w: spec_fn(IVec3) -> Voxel, p: IVec3, h: int, start: int) -> int
    decreases h - start,
{
    if h <= start {
        h
    } else if w(above(p, h)) != Voxel::Air {
        h
    } else {
        search_down(w, p, h - 1, start)
    }
}

/// Searching up a column from offset `h` to `end`: the first offset holding
/// air, or `end`.
pub open spec fn search_up(w: spec_fn(IVec3) -> Voxel, p: IVec3, h: int, end: int) -> int
    decreases end - h,
{
    if h >= end {
        h
    } else if w(above(p, h)) == Voxel::Air {
        h
    } else {
        search_up(w, p, h + 1, end)
    }
}

/// The surface height of the column through `p`, as an offset from `p`:
/// from air, the first voxel down (or `start`); from a voxel, the first air
/// up (or `end`).
pub open spec fn column_height(w: spec_fn(IVec3) -> Voxel, p: IVec3, start: int, end: int) -> int {
    if w(p) == Voxel::Air {
        search_down(w, p, 0, start)
    } else {
        search_up(w, p, 0, end)
    }
}

/// The (x, z) offset of the `k`-th column of the 3x3 neighbourhood.
pub open spec fn smooth_offset(k: int) -> (int, int) {
    seq![(-1int, 1int), (0, 1), (1, 1), (-1, 0), (0, 0), (1, 0), (-1, -1), (0, -1), (1, -1)][k]
}

/// The weight of the `k`-th column: 1 2 1 / 2 3 2 / 1 2 1.
pub open spec fn smooth_weight(k: int) -> int {
    seq![1int, 2, 1, 2, 3, 2, 1, 2, 1][k]
}

/// The point of the `k`-th column of the neighbourhood at the height of `p`.
pub open spec fn neighbour_column(p: IVec3, k: int) -> IVec3 {
    IVec3 { x: (p.x + smooth_offset(k).0) as i32, y: p.y, z: (p.z + smooth_offset(k).1) as i32 }
}

/// The weighted sum of the surface heights of the first `n` columns.
pub open spec fn weighted_heights(w: spec_fn(IVec3) -> Voxel, p: IVec3, start: int, end: int, n: int) -> int
    decreases n,
{
    if n <= 0 {
        0
    } else {
        weighted_heights(w, p, start, end, n - 1) + smooth_weight(n - 1) * column_height(
            w,
            neighbour_column(p, n - 1),
            start,
            end,
        )
    }
}

/// The smoothed surface height of the column through `p`: the weighted
/// neighbourhood heights over 9, rounded toward zero.
pub open spec fn smoothed_height(w: spec_fn(IVec3) -> Voxel, p: IVec3, start: int, end: int) -> int {
    trunc_div(weighted_heights(w, p, start, end, 9), 9)
}

/// Where the column's top voxel is: one below the first air above a voxel,
/// or the voxel found searching down from air.
pub open spec fn column_top(w: spec_fn(IVec3) -> Voxel, p: IVec3, start: int, end: int) -> IVec3 {
    if w(p) != Voxel::Air {
        above(p, column_height(w, p, start, end) - 1)
    } else {
        above(p, column_height(w, p, start, end))
    }
}

/// What smoothing puts at offset `h` of the column: below the smoothed
/// height, the voxel that was there, or the column's top voxel where there
/// was air (stretching); at and above it, air (squishing).
pub open spec fn smoothed_voxel(w: spec_fn(IVec3) -> Voxel, p: IVec3, start: int, end: int, h: int) -> Voxel {
    if h < smoothed_height(w, p, start, end) {
        if w(above(p, h)) != Voxel::Air {
            w(above(p, h))
        } else {
            w(column_top(w, p, start, end))
        }
    } else {
        Voxel::Air
    }
}

/// The points of the column through `p` with offsets `start..=end`, upward.
pub open spec fn column_points(p: IVec3, start: int, end: int) -> Seq<IVec3> {
    Seq::new(if end >= start { (end - start + 1) as nat } else { 0 }, |i: int| above(p, start + i))
}

/// What smoothing writes at each of those points.
pub open spec fn column_values(w: spec_fn(IVec3) -> Voxel, p: IVec3, start: int, end: int) -> Seq<Voxel> {
    Seq::new(
        if end >= start { (end - start + 1) as nat } else { 0 },
        |i: int| smoothed_voxel(w, p, start, end, start + i),
    )
}

/// What a run of writes to distinct points leaves at `q`: the value written
/// there, when `q` is one of the first `n` points and in the height band the
/// world writes; else what was there.
pub proof fn lemma_set_voxel_all_distinct(m: VoxelsModel, pts: Seq<IVec3>, vs: Seq<Voxel>, n: int, q: IVec3)
    requires
        0 <= n <= pts.len(),
        n <= vs.len(),
        forall|i: int, j: int| 0 <= i < j < pts.len() ==> pts[i] != pts[j],
    ensures
        forall|i: int| 0 <= i < n && pts[i] == q && -50 <= q.y <= 250 ==> (set_voxel_all(m, pts, vs, n).world)(q)
            == vs[i],
        (forall|i: int| 0 <= i < n ==> pts[i] != q) || !(-50 <= q.y <= 250) ==> (set_voxel_all(m, pts, vs, n).world)(q)
            == (m.world)(q),
    decreases n,
{
    if n > 0 {
        lemma_set_voxel_all_distinct(m, pts, vs, n - 1, q);
        lemma_set_voxel_read(set_voxel_all(m, pts, vs, n - 1), pts[n - 1], vs[n - 1], q);
    }
}

impl Voxels {
    /// Take a 3x3 matrix around the voxel and smooth it on the y-axis: the
    /// surface heights of the nine columns around `pos` (searched within
    /// `height_range` of `pos`) are blurred with weights 1 2 1 / 2 3 2 /
    /// 1 2 1 over 9, and the column through `pos` is squished or stretched to
    /// the blurred height over the offsets of `height_range`: below it, air
    /// becomes the column's top voxel; from it up, everything becomes air.
    #[verifier::spinoff_prover]
    #[verifier::rlimit(60)]
    pub fn smooth_voxel(&mut self, pos: IVec3, height_range: RangeInclusive<i32>)
        requires
            old(self).wf(),
            smooth_in_range(pos, height_range@.start as int, height_range@.end as int),
        ensures
            final(self).wf(),
            final(self).model() == set_voxel_all(
                old(self).model(),
                column_points(pos, height_range@.start as int, height_range@.end as int),
                column_values(old(self).model().world, pos, height_range@.start as int, height_range@.end as int),
                column_points(pos, height_range@.start as int, height_range@.end as int).len() as int,
            ),
            forall|q: IVec3| #[trigger] final(self).world(q) == if q.x == pos.x && q.z == pos.z && height_range@.start
                <= q.y - pos.y <= height_range@.end && -50 <= q.y <= 250 {
                smoothed_voxel(old(self).model().world, pos, height_range@.start as int, height_range@.end as int, q.y - pos.y)
            } else {
                old(self).world(q)
            },
    {
        let start = range_start(&height_range);
        let end = range_end(&height_range);
        let ghost w0 = old(self).model().world;
        let surrounding: [(i32, i32); 9] = [
            (-1, 1), (0, 1), (1, 1),
            (-1, 0), (0, 0), (1, 0),
            (-1, -1), (0, -1), (1, -1),
        ];
        let convolution: [i32; 9] = [1, 2, 1, 2, 3, 2, 1, 2, 1];
        assert(forall|k: int| 0 <= k < 9 ==> (#[trigger] surrounding@[k]).0 == smooth_offset(k).0
            && surrounding@[k].1 == smooth_offset(k).1 && convolution@[k] == smooth_weight(k));
        let mut heights: [i32; 9] = [0; 9];
        let mut index: usize = 0;
        while index < 9
            invariant
                index <= 9,
                self.wf(),
                *self == *old(self),
                w0 == old(self).model().world,
                smooth_in_range(pos, start as int, end as int),
                forall|k: int| 0 <= k < 9 ==> (#[trigger] surrounding@[k]).0 == smooth_offset(k).0
                    && surrounding@[k].1 == smooth_offset(k).1,
                forall|k: int| 0 <= k < 9 ==> {
                    let h = #[trigger] heights@[k];
                    (start < 0 ==> start <= h) && (start >= 0 ==> 0 <= h) && (end > 0 ==> h <= end) && (end <= 0 ==> h <= 0)
                },
                forall|k: int| 0 <= k < index ==> #[trigger] heights@[k] == column_height(
                    w0,
                    neighbour_column(pos, k),
                    start as int,
                    end as int,
                ),
                forall|k: int| index <= k < 9 ==> #[trigger] heights@[k] == 0,
            decreases 9 - index,
        {
            let (dx, dz) = surrounding[index];
            assert(-1 <= surrounding@[index as int].0 <= 1 && -1 <= surrounding@[index as int].1 <= 1);
            let voxel = pos.add(IVec3::new(dx, 0, dz));
            assert(voxel == neighbour_column(pos, index as int));
            let ghost before = heights@;
            let ghost idx = index as int;
            assert(heights@[index as int] == 0);
            match self.get_voxel(voxel) {
                Voxel::Air => {
                    assert(w0(voxel) == Voxel::Air);
                    while heights[index] > start
                        invariant
                            index < 9,
                            idx == index as int,
                            before.len() == 9,
                            self.wf(),
                            *self == *old(self),
                            w0 == old(self).model().world,
                            smooth_in_range(pos, start as int, end as int),
                            -2147483001 <= voxel.x <= 2147483001 && -2147483001 <= voxel.z <= 2147483001,
                            voxel.y == pos.y,
                            forall|k: int| 0 <= k < 9 && k != idx ==> heights@[k] == before[k],
                            heights@[index as int] <= 0,
                            search_down(w0, voxel, heights@[index as int] as int, start as int) == search_down(
                                w0,
                                voxel,
                                0,
                                start as int,
                            ),
                            forall|k: int| 0 <= k < 9 ==> {
                                let h = #[trigger] heights@[k];
                                (start < 0 ==> start <= h) && (start >= 0 ==> 0 <= h) && (end > 0 ==> h <= end) && (end <= 0 ==> h <= 0)
                            },
                        ensures
                            heights@[index as int] == search_down(w0, voxel, 0, start as int),
                            forall|k: int| 0 <= k < 9 && k != idx ==> heights@[k] == before[k],
                            forall|k: int| 0 <= k < 9 ==> {
                                let h = #[trigger] heights@[k];
                                (start < 0 ==> start <= h) && (start >= 0 ==> 0 <= h) && (end > 0 ==> h <= end) && (end <= 0 ==> h <= 0)
                            },
                        decreases heights@[index as int] - start,
                    {
                        let h = heights[index];
                        assert(h == heights@[index as int]);
                        let probe = voxel.add(IVec3::new(0, h, 0));
                        assert(probe == above(voxel, h as int));
                        match self.get_voxel(probe) {
                            Voxel::Air => {},
                            _ => break,
                        }
                        heights[index] = h - 1;
                    }
                },
                _ => {
                    assert(w0(voxel) != Voxel::Air);
                    while heights[index] < end
                        invariant
                            index < 9,
                            idx == index as int,
                            before.len() == 9,
                            self.wf(),
                            *self == *old(self),
                            w0 == old(self).model().world,
                            smooth_in_range(pos, start as int, end as int),
                            -2147483001 <= voxel.x <= 2147483001 && -2147483001 <= voxel.z <= 2147483001,
                            voxel.y == pos.y,
                            forall|k: int| 0 <= k < 9 && k != idx ==> heights@[k] == before[k],
                            heights@[index as int] >= 0,
                            search_up(w0, voxel, heights@[index as int] as int, end as int) == search_up(
                                w0,
                                voxel,
                                0,
                                end as int,
                            ),
                            forall|k: int| 0 <= k < 9 ==> {
                                let h = #[trigger] heights@[k];
                                (start < 0 ==> start <= h) && (start >= 0 ==> 0 <= h) && (end > 0 ==> h <= end) && (end <= 0 ==> h <= 0)
                            },
                        ensures
                            heights@[index as int] == search_up(w0, voxel, 0, end as int),
                            forall|k: int| 0 <= k < 9 && k != idx ==> heights@[k] == before[k],
                            forall|k: int| 0 <= k < 9 ==> {
                                let h = #[trigger] heights@[k];
                                (start < 0 ==> start <= h) && (start >= 0 ==> 0 <= h) && (end > 0 ==> h <= end) && (end <= 0 ==> h <= 0)
                            },
                        decreases end - heights@[index as int],
                    {
                        let h = heights[index];
                        assert(h == heights@[index as int]);
                        let probe = voxel.add(IVec3::new(0, h, 0));
                        assert(probe == above(voxel, h as int));
                        match self.get_voxel(probe) {
                            Voxel::Air => break,
                            _ => {},
                        }
                        heights[index] = h + 1;
                    }
                },
            }
            proof {
                assert(heights@[idx] == column_height(w0, voxel, start as int, end as int));
                assert forall|k: int| 0 <= k < idx + 1 implies #[trigger] heights@[k] == column_height(
                    w0,
                    neighbour_column(pos, k),
                    start as int,
                    end as int,
                ) by {
                    if k < idx {
                        assert(heights@[k] == before[k]);
                    }
                }
                assert forall|k: int| idx + 1 <= k < 9 implies #[trigger] heights@[k] == 0 by {
                    assert(heights@[k] == before[k]);
                }
            }
            index += 1;
        }
        let mut sum: i32 = 0;
        let mut k: usize = 0;
        while k < 9
            invariant
                k <= 9,
                -143165576 <= start && end <= 143165576,
                forall|j: int| 0 <= j < 9 ==> #[trigger] convolution@[j] == smooth_weight(j),
                forall|j: int| 0 <= j < 9 ==> -143165576 <= #[trigger] heights@[j] <= 143165576,
                forall|j: int| 0 <= j < 9 ==> #[trigger] heights@[j] == column_height(
                    w0,
                    neighbour_column(pos, j),
                    start as int,
                    end as int,
                ),
                sum == weighted_heights(w0, pos, start as int, end as int, k as int),
                -143165576 * weight_prefix(k as int) <= sum <= 143165576 * weight_prefix(k as int),
            decreases 9 - k,
        {
            let h = heights[k];
            let c = convolution[k];
            assert(-143165576 <= h <= 143165576 && 1 <= c <= 3);
            assert(weight_prefix(k + 1) == weight_prefix(k as int) + c);
            assert(-143165576 * c <= h * c <= 143165576 * c) by (nonlinear_arith)
                requires -143165576 <= h <= 143165576, 1 <= c <= 3 {}
            assert(143165576 * weight_prefix(k + 1) == 143165576 * weight_prefix(k as int) + 143165576 * c) by (nonlinear_arith)
                requires weight_prefix(k + 1) == weight_prefix(k as int) + c {}
            assert(h * c == smooth_weight(k as int) * column_height(w0, neighbour_column(pos, k as int), start as int, end as int))
                by (nonlinear_arith)
                requires h == column_height(w0, neighbour_column(pos, k as int), start as int, end as int),
                    c == smooth_weight(k as int) {}
            sum = sum + h * c;
            k += 1;
        }
        let new_height = sum / 9;
        assert(new_height == smoothed_height(w0, pos, start as int, end as int));
        // The column's top voxel, which fills the air below the new height.
        let center = heights[4];
        assert(neighbour_column(pos, 4) == pos);
        let top = if self.get_voxel(pos) != Voxel::Air {
            pos.add(IVec3::new(0, center - 1, 0))
        } else {
            pos.add(IVec3::new(0, center, 0))
        };
        assert(top == column_top(w0, pos, start as int, end as int));
        let fill = self.get_voxel(top);
        let ghost pts = column_points(pos, start as int, end as int);
        let ghost vs = column_values(w0, pos, start as int, end as int);
        let ghost m0 = old(self).model();
        assert forall|i: int, j: int| 0 <= i < j < pts.len() implies pts[i] != pts[j] by {
            assert(pts[i].y != pts[j].y);
        }
        let mut h = start;
        while h <= end
            invariant
                self.wf(),
                smooth_in_range(pos, start as int, end as int),
                start <= h,
                h <= end + 1 || h == start,
                w0 == m0.world,
                m0 == old(self).model(),
                pts == column_points(pos, start as int, end as int),
                vs == column_values(w0, pos, start as int, end as int),
                forall|i: int, j: int| 0 <= i < j < pts.len() ==> pts[i] != pts[j],
                new_height == smoothed_height(w0, pos, start as int, end as int),
                fill == w0(column_top(w0, pos, start as int, end as int)),
                self.model() == set_voxel_all(m0, pts, vs, h - start),
            decreases end + 1 - h,
        {
            let p = pos.add(IVec3::new(0, h, 0));
            let ghost i = h - start;
            assert(p == pts[i]);
            proof {
                lemma_set_voxel_all_distinct(m0, pts, vs, i, p);
                assert(self.world(p) == (self.model().world)(p));
            }
            let cur = self.get_voxel(p);
            assert(cur == w0(above(pos, h as int)));
            let v = if h < new_height {
                if cur != Voxel::Air {
                    cur
                } else {
                    fill
                }
            } else {
                Voxel::Air
            };
            assert(v == vs[i]);
            self.set_voxel(p, v);
            h += 1;
        }
        proof {
            assert(pts.len() == h - start || (end < start && h == start && pts.len() == 0));
            assert forall|q: IVec3| #[trigger] self.world(q) == if q.x == pos.x && q.z == pos.z && start <= q.y
                - pos.y <= end && -50 <= q.y <= 250 {
                smoothed_voxel(w0, pos, start as int, end as int, q.y - pos.y)
            } else {
                old(self).world(q)
            } by {
                lemma_set_voxel_all_distinct(m0, pts, vs, pts.len() as int, q);
                assert(self.world(q) == (self.model().world)(q));
                assert(old(self).world(q) == (m0.world)(q));
                if q.x == pos.x && q.z == pos.z && start <= q.y - pos.y <= end {
                    let i = q.y - pos.y - start;
                    assert(pts[i] == q);
                } else {
                    assert forall|i: int| 0 <= i < pts.len() implies pts[i] != q by {}
                }
            }
        }
    }
}



/// Reading after writing: after `set_voxel(p, v)` the voxel at `p` is `v`
/// when `p` is in the height band (and unchanged otherwise), every other
/// point keeps its voxel, and the point with its 26 neighbours is queued
/// for simulation.
pub proof fn lemma_set_voxel_read(m: VoxelsModel, p: IVec3, v: Voxel, q: IVec3)
    ensures
        (model_set_voxel(m, p, v).world)(q) == if q == p && -50 <= p.y <= 250 {
            v
        } else {
            (m.world)(q)
        },
        -50 <= p.y <= 250 ==> model_set_voxel(m, p, v).updates == m.updates + neighborhood(p),
        !(-50 <= p.y <= 250) ==> model_set_voxel(m, p, v) == m,
{
}

/// Writes to two different points commute in what the world holds.
pub proof fn lemma_set_voxel_commute(m: VoxelsModel, p: IVec3, v: Voxel, q: IVec3, w: Voxel)
    requires
        p != q,
    ensures
        model_set_voxel(model_set_voxel(m, p, v), q, w).world =~= model_set_voxel(model_set_voxel(m, q, w), p, v).world,
{
}


impl Voxels {
    /// Hand out the queued updates and leave the queue empty.
    pub fn take_updates(&mut self) -> (r: Vec<VoxelUpdate>)
        requires
            old(self).wf(),
        ensures
            final(self).wf(),
            r@ == old(self).updates(),
            final(self).model() == (VoxelsModel { updates: Seq::empty(), ..old(self).model() }),
    {
        let ghost o = *self;
        let mut r: Vec<VoxelUpdate> = Vec::new();
        std::mem::swap(&mut r, &mut self.update_voxels);
        proof {
            Self::lemma_same_chunks(*self, o);
            assert(self.wf_parts());
            assert(self.model() =~= (VoxelsModel { updates: Seq::empty(), ..old(self).model() }));
        }
        r
    }
}


impl Voxels {
    /// Put `chunk` in place of the chunk stored at `pos`, if there is one.
    /// The neighbours' paddings are not refreshed.
    pub fn replace_chunk(&mut self, pos: IVec3, chunk: VoxelChunk) -> (r: bool)
        requires
            old(self).wf_parts(),
            chunk.wf(),
        ensures
            final(self).wf_parts(),
            r == old(self).has_chunk(pos),
            final(self).key_seq() == old(self).key_seq(),
            final(self).changed_set() == old(self).changed_set(),
            final(self).updates() == old(self).updates(),
            forall|c: IVec3| #[trigger] final(self).has_chunk(c) == old(self).has_chunk(c),
            r ==> final(self).chunk_of(pos) == chunk,
            forall|c: IVec3| c != pos && old(self).has_chunk(c) ==> #[trigger] final(self).chunk_of(c) == old(self).chunk_of(c),
    {
        match self.chunk_position(pos) {
            Some(i) => {
                let ghost o = *self;
                proof {
                    self.lemma_chunk_index(i as int);
                }
                self.chunks.set(i, (pos, chunk));
                proof {
                    assert(self.key_seq() =~= o.key_seq());
                    assert forall|c: IVec3| #[trigger] self.has_chunk(c) == o.has_chunk(c) by {
                        if o.has_chunk(c) {
                            let j = choose|j: int| 0 <= j < o.chunks@.len() && o.chunks@[j].0 == c;
                            assert(self.chunks@[j].0 == c);
                        }
                        if self.has_chunk(c) {
                            let j = choose|j: int| 0 <= j < self.chunks@.len() && self.chunks@[j].0 == c;
                            assert(o.chunks@[j].0 == c);
                        }
                    }
                    assert(self.wf_parts());
                    self.lemma_chunk_index(i as int);
                    assert forall|c: IVec3| c != pos && o.has_chunk(c) implies #[trigger] self.chunk_of(c) == o.chunk_of(c) by {
                        o.lemma_has_chunk_wf(c);
                        let j = o.chunk_index(c);
                        self.lemma_chunk_index(j);
                    }
                }
                true
            },
            None => false,
        }
    }
}

impl Voxels {
    /// The decision of a ray cast: given the voxel positions a ray passes
    /// through, nearest first, the index of the first one that holds a
    /// pickable voxel, or `None` when none does.
    pub fn first_pickable_hit(&self, hits: &[IVec3]) -> (r: Option<usize>)
        requires
            self.wf(),
            forall|i: int| 0 <= i < hits@.len() ==> get_ok(#[trigger] hits@[i]),
        ensures
            match r {
                Some(i) => {
                    &&& i < hits@.len()
                    &&& self.world(hits@[i as int]).spec_pickable()
                    &&& forall|j: int| 0 <= j < i ==> !#[trigger] self.world(hits@[j]).spec_pickable()
                },
                None => forall|j: int| 0 <= j < hits@.len() ==> !#[trigger] self.world(
                    hits@[j],
                ).spec_pickable(),
            },
    {
        let mut i: usize = 0;
        while i < hits.len()
            invariant
                self.wf(),
                i <= hits@.len(),
                forall|k: int| 0 <= k < hits@.len() ==> get_ok(#[trigger] hits@[k]),
                forall|j: int| 0 <= j < i ==> !#[trigger] self.world(hits@[j]).spec_pickable(),
            decreases hits@.len() - i,
        {
            let voxel = self.get_voxel(hits[i]);
            if voxel.pickable() {
                return Some(i);
            }
            i = i + 1;
        }
        None
    }
}

} // verus!

verus! {

/// Two lists without repeats and without a common entry join into a list
/// without repeats.
proof fn lemma_concat_no_duplicates(a: Seq<IVec3>, b: Seq<IVec3>)
    requires
        a.no_duplicates(),
        b.no_duplicates(),
        forall|i: int, j: int| 0 <= i < a.len() && 0 <= j < b.len() ==> a[i] != b[j],
    ensures
        (a + b).no_duplicates(),
{
    let s = a + b;
    assert forall|i: int, j: int| 0 <= i < s.len() && 0 <= j < s.len() && i != j implies s[i] != s[j] by {
        if i < a.len() && j < a.len() {
            assert(s[i] == a[i] && s[j] == a[j]);
        } else if i >= a.len() && j >= a.len() {
            assert(s[i] == b[i - a.len()] && s[j] == b[j - a.len()]);
        } else if i < a.len() {
            assert(s[i] == a[i] && s[j] == b[j - a.len()]);
        } else {
            assert(s[j] == a[j] && s[i] == b[i - a.len()]);
        }
    }
}

/// Whether `a` lies in the chunk-coordinate range, with room for one more.
pub open spec fn chunk_coord(a: int) -> bool {
    -34636840 <= a <= 34636840
}

proof fn lemma_zrow(x: int, y: int, lo: int, hi: int)
    requires
        chunk_coord(x),
        chunk_coord(y),
        chunk_coord(lo),
        chunk_coord(hi),
    ensures
        zrow(x, y, lo, hi).no_duplicates(),
        zrow(x, y, lo, hi).len() == if hi > lo { hi - lo } else { 0 },
        forall|i: int| 0 <= i < zrow(x, y, lo, hi).len() ==> {
            let e = #[trigger] zrow(x, y, lo, hi)[i];
            e.x == x && e.y == y && lo <= e.z < hi
        },
        forall|c: IVec3| #[trigger] zrow(x, y, lo, hi).contains(c) <==> (c.x == x && c.y == y && lo <= c.z < hi),
{
    let r = zrow(x, y, lo, hi);
    assert forall|c: IVec3| #[trigger] r.contains(c) <==> (c.x == x && c.y == y && lo <= c.z < hi) by {
        if c.x == x && c.y == y && lo <= c.z < hi {
            assert(r[c.z - lo] == c);
        }
    }
}

proof fn lemma_xlayer(y: int, lo_x: int, n: int, lo_z: int, hi_z: int)
    requires
        0 <= n,
        chunk_coord(y),
        chunk_coord(lo_x),
        chunk_coord(lo_x + n),
        chunk_coord(lo_z),
        chunk_coord(hi_z),
    ensures
        xlayer(y, lo_x, n, lo_z, hi_z).no_duplicates(),
        xlayer(y, lo_x, n, lo_z, hi_z).len() == n * (if hi_z > lo_z { hi_z - lo_z } else { 0 }),
        forall|i: int| 0 <= i < xlayer(y, lo_x, n, lo_z, hi_z).len() ==> {
            let e = #[trigger] xlayer(y, lo_x, n, lo_z, hi_z)[i];
            e.y == y && lo_x <= e.x < lo_x + n && lo_z <= e.z < hi_z
        },
        forall|c: IVec3| #[trigger] xlayer(y, lo_x, n, lo_z, hi_z).contains(c) <==> (c.y == y && lo_x <= c.x
            < lo_x + n && lo_z <= c.z < hi_z),
    decreases n,
{
    if n > 0 {
        let a = xlayer(y, lo_x, n - 1, lo_z, hi_z);
        let b = zrow(lo_x + n - 1, y, lo_z, hi_z);
        lemma_xlayer(y, lo_x, n - 1, lo_z, hi_z);
        lemma_zrow(lo_x + n - 1, y, lo_z, hi_z);
        assert forall|i: int, j: int| 0 <= i < a.len() && 0 <= j < b.len() implies a[i] != b[j] by {
            assert(a[i].x < lo_x + n - 1);
            assert(b[j].x == lo_x + n - 1);
        }
        lemma_concat_no_duplicates(a, b);
        let zl = if hi_z > lo_z { hi_z - lo_z } else { 0 };
        assert((n - 1) * zl + zl == n * zl) by (nonlinear_arith);
        assert forall|i: int| 0 <= i < (a + b).len() implies {
            let e = #[trigger] (a + b)[i];
            e.y == y && lo_x <= e.x < lo_x + n && lo_z <= e.z < hi_z
        } by {
            if i < a.len() {
                assert((a + b)[i] == a[i]);
            } else {
                assert((a + b)[i] == b[i - a.len()]);
            }
        }
        assert forall|c: IVec3| #[trigger] (a + b).contains(c) <==> (c.y == y && lo_x <= c.x < lo_x + n && lo_z
            <= c.z < hi_z) by {
            if (a + b).contains(c) {
                let i = choose|i: int| 0 <= i < (a + b).len() && (a + b)[i] == c;
            }
            if a.contains(c) {
                let i = choose|i: int| 0 <= i < a.len() && a[i] == c;
                assert((a + b)[i] == c);
            }
            if b.contains(c) {
                let i = choose|i: int| 0 <= i < b.len() && b[i] == c;
                assert((a + b)[i + a.len()] == c);
            }
        }
    }
}

proof fn lemma_ygrid(lo_y: int, n: int, lo_x: int, hi_x: int, lo_z: int, hi_z: int)
    requires
        0 <= n,
        lo_x <= hi_x,
        chunk_coord(lo_y),
        chunk_coord(lo_y + n),
        chunk_coord(lo_x),
        chunk_coord(hi_x),
        chunk_coord(lo_z),
        chunk_coord(hi_z),
    ensures
        ygrid(lo_y, n, lo_x, hi_x, lo_z, hi_z).no_duplicates(),
        ygrid(lo_y, n, lo_x, hi_x, lo_z, hi_z).len() == n * ((hi_x - lo_x) * (if hi_z > lo_z { hi_z - lo_z } else { 0 })),
        forall|i: int| 0 <= i < ygrid(lo_y, n, lo_x, hi_x, lo_z, hi_z).len() ==> {
            let e = #[trigger] ygrid(lo_y, n, lo_x, hi_x, lo_z, hi_z)[i];
            lo_y <= e.y < lo_y + n
        },
        forall|c: IVec3| #[trigger] ygrid(lo_y, n, lo_x, hi_x, lo_z, hi_z).contains(c) <==> (lo_y <= c.y < lo_y + n
            && lo_x <= c.x < hi_x && lo_z <= c.z < hi_z),
    decreases n,
{
    if n > 0 {
        let a = ygrid(lo_y, n - 1, lo_x, hi_x, lo_z, hi_z);
        let b = xlayer(lo_y + n - 1, lo_x, hi_x - lo_x, lo_z, hi_z);
        lemma_ygrid(lo_y, n - 1, lo_x, hi_x, lo_z, hi_z);
        lemma_xlayer(lo_y + n - 1, lo_x, hi_x - lo_x, lo_z, hi_z);
        assert forall|i: int, j: int| 0 <= i < a.len() && 0 <= j < b.len() implies a[i] != b[j] by {
            assert(a[i].y < lo_y + n - 1);
            assert(b[j].y == lo_y + n - 1);
        }
        lemma_concat_no_duplicates(a, b);
        let l = (hi_x - lo_x) * (if hi_z > lo_z { hi_z - lo_z } else { 0 });
        assert((n - 1) * l + l == n * l) by (nonlinear_arith);
        assert forall|i: int| 0 <= i < (a + b).len() implies {
            let e = #[trigger] (a + b)[i];
            lo_y <= e.y < lo_y + n
        } by {
            if i < a.len() {
                assert((a + b)[i] == a[i]);
            } else {
                assert((a + b)[i] == b[i - a.len()]);
            }
        }
        assert forall|c: IVec3| #[trigger] (a + b).contains(c) <==> (lo_y <= c.y < lo_y + n && lo_x <= c.x < hi_x
            && lo_z <= c.z < hi_z) by {
            if (a + b).contains(c) {
                let i = choose|i: int| 0 <= i < (a + b).len() && (a + b)[i] == c;
            }
            if a.contains(c) {
                let i = choose|i: int| 0 <= i < a.len() && a[i] == c;
                assert((a + b)[i] == c);
            }
            if b.contains(c) {
                let i = choose|i: int| 0 <= i < b.len() && b[i] == c;
                assert((a + b)[i + a.len()] == c);
            }
        }
    }
}

/// Along one axis, one or two chunks overlap a coordinate.
proof fn lemma_overlap_span(a: int)
    ensures
        1 <= overlap_hi(a) - overlap_lo(a) <= 2,
{
    let m = (a - 2) / 62;
    let mm = (a + 63) / 62;
    assert(62 * m <= a - 2 < 62 * m + 62) by (nonlinear_arith)
        requires m == (a - 2) / 62 {}
    assert(62 * mm <= a + 63 < 62 * mm + 62) by (nonlinear_arith)
        requires mm == (a + 63) / 62 {}
}

/// The chunks visited when setting a point: none twice, between one and
/// eight of them, the point's own chunk among them, and with it every chunk
/// that stores the point.
pub proof fn lemma_overlap_seq(p: IVec3)
    requires
        point_in_range(p),
    ensures
        overlap_seq(p).no_duplicates(),
        1 <= overlap_seq(p).len() <= 8,
        overlap_seq(p).contains(home_chunk(p)),
        forall|c: IVec3| #[trigger] stores(c, p) ==> overlap_seq(p).contains(c),
{
    let (lx, hx) = (overlap_lo(p.x as int), overlap_hi(p.x as int));
    let (ly, hy) = (overlap_lo(p.y as int), overlap_hi(p.y as int));
    let (lz, hz) = (overlap_lo(p.z as int), overlap_hi(p.z as int));
    lemma_overlap_span(p.x as int);
    lemma_overlap_span(p.y as int);
    lemma_overlap_span(p.z as int);
    assert(-34636830 <= lx && hx <= 34636831) by (nonlinear_arith)
        requires lx == (p.x - 2) / 62, hx == (p.x + 63) / 62, -2147483000 <= p.x <= 2147483000 {}
    assert(-34636830 <= ly && hy <= 34636831) by (nonlinear_arith)
        requires ly == (p.y - 2) / 62, hy == (p.y + 63) / 62, -2147483000 <= p.y <= 2147483000 {}
    assert(-34636830 <= lz && hz <= 34636831) by (nonlinear_arith)
        requires lz == (p.z - 2) / 62, hz == (p.z + 63) / 62, -2147483000 <= p.z <= 2147483000 {}
    lemma_ygrid(ly, hy - ly, lx, hx, lz, hz);
    let (nx, ny, nz) = (hx - lx, hy - ly, hz - lz);
    assert(1 <= ny * (nx * nz) <= 8) by (nonlinear_arith)
        requires 1 <= nx <= 2, 1 <= ny <= 2, 1 <= nz <= 2 {}
    assert forall|c: IVec3| #[trigger] stores(c, p) implies overlap_seq(p).contains(c) by {
        lemma_overlap_axis(c.x as int, p.x as int);
        lemma_overlap_axis(c.y as int, p.y as int);
        lemma_overlap_axis(c.z as int, p.z as int);
        assert(in_overlap(c, p));
    }
    lemma_home_chunk(p);
}

} // verus!

verus! {

proof fn lemma_zrow_member(x: int, y: int, lo: int, hi: int, c: IVec3)
    requires
        zrow(x, y, lo, hi).contains(c),
        0 <= x < 62,
        0 <= y < 62,
        0 <= lo,
        hi <= 62,
    ensures
        c.x == x && c.y == y && lo <= c.z < hi,
{
    let i = choose|i: int| 0 <= i < zrow(x, y, lo, hi).len() && zrow(x, y, lo, hi)[i] == c;
}

proof fn lemma_xlayer_member(y: int, lo_x: int, n: int, lo_z: int, hi_z: int, c: IVec3)
    requires
        xlayer(y, lo_x, n, lo_z, hi_z).contains(c),
        0 <= y < 62,
        0 <= lo_x,
        lo_x + n <= 62 || n <= 0,
        0 <= lo_z,
        hi_z <= 62,
    ensures
        c.y == y && lo_x <= c.x < lo_x + n && lo_z <= c.z < hi_z,
    decreases n,
{
    if n > 0 {
        let a = xlayer(y, lo_x, n - 1, lo_z, hi_z);
        let b = zrow(lo_x + n - 1, y, lo_z, hi_z);
        let i = choose|i: int| 0 <= i < (a + b).len() && (a + b)[i] == c;
        if i < a.len() {
            assert(a[i] == c);
            assert(a.contains(c));
            lemma_xlayer_member(y, lo_x, n - 1, lo_z, hi_z, c);
        } else {
            assert(b[i - a.len()] == c);
            assert(b.contains(c));
            lemma_zrow_member(lo_x + n - 1, y, lo_z, hi_z, c);
        }
    }
}

/// Every entry of a grid of chunk coordinates within `0..62` lies in its
/// ranges.
pub proof fn lemma_ygrid_member(lo_y: int, n: int, lo_x: int, hi_x: int, lo_z: int, hi_z: int, c: IVec3)
    requires
        ygrid(lo_y, n, lo_x, hi_x, lo_z, hi_z).contains(c),
        0 <= lo_y,
        lo_y + n <= 62 || n <= 0,
        0 <= lo_x,
        hi_x <= 62,
        0 <= lo_z,
        hi_z <= 62,
    ensures
        lo_y <= c.y < lo_y + n && lo_x <= c.x < hi_x && lo_z <= c.z < hi_z,
    decreases n,
{
    if n > 0 {
        let a = ygrid(lo_y, n - 1, lo_x, hi_x, lo_z, hi_z);
        let b = xlayer(lo_y + n - 1, lo_x, hi_x - lo_x, lo_z, hi_z);
        let i = choose|i: int| 0 <= i < (a + b).len() && (a + b)[i] == c;
        if i < a.len() {
            assert(a[i] == c);
            assert(a.contains(c));
            lemma_ygrid_member(lo_y, n - 1, lo_x, hi_x, lo_z, hi_z, c);
        } else {
            assert(b[i - a.len()] == c);
            assert(b.contains(c));
            lemma_xlayer_member(lo_y + n - 1, lo_x, hi_x - lo_x, lo_z, hi_z, c);
        }
    }
}

} // verus!
