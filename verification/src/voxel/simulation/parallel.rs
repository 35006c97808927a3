//! Chunk-parallel falling sands: chunks are simulated in two alternating
//! phases (a checkerboard), each chunk in one-voxel-high slices; moves that
//! leave a chunk are deferred as boundary updates.

use std::ops::Range;

use bevy_platform::collections::HashMap;
use bevy_platform::hash::FixedHasher;
use vstd::prelude::*;

use crate::math::IVec3;
use crate::voxel::chunk::{padded_index, in_unpadded_bounds, VoxelChunk};
use crate::voxel::voxel::{spec_from_id, Voxel};
use crate::voxel::voxels::{
    chunk_key_in_range, home_chunk, lemma_padded_index_injective, lemma_ygrid_member, xlayer, ygrid, zrow, Voxels,
};
use crate::voxel::simulation::semisolid_offset;

verus! {

/// A move that leaves its chunk, to be applied once the chunks are done.
#[derive(Debug, Clone, Copy)]
pub struct BoundaryUpdate {
    pub from_pos: IVec3,
    pub to_pos: IVec3,
    pub from_voxel: Voxel,
    pub to_voxel: Voxel,
}

/// One chunk's simulation work: a copy of the chunk and the boundary updates
/// it produced.
pub struct ChunkSimulationJob {
    pub chunk_pos: IVec3,
    pub chunk: VoxelChunk,
    pub is_active: bool,
    pub boundary_updates: Vec<BoundaryUpdate>,
}

impl ChunkSimulationJob {
    pub fn new(chunk_pos: IVec3, chunk: VoxelChunk) -> (r: Self)
        ensures
            r.chunk_pos == chunk_pos,
            r.chunk == chunk,
            r.is_active,
            r.boundary_updates@.len() == 0,
    {
        ChunkSimulationJob { chunk_pos, chunk, is_active: true, boundary_updates: Vec::new() }
    }

    /// Mutable access to the chunk; what the caller does to it stays.
    pub fn get_chunk_mut(&mut self) -> (r: &mut VoxelChunk)
        ensures
            *r == old(self).chunk,
            final(self).chunk == *final(r),
            final(self).chunk_pos == old(self).chunk_pos,
            final(self).is_active == old(self).is_active,
            final(self).boundary_updates@ == old(self).boundary_updates@,
    {
        &mut self.chunk
    }

    /// Add a boundary update to be processed later.
    pub fn add_boundary_update(&mut self, update: BoundaryUpdate)
        ensures
            final(self).boundary_updates@ == old(self).boundary_updates@.push(update),
            final(self).chunk == old(self).chunk,
            final(self).chunk_pos == old(self).chunk_pos,
            final(self).is_active == old(self).is_active,
    {
        self.boundary_updates.push(update);
    }
}

/// Jobs by chunk position.
pub type JobTable = HashMap<IVec3, ChunkSimulationJob, FixedHasher>;

/// What a job table holds: the job stored under each chunk position.
pub uninterp spec fn job_table_entries(m: JobTable) -> Map<IVec3, ChunkSimulationJob>;

/// `HashMap::new`: an empty table.
#[verifier::external_body]
fn job_table_new() -> (r: JobTable)
    ensures
        job_table_entries(r) =~= Map::empty(),
{
    HashMap::new()
}

/// `HashMap::insert`: the position now holds the job, the others stay.
#[verifier::external_body]
fn job_table_insert(m: &mut JobTable, pos: IVec3, job: ChunkSimulationJob)
    ensures
        job_table_entries(*final(m)) == job_table_entries(*old(m)).insert(pos, job),
{
    m.insert(pos, job);
}

/// `HashMap::get`: the job stored under the position, if any.
#[verifier::external_body]
fn job_table_get(m: &JobTable, pos: IVec3) -> (r: Option<&ChunkSimulationJob>)
    ensures
        match r {
            Some(job) => job_table_entries(*m).dom().contains(pos) && *job == job_table_entries(*m)[pos],
            None => !job_table_entries(*m).dom().contains(pos),
        },
{
    m.get(&pos)
}

/// `HashMap::contains_key`: whether a job is stored under the position.
#[verifier::external_body]
fn job_table_contains(m: &JobTable, pos: IVec3) -> (r: bool)
    ensures
        r == job_table_entries(*m).dom().contains(pos),
{
    m.contains_key(&pos)
}

/// `HashMap::keys`, collected: each position of the table once, in an
/// order that the table's hashing decides and that is left unstated.
#[verifier::external_body]
fn job_table_keys(m: &JobTable) -> (r: Vec<IVec3>)
    ensures
        r@.no_duplicates(),
        forall|p: IVec3| #[trigger] r@.contains(p) <==> job_table_entries(*m).dom().contains(p),
{
    m.keys().copied().collect()
}

/// The jobs of a world's chunks, and which half of the checkerboard runs.
pub struct ChunkSimulationGrid {
    pub jobs: JobTable,
    /// 0 or 1 for alternating chunks.
    pub phase: u32,
}

/// Whether a chunk runs in a phase: the remainder of its coordinate sum by
/// two, rounded toward zero as `%` on `i32` rounds, equals the phase's
/// parity. Odd chunks (remainder 1) run in phase 1 and even ones in phase 0;
/// a chunk whose sum is negative and odd has remainder -1 and runs in
/// neither.
pub open spec fn in_phase(pos: IVec3, phase: u32) -> bool {
    let sum = pos.x + pos.y + pos.z;
    let rem = if sum >= 0 { sum % 2 } else { -((-sum) % 2) };
    rem == (phase % 2) as int
}

/// A chunk whose coordinate sum is even, or odd and not negative, runs in
/// exactly one of the two phases.
pub proof fn lemma_one_phase(pos: IVec3)
    requires
        pos.x + pos.y + pos.z >= 0 || (pos.x + pos.y + pos.z) % 2 == 0,
    ensures
        in_phase(pos, 0) != in_phase(pos, 1),
{
}

impl ChunkSimulationGrid {
    /// The jobs by chunk position.
    pub open spec fn job_map(&self) -> Map<IVec3, ChunkSimulationJob> {
        job_table_entries(self.jobs)
    }

    /// Every job is stored under its own chunk position.
    pub open spec fn wf(&self) -> bool {
        forall|p: IVec3| #[trigger] self.job_map().dom().contains(p) ==> self.job_map()[p].chunk_pos == p
    }

    pub fn new() -> (r: Self)
        ensures
            r.wf(),
            r.job_map() == Map::<IVec3, ChunkSimulationJob>::empty(),
            r.phase == 0,
    {
        ChunkSimulationGrid { jobs: job_table_new(), phase: 0 }
    }

    /// A job for every chunk of the world, stored under its position, each
    /// with a copy of its chunk.
    pub fn from_voxels(voxels: &Voxels) -> (r: Self)
        requires
            voxels.wf(),
        ensures
            r.wf(),
            r.phase == 0,
            forall|p: IVec3| #[trigger] r.job_map().dom().contains(p) <==> voxels.has_chunk(p),
            forall|p: IVec3| #[trigger] r.job_map().dom().contains(p) ==> {
                let job = r.job_map()[p];
                &&& chunk_key_in_range(p)
                &&& job.chunk.same_parts(voxels.chunk_of(p))
                &&& job.chunk.wf()
                &&& job.is_active
                &&& job.boundary_updates@.len() == 0
            },
    {
        let mut grid = Self::new();
        let chunks = voxels.chunk_iter();
        proof {
            voxels.lemma_key_seq();
            assert forall|k: int| 0 <= k < voxels.key_seq().len() implies chunk_key_in_range(
                #[trigger] voxels.key_seq()[k],
            ) by {
                assert(voxels.has_chunk(voxels.key_seq()[k]));
            }
        }
        let mut i: usize = 0;
        while i < chunks.len()
            invariant
                i <= chunks@.len(),
                voxels.wf(),
                chunks@.len() == voxels.key_seq().len(),
                forall|c: IVec3| voxels.key_seq().contains(c) <==> #[trigger] voxels.has_chunk(c),
                forall|k: int| 0 <= k < voxels.key_seq().len() ==> chunk_key_in_range(#[trigger] voxels.key_seq()[k]),
                forall|k: int| 0 <= k < chunks@.len() ==> (#[trigger] chunks@[k]).0 == voxels.key_seq()[k]
                    && *chunks@[k].1 == voxels.chunk_of(chunks@[k].0) && chunks@[k].1.wf(),
                grid.wf(),
                grid.phase == 0,
                forall|p: IVec3| #[trigger] grid.job_map().dom().contains(p)
                    <==> exists|k: int| 0 <= k < i && voxels.key_seq()[k] == p,
                forall|p: IVec3| #[trigger] grid.job_map().dom().contains(p) ==> {
                    let job = grid.job_map()[p];
                    &&& voxels.key_seq().contains(p)
                    &&& chunk_key_in_range(p)
                    &&& job.chunk.same_parts(voxels.chunk_of(p))
                    &&& job.chunk.wf()
                    &&& job.is_active
                    &&& job.boundary_updates@.len() == 0
                },
            decreases chunks@.len() - i,
        {
            let (pos, chunk) = chunks[i];
            let copy = chunk.clone();
            proof {
                assert(chunks@[i as int].0 == pos);
                copy.lemma_same_parts_wf(*chunk);
                assert(voxels.key_seq()[i as int] == pos);
                assert(voxels.key_seq().contains(pos));
            }
            let job = ChunkSimulationJob::new(pos, copy);
            let ghost before = grid.job_map();
            job_table_insert(&mut grid.jobs, pos, job);
            proof {
                assert(grid.job_map() == before.insert(pos, job));
                assert forall|p: IVec3| #[trigger] grid.job_map().dom().contains(p)
                    <==> exists|k: int| 0 <= k < i + 1 && voxels.key_seq()[k] == p by {
                    if p == pos {
                        assert(voxels.key_seq()[i as int] == p);
                    } else {
                        if before.dom().contains(p) {
                            let k = choose|k: int| 0 <= k < i && voxels.key_seq()[k] == p;
                            assert(0 <= k < i + 1 && voxels.key_seq()[k] == p);
                        }
                        if exists|k: int| 0 <= k < i + 1 && voxels.key_seq()[k] == p {
                            let k = choose|k: int| 0 <= k < i + 1 && voxels.key_seq()[k] == p;
                            assert(k != i);
                            assert(before.dom().contains(p));
                        }
                    }
                }
                assert forall|p: IVec3| #[trigger] grid.job_map().dom().contains(p)
                    implies grid.job_map()[p].chunk_pos == p by {
                    if p != pos {
                        assert(before.dom().contains(p));
                    }
                }
                assert forall|p: IVec3| #[trigger] grid.job_map().dom().contains(p) implies {
                    let job = grid.job_map()[p];
                    &&& voxels.key_seq().contains(p)
                    &&& chunk_key_in_range(p)
                    &&& job.chunk.same_parts(voxels.chunk_of(p))
                    &&& job.chunk.wf()
                    &&& job.is_active
                    &&& job.boundary_updates@.len() == 0
                } by {
                    if p != pos {
                        assert(before.dom().contains(p));
                    } else {
                        assert(chunk_key_in_range(voxels.key_seq()[i as int]));
                    }
                }
            }
            i += 1;
        }
        proof {
            assert forall|p: IVec3| #[trigger] grid.job_map().dom().contains(p) <==> voxels.has_chunk(p) by {
                if voxels.has_chunk(p) {
                    assert(voxels.key_seq().contains(p));
                    let k = choose|k: int| 0 <= k < voxels.key_seq().len() && voxels.key_seq()[k] == p;
                    assert(0 <= k < i && voxels.key_seq()[k] == p);
                }
            }
        }
        grid
    }

    /// Whether there is a job for chunk `pos`.
    pub fn contains_job(&self, pos: IVec3) -> (r: bool)
        ensures
            r == self.job_map().dom().contains(pos),
    {
        job_table_contains(&self.jobs, pos)
    }

    /// The job for chunk `pos`, if any.
    pub fn job(&self, pos: IVec3) -> (r: Option<&ChunkSimulationJob>)
        ensures
            match r {
                Some(job) => self.job_map().dom().contains(pos) && *job == self.job_map()[pos],
                None => !self.job_map().dom().contains(pos),
            },
    {
        job_table_get(&self.jobs, pos)
    }

    /// The chunks that run in the current phase: those whose coordinate sum
    /// has the phase's parity, each once.
    pub fn get_active_chunks(&self) -> (r: Vec<IVec3>)
        requires
            forall|p: IVec3| #[trigger] self.job_map().dom().contains(p) ==> chunk_key_in_range(p),
        ensures
            r@.no_duplicates(),
            forall|p: IVec3| #[trigger] r@.contains(p) <==> self.job_map().dom().contains(p) && in_phase(p, self.phase),
    {
        let keys = job_table_keys(&self.jobs);
        let mut out: Vec<IVec3> = Vec::new();
        let mut i: usize = 0;
        while i < keys.len()
            invariant
                i <= keys@.len(),
                keys@.no_duplicates(),
                forall|p: IVec3| #[trigger] keys@.contains(p) <==> self.job_map().dom().contains(p),
                forall|p: IVec3| #[trigger] self.job_map().dom().contains(p) ==> chunk_key_in_range(p),
                out@.no_duplicates(),
                forall|p: IVec3| #[trigger] out@.contains(p)
                    <==> (exists|k: int| 0 <= k < i && keys@[k] == p) && in_phase(p, self.phase),
            decreases keys@.len() - i,
        {
            let pos = keys[i];
            proof {
                assert(keys@.contains(pos));
            }
            let sum = pos.x + pos.y + pos.z;
            let parity = (self.phase % 2) as i32;
            if sum % 2 == parity {
                let ghost before = out@;
                proof {
                    assert(in_phase(pos, self.phase));
                    assert(!before.contains(pos)) by {
                        if before.contains(pos) {
                            let k = choose|k: int| 0 <= k < i && keys@[k] == pos;
                            assert(keys@[k] == keys@[i as int]);
                        }
                    }
                }
                out.push(pos);
                proof {
                    assert forall|a: int, b: int| 0 <= a < b < out@.len() implies out@[a] != out@[b] by {
                        if b == before.len() {
                            assert(before.contains(before[a]));
                        }
                    }
                    assert forall|p: IVec3| #[trigger] out@.contains(p)
                        <==> (exists|k: int| 0 <= k < i + 1 && keys@[k] == p) && in_phase(p, self.phase) by {
                        if out@.contains(p) && p != pos {
                            let j = choose|j: int| 0 <= j < out@.len() && out@[j] == p;
                            assert(j < before.len());
                            assert(before[j] == p);
                            assert(before.contains(p));
                        }
                        if p == pos {
                            assert(keys@[i as int] == p);
                            assert(out@[before.len() as int] == p);
                        }
                        if (exists|k: int| 0 <= k < i && keys@[k] == p) && in_phase(p, self.phase) {
                            assert(before.contains(p));
                            let j = choose|j: int| 0 <= j < before.len() && before[j] == p;
                            assert(out@[j] == p);
                        }
                    }
                }
            } else {
                proof {
                    assert forall|p: IVec3| #[trigger] out@.contains(p)
                        <==> (exists|k: int| 0 <= k < i + 1 && keys@[k] == p) && in_phase(p, self.phase) by {
                        if p == pos {
                            assert(!in_phase(p, self.phase));
                        }
                    }
                }
            }
            i += 1;
        }
        proof {
            assert forall|p: IVec3| #[trigger] out@.contains(p) <==> self.job_map().dom().contains(p) && in_phase(p, self.phase) by {
                if out@.contains(p) {
                    let k = choose|k: int| 0 <= k < i && keys@[k] == p;
                    assert(keys@.contains(keys@[k]));
                }
                if self.job_map().dom().contains(p) {
                    assert(keys@.contains(p));
                    let k = choose|k: int| 0 <= k < keys@.len() && keys@[k] == p;
                    assert(0 <= k < i && keys@[k] == p);
                }
            }
        }
        out
    }

    /// Split a chunk into 62x1x62 slices, one per y level, bottom up.
    pub fn create_chunk_slices(&self, chunk_pos: IVec3) -> (r: Vec<ChunkSlice>)
        ensures
            r@.len() == 62,
            forall|y: int| 0 <= y < 62 ==> {
                let s = #[trigger] r@[y];
                &&& s.chunk_pos == chunk_pos
                &&& s.y_range.start == y && s.y_range.end == y + 1
                &&& s.x_range.start == 0 && s.x_range.end == 62
                &&& s.z_range.start == 0 && s.z_range.end == 62
            },
    {
        let mut slices: Vec<ChunkSlice> = Vec::new();
        let mut y: usize = 0;
        while y < 62
            invariant
                y <= 62,
                slices@.len() == y,
                forall|k: int| 0 <= k < y ==> {
                    let s = #[trigger] slices@[k];
                    &&& s.chunk_pos == chunk_pos
                    &&& s.y_range.start == k && s.y_range.end == k + 1
                    &&& s.x_range.start == 0 && s.x_range.end == 62
                    &&& s.z_range.start == 0 && s.z_range.end == 62
                },
            decreases 62 - y,
        {
            slices.push(ChunkSlice { chunk_pos, y_range: y..y + 1, x_range: 0..62, z_range: 0..62 });
            y += 1;
        }
        slices
    }
}

/// Represents a slice of a chunk for fine-grained parallelization.
pub struct ChunkSlice {
    pub chunk_pos: IVec3,
    pub y_range: Range<usize>,
    pub x_range: Range<usize>,
    pub z_range: Range<usize>,
}

/// What slice simulation reads and writes of a job: the chunk's voxel ids,
/// its health overrides and the boundary updates.
#[verifier::ext_equal]
pub struct SliceState {
    pub ids: Seq<u16>,
    pub health: Map<(i32, i32, i32), i16>,
    pub updates: Seq<BoundaryUpdate>,
}

/// The state of a job.
pub open spec fn job_state(job: ChunkSimulationJob) -> SliceState {
    SliceState { ids: job.chunk.voxels@, health: job.chunk.health_map(), updates: job.boundary_updates@ }
}

/// The voxel at an interior chunk coordinate.
pub open spec fn state_voxel(st: SliceState, p: IVec3) -> Voxel {
    spec_from_id(st.ids[padded_index(p.x + 1, p.y + 1, p.z + 1)] as int).unwrap()
}

/// Set the voxel at an interior chunk coordinate, forgetting its health.
pub open spec fn state_set(st: SliceState, p: IVec3, v: Voxel) -> SliceState {
    SliceState {
        ids: st.ids.update(padded_index(p.x + 1, p.y + 1, p.z + 1), v.spec_id()),
        health: st.health.remove(((p.x + 1) as i32, (p.y + 1) as i32, (p.z + 1) as i32)),
        updates: st.updates,
    }
}

/// `p` moved by an offset.
pub open spec fn moved(p: IVec3, o: (int, int, int)) -> IVec3 {
    IVec3 { x: (p.x + o.0) as i32, y: (p.y + o.1) as i32, z: (p.z + o.2) as i32 }
}

impl ChunkSlice {
    /// Whether a chunk coordinate lies in this slice.
    pub open spec fn holds(&self, p: IVec3) -> bool {
        &&& p.x >= 0 && p.y >= 0 && p.z >= 0
        &&& self.x_range.start <= p.x < self.x_range.end
        &&& self.y_range.start <= p.y < self.y_range.end
        &&& self.z_range.start <= p.z < self.z_range.end
    }

    /// The slice lies in its chunk.
    pub open spec fn in_chunk(&self) -> bool {
        &&& self.x_range.end <= 62 && self.y_range.end <= 62 && self.z_range.end <= 62
        &&& chunk_key_in_range(self.chunk_pos)
    }

    /// The points of the slice in simulation order: y outermost, then x,
    /// then z.
    pub open spec fn points(&self) -> Seq<IVec3> {
        ygrid(
            self.y_range.start as int,
            self.y_range.end - self.y_range.start,
            self.x_range.start as int,
            self.x_range.end as int,
            self.z_range.start as int,
            self.z_range.end as int,
        )
    }

    /// The deferred update for sand at `rel` moving by `o` out of the chunk
    /// (none when the target stays in the chunk).
    pub open spec fn spec_boundary(&self, st: SliceState, rel: IVec3, o: (int, int, int)) -> SliceState {
        let world = IVec3 {
            x: (62 * self.chunk_pos.x + rel.x) as i32,
            y: (62 * self.chunk_pos.y + rel.y) as i32,
            z: (62 * self.chunk_pos.z + rel.z) as i32,
        };
        let target = moved(world, o);
        if home_chunk(target) != self.chunk_pos {
            SliceState {
                updates: st.updates.push(BoundaryUpdate {
                    from_pos: world,
                    to_pos: target,
                    from_voxel: state_voxel(st, rel),
                    to_voxel: Voxel::Air,
                }),
                ..st
            }
        } else {
            st
        }
    }

    /// Sand at `rel` trying its fall targets from the `i`-th on: inside the
    /// slice it swaps with the first liquid or gas; a target outside the
    /// slice defers a boundary update and the search goes on.
    pub open spec fn spec_sand(&self, st: SliceState, rel: IVec3, i: int) -> SliceState
        decreases 5 - i,
    {
        if i >= 5 || i < 0 {
            st
        } else {
            let o = semisolid_offset(i);
            let target = moved(rel, o);
            if self.holds(target) {
                let v = state_voxel(st, target);
                if v.spec_is_liquid() || v.spec_is_gas() {
                    state_set(state_set(st, target, Voxel::Sand), rel, v)
                } else {
                    self.spec_sand(st, rel, i + 1)
                }
            } else {
                self.spec_sand(self.spec_boundary(st, rel, o), rel, i + 1)
            }
        }
    }

    /// One simulation step at `rel`: sand moves; liquids and dirt do
    /// nothing in a slice.
    pub open spec fn spec_step(&self, st: SliceState, rel: IVec3) -> SliceState {
        if state_voxel(st, rel) == Voxel::Sand {
            self.spec_sand(st, rel, 0)
        } else {
            st
        }
    }

    /// Steps at each point of `pts`, in order.
    pub open spec fn spec_steps(&self, st: SliceState, pts: Seq<IVec3>) -> SliceState
        decreases pts.len(),
    {
        if pts.len() == 0 {
            st
        } else {
            self.spec_step(self.spec_steps(st, pts.drop_last()), pts.last())
        }
    }

    /// Whether a chunk coordinate lies in this slice.
    pub fn contains_relative_pos(&self, pos: IVec3) -> (r: bool)
        ensures
            r == self.holds(pos),
    {
        pos.x >= 0 && pos.y >= 0 && pos.z >= 0 && self.x_range.start <= pos.x as usize && (pos.x as usize)
            < self.x_range.end && self.y_range.start <= pos.y as usize && (pos.y as usize) < self.y_range.end
            && self.z_range.start <= pos.z as usize && (pos.z as usize) < self.z_range.end
    }

    /// Defer a move of the voxel at `relative_pos` by `swap_point` that
    /// leaves the chunk.
    fn handle_boundary_simulation(&self, relative_pos: IVec3, swap_point: (i32, i32, i32), job: &mut ChunkSimulationJob)
        requires
            self.in_chunk(),
            old(job).chunk.wf(),
            old(job).chunk_pos == self.chunk_pos,
            in_unpadded_bounds(relative_pos.x as int, relative_pos.y as int, relative_pos.z as int),
            -1 <= swap_point.0 <= 1 && -1 <= swap_point.1 <= 1 && -1 <= swap_point.2 <= 1,
        ensures
            final(job).chunk == old(job).chunk,
            final(job).chunk_pos == old(job).chunk_pos,
            final(job).is_active == old(job).is_active,
            job_state(*final(job)) == self.spec_boundary(job_state(*old(job)), relative_pos,
                (swap_point.0 as int, swap_point.1 as int, swap_point.2 as int)),
    {
        let base = IVec3::new(job.chunk_pos.x * 62, job.chunk_pos.y * 62, job.chunk_pos.z * 62);
        let world_pos = base.add(relative_pos);
        let target_world_pos = world_pos.add(IVec3::new(swap_point.0, swap_point.1, swap_point.2));
        let target_chunk_pos = Voxels::find_chunk(target_world_pos);
        if target_chunk_pos != job.chunk_pos {
            let current_voxel = job.chunk.voxel(relative_pos.to_array());
            let update = BoundaryUpdate {
                from_pos: world_pos,
                to_pos: target_world_pos,
                from_voxel: current_voxel,
                to_voxel: Voxel::Air,
            };
            job.add_boundary_update(update);
            assert(job_state(*job) =~= self.spec_boundary(job_state(*old(job)), relative_pos,
                (swap_point.0 as int, swap_point.1 as int, swap_point.2 as int)));
        }
    }

    /// Sand at `relative_pos` falls within the slice into the first liquid
    /// or gas below it; targets outside the slice are deferred.
    fn simulate_sand_slice(&self, relative_pos: IVec3, job: &mut ChunkSimulationJob)
        requires
            self.in_chunk(),
            old(job).chunk.wf(),
            old(job).chunk_pos == self.chunk_pos,
            self.holds(relative_pos),
        ensures
            final(job).chunk.wf(),
            final(job).chunk_pos == old(job).chunk_pos,
            final(job).is_active == old(job).is_active,
            job_state(*final(job)) == self.spec_sand(job_state(*old(job)), relative_pos, 0),
    {
        let offsets: [(i32, i32, i32); 5] = [(0, -1, 0), (1, -1, 0), (0, -1, 1), (-1, -1, 0), (0, -1, -1)];
        let mut i: usize = 0;
        while i < 5
            invariant
                i <= 5,
                self.in_chunk(),
                self.holds(relative_pos),
                job.chunk.wf(),
                job.chunk_pos == self.chunk_pos,
                job.chunk_pos == old(job).chunk_pos,
                job.is_active == old(job).is_active,
                self.spec_sand(job_state(*old(job)), relative_pos, 0) == self.spec_sand(job_state(*job), relative_pos, i as int),
                forall|k: int| 0 <= k < 5 ==> (#[trigger] offsets@[k]).0 == semisolid_offset(k).0
                    && offsets@[k].1 == semisolid_offset(k).1 && offsets@[k].2 == semisolid_offset(k).2,
            decreases 5 - i,
        {
            let sp = offsets[i];
            assert(offsets@[i as int] == sp);
            let target_pos = relative_pos.add(IVec3::new(sp.0, sp.1, sp.2));
            assert(target_pos == moved(relative_pos, semisolid_offset(i as int)));
            if self.contains_relative_pos(target_pos) {
                let voxel = job.chunk.voxel(target_pos.to_array());
                if voxel.is_liquid() || voxel.is_gas() {
                    let ghost st0 = job_state(*job);
                    job.chunk.set(target_pos.to_array(), Voxel::Sand);
                    job.chunk.set(relative_pos.to_array(), voxel);
                    assert(job_state(*job) =~= state_set(state_set(st0, target_pos, Voxel::Sand), relative_pos, voxel));
                    return;
                }
            } else {
                self.handle_boundary_simulation(relative_pos, sp, job);
            }
            i += 1;
        }
    }

    /// Simulate only the voxels in this slice, y outermost, then x, then z.
    pub fn simulate(&self, job: &mut ChunkSimulationJob)
        requires
            self.in_chunk(),
            old(job).chunk.wf(),
            old(job).chunk_pos == self.chunk_pos,
        ensures
            final(job).chunk.wf(),
            final(job).chunk_pos == old(job).chunk_pos,
            final(job).is_active == old(job).is_active,
            job_state(*final(job)) == self.spec_steps(job_state(*old(job)), self.points()),
            same_ids(old(job).chunk.voxels@, final(job).chunk.voxels@),
            forall|k: int| 0 <= k < 262144 && !self.slice_index(k) ==> #[trigger] final(job).chunk.voxels@[k]
                == old(job).chunk.voxels@[k],
            final(job).boundary_updates@.subrange(0, old(job).boundary_updates@.len() as int)
                == old(job).boundary_updates@,
    {
        proof {
            let pts = self.points();
            assert forall|j: int| 0 <= j < pts.len() implies self.holds(#[trigger] pts[j]) by {
                assert(pts.contains(pts[j]));
                lemma_ygrid_member(self.y_range.start as int, self.y_range.end - self.y_range.start,
                    self.x_range.start as int, self.x_range.end as int, self.z_range.start as int,
                    self.z_range.end as int, pts[j]);
            }
            self.lemma_steps_frame(job_state(*job), pts);
        }
        let ghost st0 = job_state(*job);
        let (ylo, yhi) = (self.y_range.start, self.y_range.end);
        let (xlo, xhi) = (self.x_range.start, self.x_range.end);
        let (zlo, zhi) = (self.z_range.start, self.z_range.end);
        let mut y = ylo;
        if y > yhi {
            y = yhi;
        }
        while y < yhi
            invariant
                self.in_chunk(),
                ylo == self.y_range.start && yhi == self.y_range.end,
                xlo == self.x_range.start && xhi == self.x_range.end,
                zlo == self.z_range.start && zhi == self.z_range.end,
                ylo <= y <= yhi || (y == yhi && yhi < ylo),
                job.chunk.wf(),
                job.chunk_pos == self.chunk_pos,
                job.chunk_pos == old(job).chunk_pos,
                job.is_active == old(job).is_active,
                job_state(*job) == self.spec_steps(st0, ygrid(ylo as int, y - ylo, xlo as int, xhi as int, zlo as int, zhi as int)),
            decreases yhi - y,
        {
            let mut x = xlo;
            if x > xhi {
                x = xhi;
            }
            while x < xhi
                invariant
                    self.in_chunk(),
                    ylo == self.y_range.start && yhi == self.y_range.end,
                    xlo == self.x_range.start && xhi == self.x_range.end,
                    zlo == self.z_range.start && zhi == self.z_range.end,
                    ylo <= y < yhi,
                    xlo <= x <= xhi || (x == xhi && xhi < xlo),
                    job.chunk.wf(),
                    job.chunk_pos == self.chunk_pos,
                    job.chunk_pos == old(job).chunk_pos,
                    job.is_active == old(job).is_active,
                    job_state(*job) == self.spec_steps(st0, ygrid(ylo as int, y - ylo, xlo as int, xhi as int, zlo as int, zhi as int)
                        + xlayer(y as int, xlo as int, x - xlo, zlo as int, zhi as int)),
                decreases xhi - x,
            {
                let mut z = zlo;
                if z > zhi {
                    z = zhi;
                }
                while z < zhi
                    invariant
                        self.in_chunk(),
                        ylo == self.y_range.start && yhi == self.y_range.end,
                        xlo == self.x_range.start && xhi == self.x_range.end,
                        zlo == self.z_range.start && zhi == self.z_range.end,
                        ylo <= y < yhi,
                        xlo <= x < xhi,
                        zlo <= z <= zhi || (z == zhi && zhi < zlo),
                        job.chunk.wf(),
                        job.chunk_pos == self.chunk_pos,
                        job.chunk_pos == old(job).chunk_pos,
                        job.is_active == old(job).is_active,
                        job_state(*job) == self.spec_steps(st0, ygrid(ylo as int, y - ylo, xlo as int, xhi as int, zlo as int, zhi as int)
                            + xlayer(y as int, xlo as int, x - xlo, zlo as int, zhi as int)
                            + zrow(x as int, y as int, zlo as int, z as int)),
                    decreases zhi - z,
                {
                    let relative_pos = IVec3::new(x as i32, y as i32, z as i32);
                    let ghost prefix = ygrid(ylo as int, y - ylo, xlo as int, xhi as int, zlo as int, zhi as int)
                        + xlayer(y as int, xlo as int, x - xlo, zlo as int, zhi as int)
                        + zrow(x as int, y as int, zlo as int, z as int);
                    let ghost next = ygrid(ylo as int, y - ylo, xlo as int, xhi as int, zlo as int, zhi as int)
                        + xlayer(y as int, xlo as int, x - xlo, zlo as int, zhi as int)
                        + zrow(x as int, y as int, zlo as int, z + 1);
                    proof {
                        assert(zrow(x as int, y as int, zlo as int, z + 1) =~= zrow(x as int, y as int, zlo as int, z as int).push(relative_pos));
                        assert(next =~= prefix.push(relative_pos));
                        assert(next.drop_last() =~= prefix);
                    }
                    let voxel = job.chunk.voxel(relative_pos.to_array());
                    if voxel == Voxel::Sand {
                        self.simulate_sand_slice(relative_pos, job);
                    }
                    z += 1;
                }
                proof {
                    let a = ygrid(ylo as int, y - ylo, xlo as int, xhi as int, zlo as int, zhi as int);
                    let b = xlayer(y as int, xlo as int, x - xlo, zlo as int, zhi as int);
                    let c = zrow(x as int, y as int, zlo as int, z as int);
                    assert(xlayer(y as int, xlo as int, x + 1 - xlo, zlo as int, zhi as int) == b + c);
                    assert(a + b + c =~= a + (b + c));
                }
                x += 1;
            }
            proof {
                let a = ygrid(ylo as int, y - ylo, xlo as int, xhi as int, zlo as int, zhi as int);
                let b = xlayer(y as int, xlo as int, x - xlo, zlo as int, zhi as int);
                assert(ygrid(ylo as int, y + 1 - ylo, xlo as int, xhi as int, zlo as int, zhi as int) == a + b);
            }
            y += 1;
        }
    }
}

/// Copy each job's chunk back into the world where the world has that
/// chunk. The chunks' paddings are not refreshed.
pub fn update_voxels_from_simulation(voxels: &mut Voxels, sim_grid: &ChunkSimulationGrid)
    requires
        old(voxels).wf_parts(),
        sim_grid.wf(),
        forall|p: IVec3| #[trigger] sim_grid.job_map().dom().contains(p) ==> sim_grid.job_map()[p].chunk.wf(),
    ensures
        final(voxels).wf_parts(),
        final(voxels).key_seq() == old(voxels).key_seq(),
        forall|c: IVec3| #[trigger] final(voxels).has_chunk(c) == old(voxels).has_chunk(c),
        forall|p: IVec3| #[trigger] sim_grid.job_map().dom().contains(p) && old(voxels).has_chunk(p)
            ==> final(voxels).chunk_of(p).same_parts(sim_grid.job_map()[p].chunk),
        forall|c: IVec3| old(voxels).has_chunk(c) && !sim_grid.job_map().dom().contains(c)
            ==> #[trigger] final(voxels).chunk_of(c) == old(voxels).chunk_of(c),
{
    let keys = job_table_keys(&sim_grid.jobs);
    let mut i: usize = 0;
    while i < keys.len()
        invariant
            i <= keys@.len(),
            keys@.no_duplicates(),
            forall|p: IVec3| #[trigger] keys@.contains(p) <==> sim_grid.job_map().dom().contains(p),
            sim_grid.wf(),
            forall|p: IVec3| #[trigger] sim_grid.job_map().dom().contains(p) ==> sim_grid.job_map()[p].chunk.wf(),
            voxels.wf_parts(),
            voxels.key_seq() == old(voxels).key_seq(),
            forall|c: IVec3| #[trigger] voxels.has_chunk(c) == old(voxels).has_chunk(c),
            forall|k: int| 0 <= k < i && old(voxels).has_chunk(#[trigger] keys@[k])
                ==> voxels.chunk_of(keys@[k]).same_parts(sim_grid.job_map()[keys@[k]].chunk),
            forall|c: IVec3| old(voxels).has_chunk(c) && !(exists|k: int| 0 <= k < i && keys@[k] == c)
                ==> #[trigger] voxels.chunk_of(c) == old(voxels).chunk_of(c),
        decreases keys@.len() - i,
    {
        let pos = keys[i];
        proof {
            assert(keys@.contains(pos));
        }
        match job_table_get(&sim_grid.jobs, pos) {
            Some(job) => {
                let copy = job.chunk.clone();
                proof {
                    copy.lemma_same_parts_wf(job.chunk);
                }
                voxels.replace_chunk(pos, copy);
                proof {
                    assert forall|k: int| 0 <= k < i + 1 && old(voxels).has_chunk(#[trigger] keys@[k])
                        implies voxels.chunk_of(keys@[k]).same_parts(sim_grid.job_map()[keys@[k]].chunk) by {
                        if k < i {
                            assert(keys@[k] != keys@[i as int]);
                        }
                    }
                    assert forall|c: IVec3| old(voxels).has_chunk(c) && !(exists|k: int| 0 <= k < i + 1 && keys@[k] == c)
                        implies #[trigger] voxels.chunk_of(c) == old(voxels).chunk_of(c) by {
                        assert(keys@[i as int] != c);
                        assert(!(exists|k: int| 0 <= k < i && keys@[k] == c)) by {
                            if exists|k: int| 0 <= k < i && keys@[k] == c {
                                let k = choose|k: int| 0 <= k < i && keys@[k] == c;
                                assert(0 <= k < i + 1 && keys@[k] == c);
                            }
                        }
                    }
                }
            },
            None => {
                assert(false);
            },
        }
        i += 1;
    }
    proof {
        assert forall|p: IVec3| #[trigger] sim_grid.job_map().dom().contains(p) && old(voxels).has_chunk(p)
            implies voxels.chunk_of(p).same_parts(sim_grid.job_map()[p].chunk) by {
            assert(keys@.contains(p));
            let k = choose|k: int| 0 <= k < keys@.len() && keys@[k] == p;
            assert(old(voxels).has_chunk(keys@[k]));
        }
        assert forall|c: IVec3| old(voxels).has_chunk(c) && !sim_grid.job_map().dom().contains(c)
            implies #[trigger] voxels.chunk_of(c) == old(voxels).chunk_of(c) by {
            assert(!(exists|k: int| 0 <= k < i && keys@[k] == c)) by {
                if exists|k: int| 0 <= k < i && keys@[k] == c {
                    let k = choose|k: int| 0 <= k < i && keys@[k] == c;
                    assert(keys@.contains(c));
                }
            }
        }
    }
}

} // verus!

verus! {

/// Whether every id of a state names a voxel.
pub open spec fn ids_valid(st: SliceState) -> bool {
    forall|k: int| 0 <= k < st.ids.len() ==> #[trigger] st.ids[k] < 9
}

/// Whether `s2` is `s` with some entries exchanged: it holds the same ids,
/// as many of each.
pub open spec fn same_ids(s: Seq<u16>, s2: Seq<u16>) -> bool {
    s2.len() == s.len() && s2.to_multiset() == s.to_multiset()
}

impl ChunkSlice {
    /// Whether array index `k` of the chunk is the padded index of a point
    /// of this slice.
    pub open spec fn slice_index(&self, k: int) -> bool {
        exists|p: IVec3| self.holds(p) && #[trigger] padded_index(p.x + 1, p.y + 1, p.z + 1) == k
    }

    /// What a slice step may change: sand trying its targets from the
    /// `i`-th on exchanges two ids of the slice or none, and only adds
    /// boundary updates.
    proof fn lemma_sand_frame(&self, st: SliceState, rel: IVec3, i: int)
        requires
            self.in_chunk(),
            self.holds(rel),
            st.ids.len() == 262144,
            ids_valid(st),
            state_voxel(st, rel) == Voxel::Sand,
            0 <= i,
        ensures
            same_ids(st.ids, self.spec_sand(st, rel, i).ids),
            ids_valid(self.spec_sand(st, rel, i)),
            forall|k: int| 0 <= k < 262144 && !self.slice_index(k) ==> #[trigger] self.spec_sand(st, rel, i).ids[k]
                == st.ids[k],
            self.spec_sand(st, rel, i).updates.len() >= st.updates.len(),
            self.spec_sand(st, rel, i).updates.subrange(0, st.updates.len() as int) == st.updates,
        decreases 5 - i,
    {
        if i < 5 {
            let o = semisolid_offset(i);
            let target = moved(rel, o);
            if self.holds(target) {
                let v = state_voxel(st, target);
                if v.spec_is_liquid() || v.spec_is_gas() {
                    let kt = padded_index(target.x + 1, target.y + 1, target.z + 1);
                    let kr = padded_index(rel.x + 1, rel.y + 1, rel.z + 1);
                    let s = st.ids;
                    let s1 = s.update(kt, Voxel::Sand.spec_id());
                    let s2 = s1.update(kr, v.spec_id());
                    assert(target != rel);
                    assert(0 <= kt < 262144 && 0 <= kr < 262144) by (nonlinear_arith)
                        requires kt == target.z + 1 + (target.x + 1) * 64 + (target.y + 1) * 4096,
                            kr == rel.z + 1 + (rel.x + 1) * 64 + (rel.y + 1) * 4096,
                            0 <= target.x < 62, 0 <= target.y < 62, 0 <= target.z < 62,
                            0 <= rel.x < 62, 0 <= rel.y < 62, 0 <= rel.z < 62 {}
                    if kt == kr {
                        lemma_padded_index_injective(
                            target.x + 1, target.y + 1, target.z + 1, rel.x + 1, rel.y + 1, rel.z + 1);
                    }
                    assert(kt != kr);
                    assert(s[kt] < 9 && s[kr] < 9);
                    assert(v.spec_id() == s[kt]);
                    assert(Voxel::Sand.spec_id() == s[kr]);
                    vstd::seq_lib::to_multiset_update(s, kt, Voxel::Sand.spec_id());
                    vstd::seq_lib::to_multiset_update(s1, kr, v.spec_id());
                    assert(s1.to_multiset() == s.to_multiset().insert(s[kr]).remove(s[kt]));
                    assert(s1[kr] == s[kr]);
                    assert(s2.to_multiset() == s1.to_multiset().insert(s[kt]).remove(s[kr]));
                    assert(s2.to_multiset() =~= s.to_multiset()) by {
                        broadcast use vstd::seq_lib::group_to_multiset_ensures;
                        broadcast use vstd::multiset::group_multiset_axioms;
                        assert(s.contains(s[kt]));
                        assert(s.to_multiset().count(s[kt]) > 0);
                        assert(s.to_multiset().insert(s[kr]).count(s[kr]) > 0);
                    }
                    assert(s2 == self.spec_sand(st, rel, i).ids);
                    assert forall|k: int| 0 <= k < 262144 && !self.slice_index(k) implies #[trigger] s2[k] == s[k] by {
                        assert(self.holds(target) && padded_index(target.x + 1, target.y + 1, target.z + 1) == kt);
                        assert(self.holds(rel) && padded_index(rel.x + 1, rel.y + 1, rel.z + 1) == kr);
                    }
                    assert(self.spec_sand(st, rel, i).updates =~= st.updates.subrange(0, st.updates.len() as int));
                } else {
                    self.lemma_sand_frame(st, rel, i + 1);
                }
            } else {
                let st2 = self.spec_boundary(st, rel, o);
                assert(st2.ids == st.ids);
                assert(st2.updates.subrange(0, st.updates.len() as int) =~= st.updates);
                self.lemma_sand_frame(st2, rel, i + 1);
                let r = self.spec_sand(st2, rel, i + 1).updates;
                assert(r.subrange(0, st.updates.len() as int) =~= r.subrange(0, st2.updates.len() as int).subrange(
                    0, st.updates.len() as int));
            }
        } else {
            assert(st.updates.subrange(0, st.updates.len() as int) =~= st.updates);
        }
    }

    /// Simulating a slice only exchanges voxels of the slice: the chunk
    /// holds as many of each kind as before, every voxel outside the slice
    /// stays, and boundary updates are only added behind the earlier ones.
    pub proof fn lemma_steps_frame(&self, st: SliceState, pts: Seq<IVec3>)
        requires
            self.in_chunk(),
            forall|j: int| 0 <= j < pts.len() ==> self.holds(#[trigger] pts[j]),
            st.ids.len() == 262144,
            ids_valid(st),
        ensures
            same_ids(st.ids, self.spec_steps(st, pts).ids),
            ids_valid(self.spec_steps(st, pts)),
            forall|k: int| 0 <= k < 262144 && !self.slice_index(k) ==> #[trigger] self.spec_steps(st, pts).ids[k]
                == st.ids[k],
            self.spec_steps(st, pts).updates.len() >= st.updates.len(),
            self.spec_steps(st, pts).updates.subrange(0, st.updates.len() as int) == st.updates,
        decreases pts.len(),
    {
        if pts.len() == 0 {
            assert(st.updates.subrange(0, st.updates.len() as int) =~= st.updates);
        } else {
            let rest = pts.drop_last();
            assert forall|j: int| 0 <= j < rest.len() implies self.holds(#[trigger] rest[j]) by {
                assert(rest[j] == pts[j]);
            }
            self.lemma_steps_frame(st, rest);
            let mid = self.spec_steps(st, rest);
            let p = pts.last();
            assert(self.holds(pts[pts.len() - 1]));
            if state_voxel(mid, p) == Voxel::Sand {
                self.lemma_sand_frame(mid, p, 0);
            } else {
                assert(mid.updates.subrange(0, mid.updates.len() as int) =~= mid.updates);
            }
            let r = self.spec_steps(st, pts).updates;
            assert(r.subrange(0, st.updates.len() as int) =~= r.subrange(0, mid.updates.len() as int).subrange(
                0, st.updates.len() as int));
        }
    }
}

} // verus!
