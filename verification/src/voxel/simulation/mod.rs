//! Voxel falling sands: each queued voxel moves by the rules of its kind,
//! in an order that rotates with the simulation tick.

use vstd::prelude::*;

pub mod parallel;

use crate::math::IVec3;
use crate::voxel::voxel::Voxel;
use crate::voxel::voxels::{point_in_range, model_set_voxel, Voxels, VoxelsModel};

verus! {

/// The simulation tick; it selects the update order and the liquid spread
/// direction.
#[derive(Debug, Copy, Clone, PartialEq, Eq, Structural, Hash)]
pub struct FallingSandTick(pub u32);

/// A planned move of a voxel.
#[derive(Debug, Copy, Clone, PartialEq, Eq, Structural)]
pub struct VoxelMovement {
    pub from: IVec3,
    pub from_chunk: IVec3,
    pub to: IVec3,
}

impl FallingSandTick {
    /// Advance the tick, wrapping at half the `u32` range.
    pub fn advance(&mut self)
        requires
            old(self).0 < u32::MAX,
        ensures
            final(self).0 == (old(self).0 + 1) % (u32::MAX / 2) as int,
    {
        self.0 = (self.0 + 1) % (u32::MAX / 2);
    }
}

/// `p` moved by `(dx, dy, dz)`.
pub open spec fn shifted(p: IVec3, dx: int, dy: int, dz: int) -> IVec3 {
    IVec3 { x: (p.x + dx) as i32, y: (p.y + dy) as i32, z: (p.z + dz) as i32 }
}

/// A point whose neighbours (and theirs) can be read and written.
pub open spec fn sim_range(p: IVec3) -> bool {
    -2147482999 <= p.x <= 2147482999 && -2147482999 <= p.y <= 2147482999 && -2147482999 <= p.z
        <= 2147482999
}

/// The voxel a model holds at `p`.
pub open spec fn at(m: VoxelsModel, p: IVec3) -> Voxel {
    (m.world)(p)
}

/// Swap what is at `p` and `q`: `q` gets `vq`, then `p` gets `vp`.
pub open spec fn swap_into(m: VoxelsModel, q: IVec3, vq: Voxel, p: IVec3, vp: Voxel) -> VoxelsModel {
    model_set_voxel(model_set_voxel(m, q, vq), p, vp)
}

/// The places sand tries to fall to, in order: straight down, then the four
/// diagonals below.
pub open spec fn semisolid_offset(i: int) -> (int, int, int) {
    if i == 0 {
        (0, -1, 0)
    } else if i == 1 {
        (1, -1, 0)
    } else if i == 2 {
        (0, -1, 1)
    } else if i == 3 {
        (-1, -1, 0)
    } else {
        (0, -1, -1)
    }
}

/// Sand at `p` trying the fall targets from the `i`-th on: it swaps with the
/// first liquid or gas it finds.
pub open spec fn model_semisolid_from(m: VoxelsModel, p: IVec3, i: int) -> VoxelsModel
    decreases 5 - i,
{
    if i >= 5 {
        m
    } else {
        let o = semisolid_offset(i);
        let q = shifted(p, o.0, o.1, o.2);
        let v = at(m, q);
        if v.spec_is_liquid() || v.spec_is_gas() {
            swap_into(m, q, Voxel::Sand, p, v)
        } else {
            model_semisolid_from(m, p, i + 1)
        }
    }
}

/// One step of sand at `p`.
pub open spec fn model_semisolid(m: VoxelsModel, p: IVec3) -> VoxelsModel {
    model_semisolid_from(m, p, 0)
}

/// The places a liquid tries to flow to, in the order of its cycle: the
/// four diagonals below, then the four sides.
pub open spec fn liquid_offset(i: int) -> (int, int, int) {
    if i == 0 {
        (-1, -1, 0)
    } else if i == 1 {
        (1, -1, 0)
    } else if i == 2 {
        (0, -1, -1)
    } else if i == 3 {
        (0, -1, 1)
    } else if i == 4 {
        (-1, 0, 0)
    } else if i == 5 {
        (1, 0, 0)
    } else if i == 6 {
        (0, 0, -1)
    } else {
        (0, 0, 1)
    }
}

/// Whether liquid `sim` displaces voxel `v`: gases always, liquids when
/// `sim` is denser.
pub open spec fn liquid_displaces(sim: Voxel, v: Voxel) -> bool {
    v.spec_is_gas() || (v.spec_is_liquid() && sim.spec_density() > v.spec_density())
}

/// Liquid `sim` at `p` trying its flow targets, the `j`-th after `start` in
/// the cycle first: it swaps with the first voxel it displaces.
pub open spec fn model_liquid_from(m: VoxelsModel, p: IVec3, sim: Voxel, start: int, j: int) -> VoxelsModel
    decreases 8 - j,
{
    if j >= 8 {
        m
    } else {
        let o = liquid_offset((start + j) % 8);
        let q = shifted(p, o.0, o.1, o.2);
        let v = at(m, q);
        if liquid_displaces(sim, v) {
            swap_into(m, q, sim, p, v)
        } else {
            model_liquid_from(m, p, sim, start, j + 1)
        }
    }
}

/// One step of liquid `sim` at `p`: straight down if it can, else around
/// the cycle starting at the tick's place in it.
pub open spec fn model_liquid(m: VoxelsModel, p: IVec3, sim: Voxel, tick: u32) -> VoxelsModel {
    let below = shifted(p, 0, -1, 0);
    let bv = at(m, below);
    if liquid_displaces(sim, bv) {
        swap_into(m, below, sim, p, bv)
    } else {
        model_liquid_from(m, p, sim, (tick % 8) as int, 0)
    }
}

/// Whether the voxel is neither liquid nor gas, so it holds dirt up.
pub open spec fn supports(v: Voxel) -> bool {
    !v.spec_is_liquid() && !v.spec_is_gas()
}

/// Whether dirt at `p` touches a supporting voxel at a side or above.
pub open spec fn has_support(m: VoxelsModel, p: IVec3) -> bool {
    ||| supports(at(m, shifted(p, -1, 0, 0)))
    ||| supports(at(m, shifted(p, 1, 0, 0)))
    ||| supports(at(m, shifted(p, 0, 0, -1)))
    ||| supports(at(m, shifted(p, 0, 0, 1)))
    ||| supports(at(m, shifted(p, 0, 1, 0)))
}

/// One step of dirt at `p`: over air, and held by a neighbour, it moves
/// down into the air.
pub open spec fn model_structured(m: VoxelsModel, p: IVec3) -> VoxelsModel {
    let below = shifted(p, 0, -1, 0);
    let bv = at(m, below);
    if bv == Voxel::Air && has_support(m, p) {
        swap_into(m, below, Voxel::Dirt, p, bv)
    } else {
        m
    }
}

/// Sand falls into the first liquid or gas below it (straight down, then
/// the diagonals), swapping places.
pub fn simulate_semisolid(grid: &mut Voxels, point: IVec3, sim_voxel: Voxel, sim_tick: &FallingSandTick)
    requires
        old(grid).wf(),
        sim_range(point),
    ensures
        final(grid).wf(),
        final(grid).model() == model_semisolid(old(grid).model(), point),
{
    let offsets: [(i32, i32, i32); 5] = [(0, -1, 0), (1, -1, 0), (0, -1, 1), (-1, -1, 0), (0, -1, -1)];
    let ghost m0 = grid.model();
    let mut i: usize = 0;
    while i < 5
        invariant
            i <= 5,
            grid.wf(),
            sim_range(point),
            grid.model() == m0,
            m0 == old(grid).model(),
            model_semisolid(m0, point) == model_semisolid_from(m0, point, i as int),
            forall|k: int| 0 <= k < 5 ==> (#[trigger] offsets@[k]).0 == semisolid_offset(k).0
                && offsets@[k].1 == semisolid_offset(k).1 && offsets@[k].2 == semisolid_offset(k).2,
        decreases 5 - i,
    {
        let (dx, dy, dz) = offsets[i];
        assert(offsets@[i as int] == (dx, dy, dz));
        let target = point.add(IVec3::new(dx, dy, dz));
        assert(target == shifted(point, semisolid_offset(i as int).0, semisolid_offset(i as int).1, semisolid_offset(i as int).2));
        let voxel = grid.get_voxel(target);
        assert(voxel == at(m0, target));
        if voxel.is_liquid() || voxel.is_gas() {
            assert(model_semisolid_from(m0, point, i as int) == swap_into(m0, target, Voxel::Sand, point, voxel));
            grid.set_voxel(target, Voxel::Sand);
            grid.set_voxel(point, voxel);
            return;
        }
        i += 1;
    }
}

/// A liquid moves straight down into what it displaces, else into the first
/// displaced voxel around the cycle of diagonals below and sides, starting
/// at the tick's place in the cycle.
pub fn simulate_liquid(grid: &mut Voxels, point: IVec3, sim_voxel: Voxel, sim_tick: &FallingSandTick)
    requires
        old(grid).wf(),
        sim_range(point),
    ensures
        final(grid).wf(),
        final(grid).model() == model_liquid(old(grid).model(), point, sim_voxel, sim_tick.0),
{
    let offsets: [(i32, i32, i32); 8] = [
        (-1, -1, 0), (1, -1, 0), (0, -1, -1), (0, -1, 1),
        (-1, 0, 0), (1, 0, 0), (0, 0, -1), (0, 0, 1),
    ];
    let below_point = point.add(IVec3::new(0, -1, 0));
    let below_voxel = grid.get_voxel(below_point);
    if below_voxel.is_gas() || (below_voxel.is_liquid() && sim_voxel.denser(below_voxel)) {
        grid.set_voxel(below_point, sim_voxel);
        grid.set_voxel(point, below_voxel);
    } else {
        let ghost m0 = grid.model();
        let start: usize = (sim_tick.0 % 8) as usize;
        let mut j: usize = 0;
        while j < 8
            invariant
                j <= 8,
                start < 8,
                start == sim_tick.0 % 8,
                grid.wf(),
                sim_range(point),
                grid.model() == m0,
                model_liquid(old(grid).model(), point, sim_voxel, sim_tick.0)
                    == model_liquid_from(m0, point, sim_voxel, start as int, 0),
                model_liquid_from(m0, point, sim_voxel, start as int, 0)
                    == model_liquid_from(m0, point, sim_voxel, start as int, j as int),
                forall|k: int| 0 <= k < 8 ==> (#[trigger] offsets@[k]).0 == liquid_offset(k).0
                    && offsets@[k].1 == liquid_offset(k).1 && offsets@[k].2 == liquid_offset(k).2,
            decreases 8 - j,
        {
            let idx = (start + j) % 8;
            let (dx, dy, dz) = offsets[idx];
            assert(offsets@[idx as int] == (dx, dy, dz));
            let target = point.add(IVec3::new(dx, dy, dz));
            let voxel = grid.get_voxel(target);
            assert(voxel == at(m0, target));
            assert(target == shifted(point, liquid_offset((start + j) % 8).0, liquid_offset((start + j) % 8).1, liquid_offset((start + j) % 8).2));
            if voxel.is_gas() || (voxel.is_liquid() && sim_voxel.denser(voxel)) {
                assert(model_liquid_from(m0, point, sim_voxel, start as int, j as int) == swap_into(m0, target, sim_voxel, point, voxel));
                grid.set_voxel(target, sim_voxel);
                grid.set_voxel(point, voxel);
                return;
            }
            j += 1;
        }
    }
}

/// Dirt over air falls into it when a side or the voxel above holds it up
/// (is neither liquid nor gas).
pub fn simulate_structured(grid: &mut Voxels, point: IVec3, sim_voxel: Voxel, sim_tick: &FallingSandTick)
    requires
        old(grid).wf(),
        sim_range(point),
    ensures
        final(grid).wf(),
        final(grid).model() == model_structured(old(grid).model(), point),
{
    let below_point = point.add(IVec3::new(0, -1, 0));
    let below_voxel = grid.get_voxel(below_point);
    if below_voxel == Voxel::Air {
        let surrounding: [(i32, i32, i32); 5] = [(-1, 0, 0), (1, 0, 0), (0, 0, -1), (0, 0, 1), (0, 1, 0)];
        let mut structured = false;
        let mut k: usize = 0;
        while k < 5
            invariant
                k <= 5,
                grid.wf(),
                sim_range(point),
                surrounding@ == seq![(-1i32, 0i32, 0i32), (1i32, 0i32, 0i32), (0i32, 0i32, -1i32), (0i32, 0i32, 1i32), (0i32, 1i32, 0i32)],
                structured ==> has_support(grid.model(), point),
                !structured ==> forall|j: int| 0 <= j < k ==> !supports(#[trigger] at(grid.model(),
                    shifted(point, surrounding@[j].0 as int, surrounding@[j].1 as int, surrounding@[j].2 as int))),
            ensures
                !structured ==> k == 5,
            decreases 5 - k,
        {
            let (dx, dy, dz) = surrounding[k];
            let check = point.add(IVec3::new(dx, dy, dz));
            let check_voxel = grid.get_voxel(check);
            if !check_voxel.is_liquid() && !check_voxel.is_gas() {
                structured = true;
                break;
            }
            k += 1;
        }
        proof {
            if !structured {
                assert(!supports(at(grid.model(), shifted(point, surrounding@[0].0 as int, surrounding@[0].1 as int, surrounding@[0].2 as int))));
                assert(!supports(at(grid.model(), shifted(point, surrounding@[1].0 as int, surrounding@[1].1 as int, surrounding@[1].2 as int))));
                assert(!supports(at(grid.model(), shifted(point, surrounding@[2].0 as int, surrounding@[2].1 as int, surrounding@[2].2 as int))));
                assert(!supports(at(grid.model(), shifted(point, surrounding@[3].0 as int, surrounding@[3].1 as int, surrounding@[3].2 as int))));
                assert(!supports(at(grid.model(), shifted(point, surrounding@[4].0 as int, surrounding@[4].1 as int, surrounding@[4].2 as int))));
            }
        }
        if structured {
            grid.set_voxel(below_point, Voxel::Dirt);
            grid.set_voxel(point, below_voxel);
        }
    }
}

} // verus!

verus! {

/// The sort key of a point under update order `mode`: y ascending, then
/// (by mode) z and x descending, x and z descending, x and z ascending, or z
/// and x ascending.
pub open spec fn sort_key(p: IVec3, mode: int) -> (int, int, int) {
    if mode == 0 {
        (p.y as int, -p.z, -p.x)
    } else if mode == 1 {
        (p.y as int, -p.x, -p.z)
    } else if mode == 2 {
        (p.y as int, p.x as int, p.z as int)
    } else {
        (p.y as int, p.z as int, p.x as int)
    }
}

/// Strict lexicographic order on key triples.
pub open spec fn key_lt(a: (int, int, int), b: (int, int, int)) -> bool {
    a.0 < b.0 || (a.0 == b.0 && (a.1 < b.1 || (a.1 == b.1 && a.2 < b.2)))
}

/// Lexicographic order on key triples.
pub open spec fn key_le(a: (int, int, int), b: (int, int, int)) -> bool {
    key_lt(a, b) || a == b
}

/// The key triple as integers.
pub open spec fn wide(k: (i64, i64, i64)) -> (int, int, int) {
    (k.0 as int, k.1 as int, k.2 as int)
}

/// Whether `a` is simulated before `b` under update order `mode`.
pub open spec fn update_before(a: IVec3, b: IVec3, mode: int) -> bool {
    key_lt(sort_key(a, mode), sort_key(b, mode))
}

/// Whether `q` lists each point of `s` once, in update order `mode`.
pub open spec fn in_processing_order(q: Seq<IVec3>, s: Set<IVec3>, mode: int) -> bool {
    &&& forall|i: int, j: int| 0 <= i < j < q.len() ==> update_before(#[trigger] q[i], #[trigger] q[j], mode)
    &&& forall|p: IVec3| q.contains(p) <==> #[trigger] s.contains(p)
}

/// The points queued for simulation.
pub open spec fn update_set(u: Seq<crate::voxel::voxels::VoxelUpdate>) -> Set<IVec3> {
    Set::new(|p: IVec3| exists|i: int| 0 <= i < u.len() && (#[trigger] u[i]).0 == p)
}

/// One simulation step of the voxel at `p`, by its kind.
pub open spec fn sim_point(m: VoxelsModel, p: IVec3, tick: u32) -> VoxelsModel {
    let v = at(m, p);
    if v == Voxel::Sand {
        model_semisolid(m, p)
    } else if v == Voxel::Water || v == Voxel::Oil {
        model_liquid(m, p, v, tick)
    } else if v == Voxel::Dirt {
        model_structured(m, p)
    } else {
        m
    }
}

/// Simulation steps at each point of `q`, in order.
pub open spec fn sim_all(m: VoxelsModel, q: Seq<IVec3>, tick: u32) -> VoxelsModel
    decreases q.len(),
{
    if q.len() == 0 {
        m
    } else {
        sim_point(sim_all(m, q.drop_last(), tick), q.last(), tick)
    }
}

/// The model with its update queue emptied.
pub open spec fn cleared(m: VoxelsModel) -> VoxelsModel {
    VoxelsModel { updates: Seq::empty(), ..m }
}

/// Whether `b` is `a` after one falling-sands step at `tick`: the queued
/// points are simulated once each, in the tick's update order, against a
/// fresh queue.
pub open spec fn stepped(a: Voxels, b: Voxels, tick: u32) -> bool {
    &&& b.wf()
    &&& exists|q: Seq<IVec3>| #[trigger] in_processing_order(q, update_set(a.updates()), (tick % 4) as int)
    &&& forall|q: Seq<IVec3>| #[trigger] in_processing_order(q, update_set(a.updates()), (tick % 4) as int)
        ==> b.model() == sim_all(cleared(a.model()), q, tick)
}

/// Whether every queued point can be simulated.
pub open spec fn updates_in_range(u: Seq<crate::voxel::voxels::VoxelUpdate>) -> bool {
    forall|i: int| 0 <= i < u.len() ==> sim_range(#[trigger] u[i].0)
}

/// Distinct points have distinct keys.
proof fn lemma_sort_key_injective(a: IVec3, b: IVec3, mode: int)
    requires
        sort_key(a, mode) == sort_key(b, mode),
    ensures
        a == b,
{
}

/// A set has at most one listing in update order.
pub proof fn lemma_processing_order_unique(q1: Seq<IVec3>, q2: Seq<IVec3>, s: Set<IVec3>, mode: int)
    requires
        in_processing_order(q1, s, mode),
        in_processing_order(q2, s, mode),
    ensures
        q1 == q2,
    decreases q1.len(),
{
    if q1.len() == 0 {
        if q2.len() > 0 {
            assert(q2.contains(q2[0]));
            assert(s.contains(q2[0]));
        }
        assert(q1 =~= q2);
    } else {
        assert(q1.contains(q1[0]));
        assert(s.contains(q1[0]));
        assert(q2.len() > 0);
        assert(q2.contains(q2[0]));
        let h1 = q1[0];
        let h2 = q2[0];
        assert(s.contains(h2));
        assert(q1.contains(h2));
        assert(q2.contains(h1));
        if h1 != h2 {
            let j = choose|j: int| 0 <= j < q2.len() && q2[j] == h1;
            let i = choose|i: int| 0 <= i < q1.len() && q1[i] == h2;
            assert(j != 0 && i != 0);
            assert(update_before(q2[0], q2[j], mode));
            assert(update_before(q1[0], q1[i], mode));
            assert(false);
        }
        assert(h1 == h2);
        let t1 = q1.drop_first();
        let t2 = q2.drop_first();
        let s2 = s.remove(h1);
        assert forall|p: IVec3| t1.contains(p) <==> #[trigger] s2.contains(p) by {
            if t1.contains(p) {
                let i = choose|i: int| 0 <= i < t1.len() && t1[i] == p;
                assert(q1[i + 1] == p);
                assert(update_before(q1[0], q1[i + 1], mode));
                assert(q1.contains(p));
            }
            if s2.contains(p) {
                assert(q1.contains(p));
                let i = choose|i: int| 0 <= i < q1.len() && q1[i] == p;
                assert(i != 0);
                assert(t1[i - 1] == p);
            }
        }
        assert forall|p: IVec3| t2.contains(p) <==> #[trigger] s2.contains(p) by {
            if t2.contains(p) {
                let i = choose|i: int| 0 <= i < t2.len() && t2[i] == p;
                assert(q2[i + 1] == p);
                assert(update_before(q2[0], q2[i + 1], mode));
                assert(q2.contains(p));
            }
            if s2.contains(p) {
                assert(q2.contains(p));
                let i = choose|i: int| 0 <= i < q2.len() && q2[i] == p;
                assert(i != 0);
                assert(t2[i - 1] == p);
            }
        }
        assert forall|i: int, j: int| 0 <= i < j < t1.len() implies update_before(#[trigger] t1[i], #[trigger] t1[j], mode) by {
            assert(update_before(q1[i + 1], q1[j + 1], mode));
        }
        assert forall|i: int, j: int| 0 <= i < j < t2.len() implies update_before(#[trigger] t2[i], #[trigger] t2[j], mode) by {
            assert(update_before(q2[i + 1], q2[j + 1], mode));
        }
        lemma_processing_order_unique(t1, t2, s2, mode);
        assert(q1 =~= seq![h1] + t1);
        assert(q2 =~= seq![h2] + t2);
    }
}

/// `slice::sort_unstable` on key triples: the keys are permuted into
/// ascending lexicographic order.
#[verifier::external_body]
fn sort_keys(keys: &mut Vec<(i64, i64, i64)>)
    ensures
        final(keys)@.to_multiset() == old(keys)@.to_multiset(),
        forall|i: int, j: int| 0 <= i <= j < final(keys)@.len()
            ==> key_le(wide(#[trigger] final(keys)@[i]), wide(#[trigger] final(keys)@[j])),
{
    keys.sort_unstable();
}

/// The sort key of a point, computed.
fn key_of(p: IVec3, mode: u32) -> (k: (i64, i64, i64))
    requires
        mode < 4,
    ensures
        wide(k) == sort_key(p, mode as int),
{
    let x = p.x as i64;
    let y = p.y as i64;
    let z = p.z as i64;
    if mode == 0 {
        (y, -z, -x)
    } else if mode == 1 {
        (y, -x, -z)
    } else if mode == 2 {
        (y, x, z)
    } else {
        (y, z, x)
    }
}

/// The point with a given sort key.
fn point_of_key(k: (i64, i64, i64), mode: u32, Ghost(p): Ghost<IVec3>) -> (r: IVec3)
    requires
        mode < 4,
        wide(k) == sort_key(p, mode as int),
    ensures
        r == p,
{
    if mode == 0 {
        IVec3::new((-k.2) as i32, k.0 as i32, (-k.1) as i32)
    } else if mode == 1 {
        IVec3::new((-k.1) as i32, k.0 as i32, (-k.2) as i32)
    } else if mode == 2 {
        IVec3::new(k.1 as i32, k.0 as i32, k.2 as i32)
    } else {
        IVec3::new(k.2 as i32, k.0 as i32, k.1 as i32)
    }
}

} // verus!

verus! {

/// Simulate one queued point by its voxel's kind.
fn simulate_point(grid: &mut Voxels, point: IVec3, sim_tick: &FallingSandTick)
    requires
        old(grid).wf(),
        sim_range(point),
    ensures
        final(grid).wf(),
        final(grid).model() == sim_point(old(grid).model(), point, sim_tick.0),
{
    let sim_voxel = grid.get_voxel(point);
    match sim_voxel {
        Voxel::Sand => simulate_semisolid(grid, point, sim_voxel, sim_tick),
        Voxel::Water | Voxel::Oil => simulate_liquid(grid, point, sim_voxel, sim_tick),
        Voxel::Dirt => simulate_structured(grid, point, sim_voxel, sim_tick),
        _ => {},
    }
}

/// One falling-sands step of one world: its queue is taken, sorted in the
/// tick's update order without repeats, and each point is simulated in
/// turn; what the moves queue is left for the next step.
pub fn falling_sands_grid(grid: &mut Voxels, sim_tick: &FallingSandTick)
    requires
        old(grid).wf(),
        updates_in_range(old(grid).updates()),
    ensures
        stepped(*old(grid), *final(grid), sim_tick.0),
{
    broadcast use vstd::seq_lib::group_to_multiset_ensures;

    let mode: u32 = sim_tick.0 % 4;
    let ghost s = update_set(old(grid).updates());
    let ghost m0 = cleared(old(grid).model());
    let updates = grid.take_updates();
    let mut keys: Vec<(i64, i64, i64)> = Vec::new();
    let mut i: usize = 0;
    while i < updates.len()
        invariant
            i <= updates@.len(),
            mode < 4,
            keys@.len() == i,
            forall|j: int| 0 <= j < i ==> wide(#[trigger] keys@[j]) == sort_key(updates@[j].0, mode as int),
        decreases updates@.len() - i,
    {
        let k = key_of(updates[i].0, mode);
        keys.push(k);
        i += 1;
    }
    let ghost unsorted = keys@;
    sort_keys(&mut keys);
    proof {
        assert forall|k: (i64, i64, i64)| keys@.contains(k) <==> unsorted.contains(k) by {
            assert(keys@.contains(k) <==> keys@.to_multiset().count(k) > 0);
            assert(unsorted.contains(k) <==> unsorted.to_multiset().count(k) > 0);
        }
    }
    // drop repeats: equal keys are next to each other once sorted
    let mut uniq: Vec<(i64, i64, i64)> = Vec::new();
    let mut i: usize = 0;
    while i < keys.len()
        invariant
            i <= keys@.len(),
            forall|a: int, b: int| 0 <= a <= b < keys@.len() ==> key_le(wide(#[trigger] keys@[a]), wide(#[trigger] keys@[b])),
            forall|a: int, b: int| 0 <= a < b < uniq@.len() ==> key_lt(wide(#[trigger] uniq@[a]), wide(#[trigger] uniq@[b])),
            forall|k: (i64, i64, i64)| uniq@.contains(k) <==> keys@.subrange(0, i as int).contains(k),
            i > 0 ==> uniq@.len() > 0 && uniq@.last() == keys@[i - 1],
            i == 0 ==> uniq@.len() == 0,
        decreases keys@.len() - i,
    {
        let k = keys[i];
        let ghost before = uniq@;
        let repeated = uniq.len() > 0 && {
            let last = uniq[uniq.len() - 1];
            last.0 == k.0 && last.1 == k.1 && last.2 == k.2
        };
        if !repeated {
            proof {
                if i > 0 {
                    assert(key_le(wide(keys@[i - 1]), wide(keys@[i as int])));
                    assert(uniq@.last() != k);
                    assert(wide(uniq@.last()) != wide(k));
                }
            }
            uniq.push(k);
            proof {
                assert forall|a: int, b: int| 0 <= a < b < uniq@.len() implies key_lt(wide(#[trigger] uniq@[a]), wide(#[trigger] uniq@[b])) by {
                    if b == uniq@.len() - 1 && a < b - 1 {
                        assert(key_lt(wide(before[a]), wide(before.last())));
                    }
                }
            }
        }
        proof {
            let a = keys@.subrange(0, i as int);
            let b = keys@.subrange(0, i + 1);
            assert(b =~= a.push(k));
            assert(uniq@ == before || uniq@ == before.push(k));
            assert(uniq@.contains(k)) by {
                if uniq@ == before.push(k) {
                    assert(uniq@[before.len() as int] == k);
                } else {
                    assert(before.len() > 0 && before.last() == k);
                    assert(uniq@[before.len() - 1] == k);
                }
            }
            assert forall|k2: (i64, i64, i64)| uniq@.contains(k2) <==> b.contains(k2) by {
                if uniq@.contains(k2) {
                    if k2 == k {
                        assert(b[i as int] == k);
                    } else {
                        let j = choose|j: int| 0 <= j < uniq@.len() && uniq@[j] == k2;
                        assert(j < before.len());
                        assert(before[j] == k2);
                        assert(before.contains(k2));
                        assert(a.contains(k2));
                        let t = choose|t: int| 0 <= t < a.len() && a[t] == k2;
                        assert(b[t] == k2);
                    }
                }
                if b.contains(k2) {
                    let t = choose|t: int| 0 <= t < b.len() && b[t] == k2;
                    if t < i {
                        assert(a[t] == k2);
                        assert(a.contains(k2));
                        assert(before.contains(k2));
                        let j = choose|j: int| 0 <= j < before.len() && before[j] == k2;
                        assert(uniq@[j] == k2);
                    } else {
                        assert(k2 == k);
                    }
                }
            }
        }
        i += 1;
    }
    proof {
        assert(keys@.subrange(0, keys@.len() as int) =~= keys@);
    }
    // the points in processing order
    let ghost q = Seq::new(uniq@.len(), |j: int| choose|p: IVec3| wide(uniq@[j]) == sort_key(p, mode as int)
        && s.contains(p));
    proof {
        assert forall|j: int| 0 <= j < uniq@.len() implies wide(uniq@[j]) == sort_key(#[trigger] q[j], mode as int)
            && s.contains(q[j]) by {
            assert(uniq@.contains(uniq@[j]));
            assert(unsorted.contains(uniq@[j]));
            let t = choose|t: int| 0 <= t < unsorted.len() && unsorted[t] == uniq@[j];
            let p = updates@[t].0;
            assert(wide(uniq@[j]) == sort_key(p, mode as int));
            assert(s.contains(p));
        }
        assert forall|a: int, b: int| 0 <= a < b < q.len() implies update_before(#[trigger] q[a], #[trigger] q[b], mode as int) by {
            assert(key_lt(wide(uniq@[a]), wide(uniq@[b])));
        }
        assert forall|p: IVec3| q.contains(p) <==> #[trigger] s.contains(p) by {
            if s.contains(p) {
                let t = choose|t: int| 0 <= t < old(grid).updates().len() && (#[trigger] old(grid).updates()[t]).0 == p;
                assert(wide(unsorted[t]) == sort_key(p, mode as int));
                assert(unsorted.contains(unsorted[t]));
                assert(uniq@.contains(unsorted[t]));
                let j = choose|j: int| 0 <= j < uniq@.len() && uniq@[j] == unsorted[t];
                assert(sort_key(q[j], mode as int) == sort_key(p, mode as int));
                lemma_sort_key_injective(q[j], p, mode as int);
                assert(q[j] == p);
            }
        }
        assert(in_processing_order(q, s, mode as int));
    }
    let mut i: usize = 0;
    while i < uniq.len()
        invariant
            i <= uniq@.len(),
            mode < 4,
            mode == sim_tick.0 % 4,
            q.len() == uniq@.len(),
            forall|j: int| 0 <= j < uniq@.len() ==> wide(uniq@[j]) == sort_key(#[trigger] q[j], mode as int)
                && s.contains(q[j]),
            forall|p: IVec3| #[trigger] s.contains(p) ==> sim_range(p),
            grid.wf(),
            grid.model() == sim_all(m0, q.subrange(0, i as int), sim_tick.0),
        decreases uniq@.len() - i,
    {
        let ghost p = q[i as int];
        assert(wide(uniq@[i as int]) == sort_key(q[i as int], mode as int) && s.contains(q[i as int]));
        let point = point_of_key(uniq[i], mode, Ghost(p));
        simulate_point(grid, point, sim_tick);
        proof {
            assert(q.subrange(0, i + 1).drop_last() =~= q.subrange(0, i as int));
        }
        i += 1;
    }
    proof {
        assert(q.subrange(0, q.len() as int) =~= q);
        assert forall|q2: Seq<IVec3>| #[trigger] in_processing_order(q2, s, (sim_tick.0 % 4) as int) implies
            grid.model() == sim_all(m0, q2, sim_tick.0) by {
            lemma_processing_order_unique(q, q2, s, mode as int);
        }
    }
}

/// One falling-sands step: advance the tick, then step every world with it.
pub fn falling_sands(grids: &mut Vec<Voxels>, sim_tick: &mut FallingSandTick)
    requires
        old(sim_tick).0 < u32::MAX,
        forall|i: int| 0 <= i < old(grids)@.len() ==> (#[trigger] old(grids)@[i]).wf()
            && updates_in_range(old(grids)@[i].updates()),
    ensures
        final(sim_tick).0 == (old(sim_tick).0 + 1) % (u32::MAX / 2) as int,
        final(grids)@.len() == old(grids)@.len(),
        forall|i: int| 0 <= i < old(grids)@.len() ==> stepped(#[trigger] old(grids)@[i], final(grids)@[i], final(sim_tick).0),
{
    sim_tick.advance();
    let mut i: usize = 0;
    while i < grids.len()
        invariant
            i <= grids@.len(),
            grids@.len() == old(grids)@.len(),
            forall|j: int| i <= j < grids@.len() ==> #[trigger] grids@[j] == old(grids)@[j],
            forall|j: int| 0 <= j < old(grids)@.len() ==> (#[trigger] old(grids)@[j]).wf()
                && updates_in_range(old(grids)@[j].updates()),
            forall|j: int| 0 <= j < i ==> stepped(#[trigger] old(grids)@[j], grids@[j], sim_tick.0),
        decreases grids@.len() - i,
    {
        let mut grid = Voxels::new();
        grids.set_and_swap(i, &mut grid);
        assert(grid == old(grids)@[i as int]);
        falling_sands_grid(&mut grid, sim_tick);
        grids.set_and_swap(i, &mut grid);
        i += 1;
    }
}

} // verus!

verus! {

/// The falling-sands step is deterministic: from one world and tick, every
/// step reaches the same world.
pub proof fn lemma_step_deterministic(a: Voxels, b1: Voxels, b2: Voxels, tick: u32)
    requires
        stepped(a, b1, tick),
        stepped(a, b2, tick),
    ensures
        b1.model() == b2.model(),
{
    let q = choose|q: Seq<IVec3>| #[trigger] in_processing_order(q, update_set(a.updates()), (tick % 4) as int);
    assert(in_processing_order(q, update_set(a.updates()), (tick % 4) as int));
}

} // verus!

verus! {

/// Whether `m2` holds the voxels of `m` with those at `p` and `q` exchanged.
pub open spec fn exchanged(m: VoxelsModel, m2: VoxelsModel, p: IVec3, q: IVec3) -> bool {
    forall|r: IVec3|
        #[trigger] (m2.world)(r) == if r == p {
            (m.world)(q)
        } else if r == q {
            (m.world)(p)
        } else {
            (m.world)(r)
        }
}

/// Whether `m2` holds the same voxel as `m` at every point.
pub open spec fn same_world(m: VoxelsModel, m2: VoxelsModel) -> bool {
    forall|r: IVec3| #[trigger] (m2.world)(r) == (m.world)(r)
}

/// Whether a step at `p` from `m` to `m2` made and lost no voxel: it either
/// changed nothing or exchanged the voxel at `p` with the one at another
/// point.
pub open spec fn conserving_step(m: VoxelsModel, m2: VoxelsModel, p: IVec3) -> bool {
    same_world(m, m2) || exists|q: IVec3| q != p && #[trigger] exchanged(m, m2, p, q)
}

/// A point whose step reads and writes only points of the height band that
/// `set_voxel` writes.
pub open spec fn step_in_band(p: IVec3) -> bool {
    sim_range(p) && -49 <= p.y <= 250
}

/// Moving the voxel at `p` to `q` and the one at `q` to `p` exchanges them.
proof fn lemma_swap_exchanges(m: VoxelsModel, q: IVec3, p: IVec3)
    requires
        -50 <= q.y <= 250,
        -50 <= p.y <= 250,
        q != p,
    ensures
        exchanged(m, swap_into(m, q, at(m, p), p, at(m, q)), p, q),
{
}

/// Sand trying its fall targets from the `i`-th on makes and loses no
/// voxel.
proof fn lemma_semisolid_from_conserves(m: VoxelsModel, p: IVec3, i: int)
    requires
        step_in_band(p),
        at(m, p) == Voxel::Sand,
        0 <= i,
    ensures
        conserving_step(m, model_semisolid_from(m, p, i), p),
    decreases 5 - i,
{
    if i >= 5 {
    } else {
        let o = semisolid_offset(i);
        let q = shifted(p, o.0, o.1, o.2);
        let v = at(m, q);
        if v.spec_is_liquid() || v.spec_is_gas() {
            assert(q != p);
            lemma_swap_exchanges(m, q, p);
        } else {
            lemma_semisolid_from_conserves(m, p, i + 1);
        }
    }
}

/// Liquid trying its flow targets from the `j`-th on makes and loses no
/// voxel.
proof fn lemma_liquid_from_conserves(m: VoxelsModel, p: IVec3, sim: Voxel, start: int, j: int)
    requires
        step_in_band(p),
        at(m, p) == sim,
        0 <= j,
    ensures
        conserving_step(m, model_liquid_from(m, p, sim, start, j), p),
    decreases 8 - j,
{
    if j >= 8 {
    } else {
        let o = liquid_offset((start + j) % 8);
        let q = shifted(p, o.0, o.1, o.2);
        let v = at(m, q);
        if liquid_displaces(sim, v) {
            assert(q != p);
            lemma_swap_exchanges(m, q, p);
        } else {
            lemma_liquid_from_conserves(m, p, sim, start, j + 1);
        }
    }
}

/// One simulation step at a point of the band makes and loses no voxel: it
/// leaves the world as it was, or exchanges the voxel at `p` with the voxel
/// at one other point.
pub proof fn lemma_sim_point_conserves(m: VoxelsModel, p: IVec3, tick: u32)
    requires
        step_in_band(p),
    ensures
        conserving_step(m, sim_point(m, p, tick), p),
{
    let v = at(m, p);
    if v == Voxel::Sand {
        lemma_semisolid_from_conserves(m, p, 0);
    } else if v == Voxel::Water || v == Voxel::Oil {
        let below = shifted(p, 0, -1, 0);
        let bv = at(m, below);
        if liquid_displaces(v, bv) {
            lemma_swap_exchanges(m, below, p);
        } else {
            lemma_liquid_from_conserves(m, p, v, (tick % 8) as int, 0);
        }
    } else if v == Voxel::Dirt {
        let below = shifted(p, 0, -1, 0);
        let bv = at(m, below);
        if bv == Voxel::Air && has_support(m, p) {
            lemma_swap_exchanges(m, below, p);
        }
    }
}

} // verus!

verus! {

/// Whether some point is mapped to `b` by `f`.
pub open spec fn reaches(f: spec_fn(IVec3) -> IVec3, b: IVec3) -> bool {
    exists|a: IVec3| #[trigger] f(a) == b
}

/// Whether `f` maps the lattice one to one onto itself.
pub open spec fn is_bijection(f: spec_fn(IVec3) -> IVec3) -> bool {
    &&& forall|a: IVec3, b: IVec3| #[trigger] f(a) == #[trigger] f(b) ==> a == b
    &&& forall|b: IVec3| #[trigger] reaches(f, b)
}

/// Whether `m2` holds the voxels of `m`, moved about by a bijection of the
/// lattice: no voxel made, none lost.
pub open spec fn rearranged(m: VoxelsModel, m2: VoxelsModel) -> bool {
    exists|f: spec_fn(IVec3) -> IVec3|
        is_bijection(f) && forall|r: IVec3| #[trigger] (m2.world)(r) == (m.world)(f(r))
}

/// The exchange of `p` and `q`.
spec fn transposition(p: IVec3, q: IVec3) -> spec_fn(IVec3) -> IVec3 {
    |r: IVec3| if r == p { q } else if r == q { p } else { r }
}

/// A rearrangement followed by a conserving step is a rearrangement.
proof fn lemma_rearranged_step(m: VoxelsModel, m1: VoxelsModel, m2: VoxelsModel, p: IVec3)
    requires
        rearranged(m, m1),
        conserving_step(m1, m2, p),
    ensures
        rearranged(m, m2),
{
    let f = choose|f: spec_fn(IVec3) -> IVec3|
        is_bijection(f) && forall|r: IVec3| #[trigger] (m1.world)(r) == (m.world)(f(r));
    if same_world(m1, m2) {
        assert forall|r: IVec3| #[trigger] (m2.world)(r) == (m.world)(f(r)) by {
            assert((m2.world)(r) == (m1.world)(r));
        }
    } else {
        let q = choose|q: IVec3| q != p && #[trigger] exchanged(m1, m2, p, q);
        let t = transposition(p, q);
        let g = |r: IVec3| f(t(r));
        assert forall|a: IVec3, b: IVec3| #[trigger] g(a) == #[trigger] g(b) implies a == b by {
            assert(f(t(a)) == f(t(b)));
            assert(t(a) == t(b));
        }
        assert forall|b: IVec3| #[trigger] reaches(g, b) by {
            assert(reaches(f, b));
            let a0 = choose|a: IVec3| #[trigger] f(a) == b;
            assert(t(t(a0)) == a0);
            assert(g(t(a0)) == b);
        }
        assert forall|r: IVec3| #[trigger] (m2.world)(r) == (m.world)(g(r)) by {
            assert((m2.world)(r) == (m1.world)(t(r)));
            assert((m1.world)(t(r)) == (m.world)(f(t(r))));
        }
        assert(is_bijection(g));
    }
}

/// Simulating each point of a queue in the band, in order, moves the voxels
/// about without making or losing any.
pub proof fn lemma_sim_all_rearranges(m: VoxelsModel, q: Seq<IVec3>, tick: u32)
    requires
        forall|i: int| 0 <= i < q.len() ==> step_in_band(#[trigger] q[i]),
    ensures
        rearranged(m, sim_all(m, q, tick)),
    decreases q.len(),
{
    if q.len() == 0 {
        let id = |r: IVec3| r;
        assert(is_bijection(id)) by {
            assert forall|b: IVec3| #[trigger] reaches(id, b) by {
                assert(id(b) == b);
            }
        }
        assert(forall|r: IVec3| #[trigger] (m.world)(r) == (m.world)(id(r)));
    } else {
        let rest = q.drop_last();
        assert forall|i: int| 0 <= i < rest.len() implies step_in_band(#[trigger] rest[i]) by {
            assert(rest[i] == q[i]);
        }
        lemma_sim_all_rearranges(m, rest, tick);
        let m1 = sim_all(m, rest, tick);
        assert(step_in_band(q[q.len() - 1]));
        lemma_sim_point_conserves(m1, q.last(), tick);
        lemma_rearranged_step(m, m1, sim_all(m, q, tick), q.last());
    }
}

/// A falling-sands step whose queued points all lie in the band moves the
/// voxels of the world about without making or losing any: the world after
/// is the world before under a bijection of the lattice.
pub proof fn lemma_step_rearranges(a: Voxels, b: Voxels, tick: u32)
    requires
        stepped(a, b, tick),
        forall|p: IVec3| #[trigger] update_set(a.updates()).contains(p) ==> step_in_band(p),
    ensures
        rearranged(a.model(), b.model()),
{
    let s = update_set(a.updates());
    let q = choose|q: Seq<IVec3>| #[trigger] in_processing_order(q, s, (tick % 4) as int);
    assert(in_processing_order(q, s, (tick % 4) as int));
    assert forall|i: int| 0 <= i < q.len() implies step_in_band(#[trigger] q[i]) by {
        assert(q.contains(q[i]));
        assert(s.contains(q[i]));
    }
    lemma_sim_all_rearranges(cleared(a.model()), q, tick);
    let f = choose|f: spec_fn(IVec3) -> IVec3|
        is_bijection(f) && forall|r: IVec3|
            #[trigger] (sim_all(cleared(a.model()), q, tick).world)(r) == (cleared(a.model()).world)(f(r));
    assert(b.model() == sim_all(cleared(a.model()), q, tick));
    assert forall|r: IVec3| #[trigger] (b.model().world)(r) == (a.model().world)(f(r)) by {
        assert((cleared(a.model()).world)(f(r)) == (a.model().world)(f(r)));
    }
}

} // verus!

verus! {

/// Whether `m2` is `m` with `v` put at `q` and what `q` held put at `p`.
pub open spec fn moved_into(m: VoxelsModel, m2: VoxelsModel, p: IVec3, q: IVec3, v: Voxel) -> bool {
    &&& (m2.world)(q) == v
    &&& (m2.world)(p) == (m.world)(q)
    &&& forall|r: IVec3| r != p && r != q ==> #[trigger] (m2.world)(r) == (m.world)(r)
}

/// Whether sand sinks into a voxel: air, water or oil.
pub open spec fn sand_sinks_into(v: Voxel) -> bool {
    v == Voxel::Air || v == Voxel::Water || v == Voxel::Oil
}

/// Whether liquid `sim` flows into a voxel: air, and oil for water, which
/// is the heavier.
pub open spec fn liquid_flows_into(sim: Voxel, v: Voxel) -> bool {
    v == Voxel::Air || (sim == Voxel::Water && v == Voxel::Oil)
}

/// Whether a voxel holds up a dirt voxel beside or below it: anything but
/// air, water and oil.
pub open spec fn holds_up_dirt(v: Voxel) -> bool {
    !(v == Voxel::Air || v == Voxel::Water || v == Voxel::Oil)
}

/// Where sand at `p` tries to go, in order: straight down, then the
/// diagonals below towards +x, +z, -x and -z.
pub open spec fn sand_targets(p: IVec3) -> Seq<IVec3> {
    seq![shifted(p, 0, -1, 0), shifted(p, 1, -1, 0), shifted(p, 0, -1, 1), shifted(p, -1, -1, 0), shifted(p, 0, -1, -1)]
}

/// Where a liquid at `p` tries to go after straight down, in the cycle it
/// starts at the tick's place in: the diagonals below towards -x, +x, -z
/// and +z, then the sides -x, +x, -z and +z.
pub open spec fn liquid_cycle(p: IVec3) -> Seq<IVec3> {
    seq![
        shifted(p, -1, -1, 0),
        shifted(p, 1, -1, 0),
        shifted(p, 0, -1, -1),
        shifted(p, 0, -1, 1),
        shifted(p, -1, 0, 0),
        shifted(p, 1, 0, 0),
        shifted(p, 0, 0, -1),
        shifted(p, 0, 0, 1),
    ]
}

/// Putting `v` at `q` and what `q` held at `p` moves it there.
proof fn lemma_swap_moves(m: VoxelsModel, q: IVec3, v: Voxel, p: IVec3)
    requires
        -50 <= q.y <= 250,
        -50 <= p.y <= 250,
        q != p,
    ensures
        moved_into(m, swap_into(m, q, v, p, at(m, q)), p, q, v),
{
}

proof fn lemma_sand_from(m: VoxelsModel, p: IVec3, i: int)
    requires
        step_in_band(p),
        0 <= i <= 5,
        forall|j: int| 0 <= j < i ==> !sand_sinks_into(at(m, #[trigger] sand_targets(p)[j])),
    ensures
        model_semisolid(m, p) == model_semisolid_from(m, p, i),
    decreases i,
{
    if i > 0 {
        lemma_sand_from(m, p, i - 1);
        let o = semisolid_offset(i - 1);
        assert(shifted(p, o.0, o.1, o.2) == sand_targets(p)[i - 1]);
        assert(!sand_sinks_into(at(m, sand_targets(p)[i - 1])));
    }
}

/// Sand at a point of the band goes to the first of its targets (straight
/// down, then the four diagonals below) that holds air, water or oil, and
/// what was there takes its place; when none does, nothing moves.
pub proof fn lemma_sand_rule(m: VoxelsModel, p: IVec3)
    requires
        step_in_band(p),
    ensures
        forall|i: int| 0 <= i < 5 && sand_sinks_into(at(m, #[trigger] sand_targets(p)[i])) && (forall|j: int|
            0 <= j < i ==> !sand_sinks_into(at(m, #[trigger] sand_targets(p)[j]))) ==> moved_into(
            m,
            model_semisolid(m, p),
            p,
            sand_targets(p)[i],
            Voxel::Sand,
        ),
        (forall|j: int| 0 <= j < 5 ==> !sand_sinks_into(at(m, #[trigger] sand_targets(p)[j]))) ==> same_world(
            m,
            model_semisolid(m, p),
        ),
{
    assert forall|i: int| 0 <= i < 5 && sand_sinks_into(at(m, #[trigger] sand_targets(p)[i])) && (forall|j: int|
        0 <= j < i ==> !sand_sinks_into(at(m, #[trigger] sand_targets(p)[j]))) implies moved_into(
        m,
        model_semisolid(m, p),
        p,
        sand_targets(p)[i],
        Voxel::Sand,
    ) by {
        lemma_sand_from(m, p, i);
        let o = semisolid_offset(i);
        let q = sand_targets(p)[i];
        assert(shifted(p, o.0, o.1, o.2) == q);
        let v = at(m, q);
        assert(v.spec_is_liquid() || v.spec_is_gas());
        assert(q != p);
        lemma_swap_moves(m, q, Voxel::Sand, p);
    }
    if forall|j: int| 0 <= j < 5 ==> !sand_sinks_into(at(m, #[trigger] sand_targets(p)[j])) {
        lemma_sand_from(m, p, 5);
    }
}

proof fn lemma_liquid_from(m: VoxelsModel, p: IVec3, sim: Voxel, s: int, i: int)
    requires
        step_in_band(p),
        sim == Voxel::Water || sim == Voxel::Oil,
        0 <= s < 8,
        0 <= i <= 8,
        forall|j: int| 0 <= j < i ==> !liquid_flows_into(sim, at(m, #[trigger] liquid_cycle(p)[(s + j) % 8])),
    ensures
        model_liquid_from(m, p, sim, s, 0) == model_liquid_from(m, p, sim, s, i),
    decreases i,
{
    if i > 0 {
        lemma_liquid_from(m, p, sim, s, i - 1);
        let o = liquid_offset((s + i - 1) % 8);
        assert(shifted(p, o.0, o.1, o.2) == liquid_cycle(p)[(s + (i - 1)) % 8]);
        assert(!liquid_flows_into(sim, at(m, liquid_cycle(p)[(s + (i - 1)) % 8])));
    }
}

/// Water or oil at a point of the band goes straight down into air, or,
/// for water, into oil; otherwise it goes to the first place of its cycle,
/// starting at the tick's place in it, that it flows into; what was there
/// takes its place. When it flows into none, nothing moves.
pub proof fn lemma_liquid_rule(m: VoxelsModel, p: IVec3, sim: Voxel, tick: u32)
    requires
        step_in_band(p),
        sim == Voxel::Water || sim == Voxel::Oil,
    ensures
        liquid_flows_into(sim, at(m, shifted(p, 0, -1, 0))) ==> moved_into(
            m,
            model_liquid(m, p, sim, tick),
            p,
            shifted(p, 0, -1, 0),
            sim,
        ),
        forall|i: int| 0 <= i < 8 && !liquid_flows_into(sim, at(m, shifted(p, 0, -1, 0))) && liquid_flows_into(
            sim,
            at(m, #[trigger] liquid_cycle(p)[(tick % 8 + i) % 8]),
        ) && (forall|j: int| 0 <= j < i ==> !liquid_flows_into(sim, at(m, #[trigger] liquid_cycle(p)[(tick % 8 + j) % 8])))
            ==> moved_into(m, model_liquid(m, p, sim, tick), p, liquid_cycle(p)[(tick % 8 + i) % 8], sim),
        !liquid_flows_into(sim, at(m, shifted(p, 0, -1, 0))) && (forall|j: int| 0 <= j < 8 ==> !liquid_flows_into(
            sim,
            at(m, #[trigger] liquid_cycle(p)[j]),
        )) ==> same_world(m, model_liquid(m, p, sim, tick)),
{
    let below = shifted(p, 0, -1, 0);
    let s = (tick % 8) as int;
    if liquid_flows_into(sim, at(m, below)) {
        assert(liquid_displaces(sim, at(m, below)));
        lemma_swap_moves(m, below, sim, p);
    } else {
        assert(!liquid_displaces(sim, at(m, below)));
        assert forall|i: int| 0 <= i < 8 && liquid_flows_into(sim, at(m, #[trigger] liquid_cycle(p)[(tick % 8 + i) % 8]))
            && (forall|j: int| 0 <= j < i ==> !liquid_flows_into(sim, at(m, #[trigger] liquid_cycle(p)[(tick % 8 + j) % 8])))
            implies moved_into(m, model_liquid(m, p, sim, tick), p, liquid_cycle(p)[(tick % 8 + i) % 8], sim) by {
            lemma_liquid_from(m, p, sim, s, i);
            let q = liquid_cycle(p)[(s + i) % 8];
            let o = liquid_offset((s + i) % 8);
            assert(shifted(p, o.0, o.1, o.2) == q);
            assert(liquid_displaces(sim, at(m, q)));
            assert(q != p);
            lemma_swap_moves(m, q, sim, p);
        }
        if forall|j: int| 0 <= j < 8 ==> !liquid_flows_into(sim, at(m, #[trigger] liquid_cycle(p)[j])) {
            assert forall|j: int| 0 <= j < 8 implies !liquid_flows_into(sim, at(m, #[trigger] liquid_cycle(p)[(s + j) % 8])) by {
                assert(0 <= (s + j) % 8 < 8);
            }
            lemma_liquid_from(m, p, sim, s, 8);
        }
    }
}

/// Dirt at a point of the band falls into air straight below it when a
/// neighbour beside it or above it holds it up (anything but air, water
/// and oil), and the air takes its place; with anything else below it, or
/// with nothing holding it, nothing moves.
pub proof fn lemma_dirt_rule(m: VoxelsModel, p: IVec3)
    requires
        step_in_band(p),
    ensures
        at(m, shifted(p, 0, -1, 0)) == Voxel::Air && (holds_up_dirt(at(m, shifted(p, -1, 0, 0))) || holds_up_dirt(
            at(m, shifted(p, 1, 0, 0)),
        ) || holds_up_dirt(at(m, shifted(p, 0, 0, -1))) || holds_up_dirt(at(m, shifted(p, 0, 0, 1)))
            || holds_up_dirt(at(m, shifted(p, 0, 1, 0)))) ==> moved_into(
            m,
            model_structured(m, p),
            p,
            shifted(p, 0, -1, 0),
            Voxel::Dirt,
        ),
        at(m, shifted(p, 0, -1, 0)) != Voxel::Air ==> same_world(m, model_structured(m, p)),
        !(holds_up_dirt(at(m, shifted(p, -1, 0, 0))) || holds_up_dirt(at(m, shifted(p, 1, 0, 0))) || holds_up_dirt(
            at(m, shifted(p, 0, 0, -1)),
        ) || holds_up_dirt(at(m, shifted(p, 0, 0, 1))) || holds_up_dirt(at(m, shifted(p, 0, 1, 0)))) ==> same_world(
            m,
            model_structured(m, p),
        ),
{
    let below = shifted(p, 0, -1, 0);
    if at(m, below) == Voxel::Air && has_support(m, p) {
        lemma_swap_moves(m, below, Voxel::Dirt, p);
    }
}

/// What a simulation step does at a point depends on the kind there: sand,
/// water, oil and dirt follow their rules, every other kind stays put.
pub proof fn lemma_sim_point_kinds(m: VoxelsModel, p: IVec3, tick: u32)
    ensures
        at(m, p) == Voxel::Sand ==> sim_point(m, p, tick) == model_semisolid(m, p),
        (at(m, p) == Voxel::Water || at(m, p) == Voxel::Oil) ==> sim_point(m, p, tick) == model_liquid(
            m,
            p,
            at(m, p),
            tick,
        ),
        at(m, p) == Voxel::Dirt ==> sim_point(m, p, tick) == model_structured(m, p),
        !(at(m, p) == Voxel::Sand || at(m, p) == Voxel::Water || at(m, p) == Voxel::Oil || at(m, p) == Voxel::Dirt)
            ==> sim_point(m, p, tick) == m,
{
}

} // verus!

verus! {

/// The update order of each tick: lower points always first; within a
/// level, tick mode 0 takes z then x downwards, mode 1 x then z downwards,
/// mode 2 x then z upwards and mode 3 z then x upwards. Any two different
/// points are ordered one way round, and no point comes before itself.
pub proof fn lemma_update_order(a: IVec3, b: IVec3, mode: int)
    requires
        0 <= mode < 4,
    ensures
        a.y < b.y ==> update_before(a, b, mode),
        !update_before(a, a, mode),
        a != b ==> (update_before(a, b, mode) <==> !update_before(b, a, mode)),
        a.y == b.y && mode == 0 ==> (a.z > b.z ==> update_before(a, b, mode)) && (a.z == b.z && a.x > b.x
            ==> update_before(a, b, mode)),
        a.y == b.y && mode == 1 ==> (a.x > b.x ==> update_before(a, b, mode)) && (a.x == b.x && a.z > b.z
            ==> update_before(a, b, mode)),
        a.y == b.y && mode == 2 ==> (a.x < b.x ==> update_before(a, b, mode)) && (a.x == b.x && a.z < b.z
            ==> update_before(a, b, mode)),
        a.y == b.y && mode == 3 ==> (a.z < b.z ==> update_before(a, b, mode)) && (a.z == b.z && a.x < b.x
            ==> update_before(a, b, mode)),
{
    if a != b {
        if sort_key(a, mode) == sort_key(b, mode) {
            lemma_sort_key_injective(a, b, mode);
        }
    }
}

} // verus!
