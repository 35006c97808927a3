//! Voxel kinds and the table of their properties.

use vstd::prelude::*;

verus! {

/// Every kind of voxel in the world. The order is the id order.
#[derive(Hash, PartialEq, Eq, Structural, PartialOrd, Ord, Debug, Copy, Clone)]
pub enum Voxel {
    /// Special case "nothing".
    Air,
    // unbreakable
    Base,
    Barrier,
    // solids
    Dirt,
    Grass,
    Stone,
    // semi-solids (falling sand)
    Sand,
    // liquids
    Water,
    Oil,
}

/// How a voxel takes part in the falling-sands cellular automaton.
#[derive(Debug, Copy, Clone, PartialEq, Eq, Structural, PartialOrd, Ord, Hash)]
pub enum SimKind {
    /// No simulation.
    Solid,
    SemiSolid,
    Liquid,
    Gas,
}

/// The properties of one voxel kind.
#[derive(Debug, Copy, Clone, PartialEq, Eq, PartialOrd, Ord, Hash)]
pub struct VoxelDefinition {
    pub voxel: Voxel,
    pub name: &'static str,
    /// How does this interact with the falling sands sim (cellular automaton)?
    pub simulation_kind: SimKind,
    /// Should we simulate this voxel?
    pub simulated: bool,
    /// Can we generally collide with this voxel?
    pub collidable: bool,
    /// Should this voxel be rendered?
    pub rendered: bool,
    /// Is this transparent? (should the rendering consider this non-filling)
    pub transparent: bool,
    /// Should raycasts pick this?
    pub pickable: bool,
    /// Can we break this?
    pub breakable: bool,
    /// Initial health of the voxel.
    pub initial_health: i16,
    /// "Density" of voxel, only really important for liquids/gases.
    pub density: i8,
}

/// Number of voxel kinds.
pub open spec fn spec_type_count() -> nat {
    9
}

/// The voxel with a given id, where the id is in range.
pub open spec fn spec_from_id(id: int) -> Option<Voxel> {
    if id == 0 {
        Some(Voxel::Air)
    } else if id == 1 {
        Some(Voxel::Base)
    } else if id == 2 {
        Some(Voxel::Barrier)
    } else if id == 3 {
        Some(Voxel::Dirt)
    } else if id == 4 {
        Some(Voxel::Grass)
    } else if id == 5 {
        Some(Voxel::Stone)
    } else if id == 6 {
        Some(Voxel::Sand)
    } else if id == 7 {
        Some(Voxel::Water)
    } else if id == 8 {
        Some(Voxel::Oil)
    } else {
        None
    }
}

/// All voxel kinds in id order.
pub open spec fn spec_all_voxels() -> Seq<Voxel> {
    seq![
        Voxel::Air,
        Voxel::Base,
        Voxel::Barrier,
        Voxel::Dirt,
        Voxel::Grass,
        Voxel::Stone,
        Voxel::Sand,
        Voxel::Water,
        Voxel::Oil,
    ]
}

impl Voxel {
    /// The id of this voxel: its position in the definition table.
    pub open spec fn spec_id(self) -> u16 {
        match self {
            Voxel::Air => 0,
            Voxel::Base => 1,
            Voxel::Barrier => 2,
            Voxel::Dirt => 3,
            Voxel::Grass => 4,
            Voxel::Stone => 5,
            Voxel::Sand => 6,
            Voxel::Water => 7,
            Voxel::Oil => 8,
        }
    }

    pub open spec fn spec_simulation_kind(self) -> SimKind {
        match self {
            Voxel::Air => SimKind::Gas,
            Voxel::Base | Voxel::Barrier | Voxel::Dirt | Voxel::Grass | Voxel::Stone => SimKind::Solid,
            Voxel::Sand => SimKind::SemiSolid,
            Voxel::Water | Voxel::Oil => SimKind::Liquid,
        }
    }

    pub open spec fn spec_simulated(self) -> bool {
        match self {
            Voxel::Dirt | Voxel::Sand | Voxel::Water | Voxel::Oil => true,
            _ => false,
        }
    }

    pub open spec fn spec_collidable(self) -> bool {
        match self {
            Voxel::Air | Voxel::Water | Voxel::Oil => false,
            _ => true,
        }
    }

    pub open spec fn spec_rendered(self) -> bool {
        match self {
            Voxel::Air | Voxel::Barrier => false,
            _ => true,
        }
    }

    pub open spec fn spec_transparent(self) -> bool {
        match self {
            Voxel::Air | Voxel::Barrier | Voxel::Water | Voxel::Oil => true,
            _ => false,
        }
    }

    pub open spec fn spec_pickable(self) -> bool {
        match self {
            Voxel::Base | Voxel::Dirt | Voxel::Grass | Voxel::Stone | Voxel::Sand => true,
            _ => false,
        }
    }

    pub open spec fn spec_breakable(self) -> bool {
        match self {
            Voxel::Air | Voxel::Base | Voxel::Barrier => false,
            _ => true,
        }
    }

    pub open spec fn spec_initial_health(self) -> i16 {
        match self {
            Voxel::Air | Voxel::Base | Voxel::Barrier => 0,
            Voxel::Stone => 100,
            _ => 10,
        }
    }

    pub open spec fn spec_density(self) -> i8 {
        match self {
            Voxel::Water => 40,
            Voxel::Oil => 10,
            _ => 0,
        }
    }

    pub open spec fn spec_is_liquid(self) -> bool {
        self.spec_simulation_kind() == SimKind::Liquid
    }

    pub open spec fn spec_is_gas(self) -> bool {
        self.spec_simulation_kind() == SimKind::Gas
    }

    /// All voxel kinds, in id order.
    pub fn iter() -> (r: Vec<Voxel>)
        ensures
            r@ == spec_all_voxels(),
    {
        let r = vec![
            Voxel::Air,
            Voxel::Base,
            Voxel::Barrier,
            Voxel::Dirt,
            Voxel::Grass,
            Voxel::Stone,
            Voxel::Sand,
            Voxel::Water,
            Voxel::Oil,
        ];
        assert(r@ =~= spec_all_voxels());
        r
    }

    /// Number of voxel kinds.
    pub fn type_count() -> (r: usize)
        ensures
            r == spec_type_count(),
    {
        9
    }

    pub fn id(self) -> (r: u16)
        ensures
            r == self.spec_id(),
            r < spec_type_count(),
    {
        match self {
            Voxel::Air => 0,
            Voxel::Base => 1,
            Voxel::Barrier => 2,
            Voxel::Dirt => 3,
            Voxel::Grass => 4,
            Voxel::Stone => 5,
            Voxel::Sand => 6,
            Voxel::Water => 7,
            Voxel::Oil => 8,
        }
    }

    /// The voxel whose id is `id`, or `None` when no voxel has that id.
    pub fn from_id(id: u16) -> (r: Option<Voxel>)
        ensures
            r == spec_from_id(id as int),
            r is Some <==> id < spec_type_count(),
            r matches Some(v) ==> v.spec_id() == id,
    {
        match id {
            0 => Some(Voxel::Air),
            1 => Some(Voxel::Base),
            2 => Some(Voxel::Barrier),
            3 => Some(Voxel::Dirt),
            4 => Some(Voxel::Grass),
            5 => Some(Voxel::Stone),
            6 => Some(Voxel::Sand),
            7 => Some(Voxel::Water),
            8 => Some(Voxel::Oil),
            _ => None,
        }
    }

    pub fn starting_health(&self) -> (r: i16)
        ensures
            r == self.spec_initial_health(),
    {
        self.definition().initial_health
    }

    pub fn rendered(self) -> (r: bool)
        ensures
            r == self.spec_rendered(),
    {
        self.definition().rendered
    }

    /// Is this block see-through (rendering)?
    pub fn transparent(self) -> (r: bool)
        ensures
            r == self.spec_transparent(),
    {
        self.definition().transparent
    }

    pub fn pickable(self) -> (r: bool)
        ensures
            r == self.spec_pickable(),
    {
        self.definition().pickable
    }

    pub fn breakable(self) -> (r: bool)
        ensures
            r == self.spec_breakable(),
    {
        self.definition().breakable
    }

    pub fn collidable(self) -> (r: bool)
        ensures
            r == self.spec_collidable(),
    {
        self.definition().collidable
    }

    pub fn is_liquid(self) -> (r: bool)
        ensures
            r == self.spec_is_liquid(),
    {
        match self.definition().simulation_kind {
            SimKind::Liquid => true,
            _ => false,
        }
    }

    pub fn density(self) -> (r: i8)
        ensures
            r == self.spec_density(),
    {
        self.definition().density
    }

    /// Whether this voxel is strictly denser than `other`.
    pub fn denser(self, other: Self) -> (r: bool)
        ensures
            r == (self.spec_density() > other.spec_density()),
    {
        self.density() > other.density()
    }

    pub fn is_gas(self) -> (r: bool)
        ensures
            r == self.spec_is_gas(),
    {
        match self.definition().simulation_kind {
            SimKind::Gas => true,
            _ => false,
        }
    }

    /// Whether the falling-sands step moves this voxel.
    pub fn is_simulated(self) -> (r: bool)
        ensures
            r == (self == Voxel::Sand || self == Voxel::Dirt || self == Voxel::Water
                || self == Voxel::Oil),
    {
        match self {
            Voxel::Sand | Voxel::Dirt | Voxel::Water | Voxel::Oil => true,
            _ => false,
        }
    }

    /// The definition table entry of this voxel.
    pub fn definition(self) -> (d: VoxelDefinition)
        ensures
            d.voxel == self,
            d.name@ == self.spec_name(),
            d.simulation_kind == self.spec_simulation_kind(),
            d.simulated == self.spec_simulated(),
            d.collidable == self.spec_collidable(),
            d.rendered == self.spec_rendered(),
            d.transparent == self.spec_transparent(),
            d.pickable == self.spec_pickable(),
            d.breakable == self.spec_breakable(),
            d.initial_health == self.spec_initial_health(),
            d.density == self.spec_density(),
    {
        proof {
            reveal_strlit("air");
            reveal_strlit("base");
            reveal_strlit("barrier");
            reveal_strlit("dirt");
            reveal_strlit("grass");
            reveal_strlit("stone");
            reveal_strlit("sand");
            reveal_strlit("water");
            reveal_strlit("oil");
        }
        match self {
            Voxel::Air => VoxelDefinition {
                voxel: Voxel::Air,
                name: "air",
                simulation_kind: SimKind::Gas,
                simulated: false,
                collidable: false,
                rendered: false,
                transparent: true,
                pickable: false,
                breakable: false,
                initial_health: 0,
                density: 0,
            },
            Voxel::Base => VoxelDefinition {
                voxel: Voxel::Base,
                name: "base",
                simulation_kind: SimKind::Solid,
                simulated: false,
                collidable: true,
                rendered: true,
                transparent: false,
                pickable: true,
                breakable: false,
                initial_health: 0,
                density: 0,
            },
            Voxel::Barrier => VoxelDefinition {
                voxel: Voxel::Barrier,
                name: "barrier",
                simulation_kind: SimKind::Solid,
                simulated: false,
                collidable: true,
                rendered: false,
                transparent: true,
                pickable: false,
                breakable: false,
                initial_health: 0,
                density: 0,
            },
            Voxel::Dirt => VoxelDefinition {
                voxel: Voxel::Dirt,
                name: "dirt",
                simulation_kind: SimKind::Solid,
                simulated: true,
                collidable: true,
                rendered: true,
                transparent: false,
                pickable: true,
                breakable: true,
                initial_health: 10,
                density: 0,
            },
            Voxel::Grass => VoxelDefinition {
                voxel: Voxel::Grass,
                name: "grass",
                simulation_kind: SimKind::Solid,
                simulated: false,
                collidable: true,
                rendered: true,
                transparent: false,
                pickable: true,
                breakable: true,
                initial_health: 10,
                density: 0,
            },
            Voxel::Stone => VoxelDefinition {
                voxel: Voxel::Stone,
                name: "stone",
                simulation_kind: SimKind::Solid,
                simulated: false,
                collidable: true,
                rendered: true,
                transparent: false,
                pickable: true,
                breakable: true,
                initial_health: 100,
                density: 0,
            },
            Voxel::Sand => VoxelDefinition {
                voxel: Voxel::Sand,
                name: "sand",
                simulation_kind: SimKind::SemiSolid,
                simulated: true,
                collidable: true,
                rendered: true,
                transparent: false,
                pickable: true,
                breakable: true,
                initial_health: 10,
                density: 0,
            },
            Voxel::Water => VoxelDefinition {
                voxel: Voxel::Water,
                name: "water",
                simulation_kind: SimKind::Liquid,
                simulated: true,
                collidable: false,
                rendered: true,
                transparent: true,
                pickable: false,
                breakable: true,
                initial_health: 10,
                density: 40,
            },
            Voxel::Oil => VoxelDefinition {
                voxel: Voxel::Oil,
                name: "oil",
                simulation_kind: SimKind::Liquid,
                simulated: true,
                collidable: false,
                rendered: true,
                transparent: true,
                pickable: false,
                breakable: true,
                initial_health: 10,
                density: 10,
            },
        }
    }
}

/// Every voxel's id leads back to it, and ids stay below the kind count.
pub proof fn lemma_id_round_trip(v: Voxel)
    ensures
        spec_from_id(v.spec_id() as int) == Some(v),
        v.spec_id() < spec_type_count(),
        spec_all_voxels()[v.spec_id() as int] == v,
{
}

/// Distinct voxels have distinct ids.
pub proof fn lemma_id_injective(a: Voxel, b: Voxel)
    ensures
        a.spec_id() == b.spec_id() ==> a == b,
{
}


impl Voxel {
    /// The name of this voxel: its kind in lower case.
    pub open spec fn spec_name(self) -> Seq<char> {
        match self {
            Voxel::Air => seq!['a', 'i', 'r'],
            Voxel::Base => seq!['b', 'a', 's', 'e'],
            Voxel::Barrier => seq!['b', 'a', 'r', 'r', 'i', 'e', 'r'],
            Voxel::Dirt => seq!['d', 'i', 'r', 't'],
            Voxel::Grass => seq!['g', 'r', 'a', 's', 's'],
            Voxel::Stone => seq!['s', 't', 'o', 'n', 'e'],
            Voxel::Sand => seq!['s', 'a', 'n', 'd'],
            Voxel::Water => seq!['w', 'a', 't', 'e', 'r'],
            Voxel::Oil => seq!['o', 'i', 'l'],
        }
    }

    pub fn as_name(&self) -> (r: &'static str)
        ensures
            r@ == self.spec_name(),
    {
        self.definition().name
    }

    /// The voxel named `name`, ignoring ASCII case and surrounding
    /// whitespace.
    pub fn from_name(name: &str) -> (r: Option<Self>)
        ensures
            r == spec_from_name(name@),
    {
        let n = name.unicode_len();
        let mut lower: Vec<char> = Vec::new();
        let mut i: usize = 0;
        while i < n
            invariant
                i <= n,
                n == name@.len(),
                lower@ == name@.subrange(0, i as int).map_values(|c: char| ascii_lower(c)),
            decreases n - i,
        {
            let c = name.get_char(i);
            lower.push(to_ascii_lower(c));
            i += 1;
            assert(lower@ =~= name@.subrange(0, i as int).map_values(|c: char| ascii_lower(c)));
        }
        assert(name@.subrange(0, n as int) =~= name@);
        let ghost low = lower@;
        let mut start: usize = 0;
        while start < n && is_white_space(lower[start])
            invariant
                start <= n,
                n == low.len(),
                lower@ == low,
                trim_start_from(low, 0) == trim_start_from(low, start as int),
            decreases n - start,
        {
            start += 1;
        }
        let mut end: usize = n;
        while end > start && is_white_space(lower[end - 1])
            invariant
                start <= end <= n,
                n == low.len(),
                lower@ == low,
                start == trim_start_from(low, 0),
                trim_end_from(low, start as int, n as int) == trim_end_from(low, start as int, end as int),
            decreases end,
        {
            end -= 1;
        }
        assert(low.subrange(start as int, end as int) == normalized(name@));
        let all = Voxel::iter();
        let mut k: usize = 0;
        while k < all.len()
            invariant
                k <= all@.len(),
                all@ == spec_all_voxels(),
                start <= end <= n,
                n == low.len(),
                lower@ == low,
                low.subrange(start as int, end as int) == normalized(name@),
                spec_from_name(name@) == first_named(normalized(name@), k as int),
            decreases all@.len() - k,
        {
            let v = all[k];
            let vn = v.as_name();
            let len = vn.unicode_len();
            let mut same = len == end - start;
            let mut j: usize = 0;
            while same && j < len
                invariant
                    j <= len,
                    len == vn@.len(),
                    start <= end <= n,
                    n == low.len(),
                    lower@ == low,
                    same ==> len == end - start,
                    same ==> forall|t: int| 0 <= t < j ==> low[start + t] == vn@[t],
                    !same ==> low.subrange(start as int, end as int) != vn@,
                decreases len - j + (if same { 1int } else { 0int }),
            {
                if lower[start + j] != vn.get_char(j) {
                    same = false;
                    assert(low.subrange(start as int, end as int)[j as int] != vn@[j as int]);
                } else {
                    j += 1;
                }
            }
            if same {
                assert(low.subrange(start as int, end as int) =~= vn@);
                return Some(v);
            }
            k += 1;
        }
        None
    }
}

/// Unicode White_Space, the characters `str::trim` removes.
pub open spec fn spec_white_space(c: char) -> bool {
    ||| '\t' <= c <= '\r'
    ||| c == ' '
    ||| c == '\u{85}'
    ||| c == '\u{a0}'
    ||| c == '\u{1680}'
    ||| '\u{2000}' <= c <= '\u{200a}'
    ||| c == '\u{2028}' || c == '\u{2029}'
    ||| c == '\u{202f}'
    ||| c == '\u{205f}'
    ||| c == '\u{3000}'
}

fn is_white_space(c: char) -> (r: bool)
    ensures
        r == spec_white_space(c),
{
    ('\t' <= c && c <= '\r') || c == ' ' || c == '\u{85}' || c == '\u{a0}' || c == '\u{1680}' || ('\u{2000}' <= c
        && c <= '\u{200a}') || c == '\u{2028}' || c == '\u{2029}' || c == '\u{202f}' || c == '\u{205f}' || c
        == '\u{3000}'
}

/// ASCII upper-case letters to lower case; every other character is kept.
pub open spec fn ascii_lower(c: char) -> char {
    if 'A' <= c <= 'Z' {
        ((c as u32) + 32) as char
    } else {
        c
    }
}

fn to_ascii_lower(c: char) -> (r: char)
    ensures
        r == ascii_lower(c),
{
    if 'A' <= c && c <= 'Z' {
        ((c as u8) + 32) as char
    } else {
        c
    }
}

/// The first index from `i` on that is not white space (or the length).
pub open spec fn trim_start_from(s: Seq<char>, i: int) -> int
    decreases s.len() - i,
{
    if 0 <= i < s.len() && spec_white_space(s[i]) {
        trim_start_from(s, i + 1)
    } else {
        i
    }
}

/// The end of `s[lo..j]` once white space is dropped from its back.
pub open spec fn trim_end_from(s: Seq<char>, lo: int, j: int) -> int
    decreases j - lo,
{
    if lo < j <= s.len() && spec_white_space(s[j - 1]) {
        trim_end_from(s, lo, j - 1)
    } else {
        j
    }
}

/// A name as `from_name` compares it: ASCII lower case, without leading or
/// trailing white space.
pub open spec fn normalized(s: Seq<char>) -> Seq<char> {
    let low = s.map_values(|c: char| ascii_lower(c));
    let start = trim_start_from(low, 0);
    low.subrange(start, trim_end_from(low, start, low.len() as int))
}

/// The first voxel from the `k`-th on, in id order, with the name `t`.
pub open spec fn first_named(t: Seq<char>, k: int) -> Option<Voxel>
    decreases 9 - k,
{
    if k >= 9 || k < 0 {
        None
    } else if spec_all_voxels()[k].spec_name() == t {
        Some(spec_all_voxels()[k])
    } else {
        first_named(t, k + 1)
    }
}

/// The voxel whose name is `s` once normalized.
pub open spec fn spec_from_name(s: Seq<char>) -> Option<Voxel> {
    first_named(normalized(s), 0)
}

/// Every voxel has its own name, and reading its name gives it back.
pub proof fn lemma_name_round_trip(v: Voxel, w: Voxel)
    ensures
        spec_from_name(v.spec_name()) == Some(v),
        v.spec_name() == w.spec_name() ==> v == w,
{
    let s = v.spec_name();
    let low = s.map_values(|c: char| ascii_lower(c));
    assert(low =~= s);
    assert(!spec_white_space(s[0]));
    assert(trim_start_from(low, 0) == 0);
    assert(!spec_white_space(s[s.len() - 1]));
    assert(trim_end_from(low, 0, low.len() as int) == low.len());
    assert(normalized(s) =~= s);
    reveal_with_fuel(first_named, 10);
    if v.spec_name() == w.spec_name() {
        assert(v.spec_name().len() == w.spec_name().len());
        assert(v.spec_name()[0] == w.spec_name()[0]);
        assert(v.spec_name()[1] == w.spec_name()[1]);
        assert(v.spec_name()[2] == w.spec_name()[2]);
    }
}


/// The definition table: one entry per voxel kind, in id order.
pub fn voxel_definitions() -> (r: Vec<VoxelDefinition>)
    ensures
        r@.len() == spec_type_count(),
        forall|i: int| 0 <= i < r@.len() ==> {
            let d = #[trigger] r@[i];
            let v = spec_all_voxels()[i];
            &&& d.voxel == v
            &&& d.name@ == v.spec_name()
            &&& d.simulation_kind == v.spec_simulation_kind()
            &&& d.simulated == v.spec_simulated()
            &&& d.collidable == v.spec_collidable()
            &&& d.rendered == v.spec_rendered()
            &&& d.transparent == v.spec_transparent()
            &&& d.pickable == v.spec_pickable()
            &&& d.breakable == v.spec_breakable()
            &&& d.initial_health == v.spec_initial_health()
            &&& d.density == v.spec_density()
        },
{
    let all = Voxel::iter();
    let mut r: Vec<VoxelDefinition> = Vec::new();
    let mut i: usize = 0;
    while i < all.len()
        invariant
            i <= all@.len(),
            all@ == spec_all_voxels(),
            r@.len() == i,
            forall|j: int| 0 <= j < i ==> {
                let d = #[trigger] r@[j];
                let v = spec_all_voxels()[j];
                &&& d.voxel == v
                &&& d.name@ == v.spec_name()
                &&& d.simulation_kind == v.spec_simulation_kind()
                &&& d.simulated == v.spec_simulated()
                &&& d.collidable == v.spec_collidable()
                &&& d.rendered == v.spec_rendered()
                &&& d.transparent == v.spec_transparent()
                &&& d.pickable == v.spec_pickable()
                &&& d.breakable == v.spec_breakable()
                &&& d.initial_health == v.spec_initial_health()
                &&& d.density == v.spec_density()
            },
        decreases all@.len() - i,
    {
        r.push(all[i].definition());
        i += 1;
    }
    r
}

} // verus!

verus! {

/// How the properties of the voxel kinds hang together: air is the only
/// gas and water and oil the only liquids; a voxel can be collided with
/// exactly when it is neither; it is drawn unless it is air or the
/// invisible barrier, and see-through when it is a gas, a liquid or the
/// barrier; it can be picked up when it is both solid to touch and drawn;
/// what can be broken is all but air, the base and the barrier, with
/// stone the toughest; the simulated kinds are the liquids, sand and dirt;
/// oil is lighter than water, and only liquids have a density.
pub proof fn lemma_kind_properties(v: Voxel)
    ensures
        v.spec_is_gas() <==> v == Voxel::Air,
        v.spec_is_liquid() <==> (v == Voxel::Water || v == Voxel::Oil),
        v.spec_collidable() <==> !(v.spec_is_liquid() || v.spec_is_gas()),
        v.spec_collidable() <==> !(v == Voxel::Air || v == Voxel::Water || v == Voxel::Oil),
        v.spec_rendered() <==> !(v == Voxel::Air || v == Voxel::Barrier),
        v.spec_transparent() <==> (v.spec_is_gas() || v.spec_is_liquid() || v == Voxel::Barrier),
        v.spec_pickable() <==> (v.spec_collidable() && v.spec_rendered()),
        v.spec_breakable() <==> !(v == Voxel::Air || v == Voxel::Base || v == Voxel::Barrier),
        v.spec_initial_health() as int == if !v.spec_breakable() {
            0int
        } else if v == Voxel::Stone {
            100int
        } else {
            10int
        },
        v.spec_simulated() <==> (v.spec_is_liquid() || v == Voxel::Sand || v == Voxel::Dirt),
        Voxel::Oil.spec_density() < Voxel::Water.spec_density(),
        !v.spec_is_liquid() ==> v.spec_density() == 0,
        v.spec_is_liquid() ==> v.spec_density() > 0,
{
}

} // verus!
