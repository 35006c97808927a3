//! Block textures: which texture a face of a voxel kind uses, and the
//! parsing of texture file names.

use dashmap::DashMap;
use std::collections::hash_map::RandomState;
use vstd::prelude::*;

use crate::voxel::voxel::{lemma_id_injective, lemma_name_round_trip, spec_from_name, Voxel};

verus! {

/// A face of a voxel, in the order the mesher numbers them.
#[derive(Debug, Clone, Copy, PartialEq, Eq, Structural, Hash)]
pub enum Face {
    Up,
    Down,
    Right,
    Left,
    Front,
    Back,
}

impl Face {
    /// The mesher's number of this face.
    pub open spec fn spec_index(self) -> u8 {
        match self {
            Face::Up => 0,
            Face::Down => 1,
            Face::Right => 2,
            Face::Left => 3,
            Face::Front => 4,
            Face::Back => 5,
        }
    }

    /// The face with the mesher's number `n`.
    pub fn from_index(n: u8) -> (r: Self)
        requires
            n < 6,
        ensures
            r.spec_index() == n,
    {
        if n == 0 {
            Face::Up
        } else if n == 1 {
            Face::Down
        } else if n == 2 {
            Face::Right
        } else if n == 3 {
            Face::Left
        } else if n == 4 {
            Face::Front
        } else {
            Face::Back
        }
    }
}

/// Which faces a texture is for.
#[derive(Debug, Clone, Copy, PartialEq, Eq, Structural, Hash)]
pub enum FaceSpecifier {
    Specific(Face),
    Side,
    All,
}

/// The specifiers a face looks its texture up by, most specific first.
pub open spec fn spec_specifiers(face: Face) -> Seq<FaceSpecifier> {
    match face {
        Face::Up => seq![FaceSpecifier::Specific(Face::Up), FaceSpecifier::All],
        Face::Down => seq![FaceSpecifier::Specific(Face::Down), FaceSpecifier::Specific(Face::Up), FaceSpecifier::All],
        _ => seq![FaceSpecifier::Specific(face), FaceSpecifier::Side, FaceSpecifier::All],
    }
}

impl Face {
    /// The specifiers this face looks its texture up by, most specific
    /// first: up then all; down, up, then all; a side face, then any side,
    /// then all.
    pub fn specifiers(&self) -> (r: Vec<FaceSpecifier>)
        ensures
            r@ == spec_specifiers(*self),
    {
        let r = match self {
            Face::Up => vec![FaceSpecifier::Specific(Face::Up), FaceSpecifier::All],
            Face::Down => vec![FaceSpecifier::Specific(Face::Down), FaceSpecifier::Specific(Face::Up), FaceSpecifier::All],
            _ => vec![FaceSpecifier::Specific(*self), FaceSpecifier::Side, FaceSpecifier::All],
        };
        assert(r@ =~= spec_specifiers(*self));
        r
    }
}

/// The number a (voxel, specifier) pair is stored under.
pub open spec fn spec_key(block: Voxel, spec: FaceSpecifier) -> u32 {
    let s: u32 = match spec {
        FaceSpecifier::Specific(f) => f.spec_index() as u32,
        FaceSpecifier::Side => 6,
        FaceSpecifier::All => 7,
    };
    ((block.spec_id() as u32) * 8 + s) as u32
}

pub fn texture_key(block: Voxel, spec: FaceSpecifier) -> (r: u32)
    ensures
        r == spec_key(block, spec),
{
    let s: u32 = match spec {
        FaceSpecifier::Specific(f) => match f {
            Face::Up => 0,
            Face::Down => 1,
            Face::Right => 2,
            Face::Left => 3,
            Face::Front => 4,
            Face::Back => 5,
        },
        FaceSpecifier::Side => 6,
        FaceSpecifier::All => 7,
    };
    (block.id() as u32) * 8 + s
}

/// The concurrent hash map of `dashmap`.
#[verifier::external_type_specification]
#[verifier::external_body]
#[verifier::reject_recursive_types(K)]
#[verifier::reject_recursive_types(V)]
#[verifier::reject_recursive_types(S)]
pub struct ExDashMap<K, V, S>(DashMap<K, V, S>);

/// Texture layers by key.
pub type TextureTable = DashMap<u32, usize, RandomState>;

/// What a texture map holds: texture index by key.
pub uninterp spec fn texture_entries(m: TextureTable) -> Map<u32, usize>;

/// `DashMap::new`: an empty map.
#[verifier::external_body]
fn dashmap_new() -> (r: TextureTable)
    ensures
        texture_entries(r) =~= Map::empty(),
{
    DashMap::new()
}

/// `DashMap::insert`: the key now maps to the value.
#[verifier::external_body]
fn dashmap_insert(m: &mut TextureTable, key: u32, value: usize)
    ensures
        texture_entries(*final(m)) == texture_entries(*old(m)).insert(key, value),
{
    m.insert(key, value);
}

/// `DashMap::get`: the value stored under the key, if any.
#[verifier::external_body]
fn dashmap_get(m: &TextureTable, key: u32) -> (r: Option<usize>)
    ensures
        r == if texture_entries(*m).dom().contains(key) { Some(texture_entries(*m)[key]) } else { None },
{
    m.get(&key).map(|entry| *entry)
}

/// Texture array layers by voxel kind and face specifier.
pub struct TextureMap(TextureTable);

impl TextureMap {
    /// What the map holds.
    pub closed spec fn entries(&self) -> Map<u32, usize> {
        texture_entries(self.0)
    }

    pub fn new() -> (r: Self)
        ensures
            r.entries() =~= Map::empty(),
    {
        TextureMap(dashmap_new())
    }

    /// Store the layer of a (voxel, specifier) pair.
    pub fn insert(&mut self, block: Voxel, spec: FaceSpecifier, index: usize)
        ensures
            final(self).entries() == old(self).entries().insert(spec_key(block, spec), index),
    {
        let key = texture_key(block, spec);
        dashmap_insert(&mut self.0, key, index);
    }

    /// The layer stored for a (voxel, specifier) pair, if any.
    pub fn get(&self, block: Voxel, spec: FaceSpecifier) -> (r: Option<usize>)
        ensures
            r == if self.entries().dom().contains(spec_key(block, spec)) {
                Some(self.entries()[spec_key(block, spec)])
            } else {
                None
            },
    {
        dashmap_get(&self.0, texture_key(block, spec))
    }

    /// The layer of the first of the face's specifiers that has one, else 0.
    pub open spec fn spec_texture_index(&self, block: Voxel, face: Face) -> usize {
        first_layer(self.entries(), block, spec_specifiers(face), 0)
    }

    /// The texture layer of a face of a voxel kind: the one stored for the
    /// first of the face's specifiers that has one, else 0.
    pub fn get_texture_index(&self, block: Voxel, face: Face) -> (r: usize)
        ensures
            r == self.spec_texture_index(block, face),
    {
        let specs = face.specifiers();
        let mut i: usize = 0;
        while i < specs.len()
            invariant
                i <= specs@.len(),
                specs@ == spec_specifiers(face),
                first_layer(self.entries(), block, specs@, 0) == first_layer(self.entries(), block, specs@, i as int),
            decreases specs@.len() - i,
        {
            if let Some(layer) = self.get(block, specs[i]) {
                return layer;
            }
            i += 1;
        }
        0
    }
}

/// The layer stored for the first specifier from the `i`-th on that has
/// one, else 0.
pub open spec fn first_layer(m: Map<u32, usize>, block: Voxel, specs: Seq<FaceSpecifier>, i: int) -> usize
    decreases specs.len() - i,
{
    if i < 0 || i >= specs.len() {
        0
    } else if m.dom().contains(spec_key(block, specs[i])) {
        m[spec_key(block, specs[i])]
    } else {
        first_layer(m, block, specs, i + 1)
    }
}

/// Whether a character is a decimal digit.
pub open spec fn is_digit(c: char) -> bool {
    '0' <= c <= '9'
}

/// The end of `s[..j]` once trailing digits are dropped.
pub open spec fn digits_end(s: Seq<char>, j: int) -> int
    decreases j,
{
    if 0 < j <= s.len() && is_digit(s[j - 1]) {
        digits_end(s, j - 1)
    } else {
        j
    }
}

/// The last index before `j` holding `'_'`, if any.
pub open spec fn last_underscore(s: Seq<char>, j: int) -> Option<int>
    decreases j,
{
    if j <= 0 || j > s.len() {
        None
    } else if s[j - 1] == '_' {
        Some(j - 1)
    } else {
        last_underscore(s, j - 1)
    }
}

/// The specifier a file-name suffix names, if any.
pub open spec fn suffix_specifier(t: Seq<char>) -> Option<FaceSpecifier> {
    if t == seq!['s', 'i', 'd', 'e'] {
        Some(FaceSpecifier::Side)
    } else if t == seq!['b', 'o', 't', 't', 'o', 'm'] {
        Some(FaceSpecifier::Specific(Face::Down))
    } else if t == seq!['t', 'o', 'p'] {
        Some(FaceSpecifier::Specific(Face::Up))
    } else if t == seq!['f', 'r', 'o', 'n', 't'] {
        Some(FaceSpecifier::Specific(Face::Front))
    } else if t == seq!['b', 'a', 'c', 'k'] {
        Some(FaceSpecifier::Specific(Face::Back))
    } else {
        None
    }
}

/// A texture file name (without extension) read as a voxel name and the
/// faces it is for: trailing digits are dropped; a last `_side`, `_bottom`,
/// `_top`, `_front` or `_back` names the faces, otherwise the texture is
/// for all faces.
pub open spec fn spec_parse_tex_name(s: Seq<char>) -> Option<(Voxel, FaceSpecifier)> {
    let e = digits_end(s, s.len() as int);
    let t = s.subrange(0, e);
    let (block, spec) = match last_underscore(t, e) {
        Some(k) => match suffix_specifier(t.subrange(k + 1, e)) {
            Some(sp) => (t.subrange(0, k), sp),
            None => (t, FaceSpecifier::All),
        },
        None => (t, FaceSpecifier::All),
    };
    match spec_from_name(block) {
        Some(v) => Some((v, spec)),
        None => None,
    }
}

/// Whether `s[from..to]` spells `lit`.
fn chars_are(s: &str, from: usize, to: usize, lit: &str) -> (r: bool)
    requires
        from <= to <= s@.len(),
    ensures
        r == (s@.subrange(from as int, to as int) == lit@),
{
    let n = lit.unicode_len();
    if to - from != n {
        assert(s@.subrange(from as int, to as int).len() != lit@.len());
        return false;
    }
    let mut i: usize = 0;
    while i < n
        invariant
            i <= n,
            n == lit@.len(),
            to - from == n,
            from <= to <= s@.len(),
            forall|k: int| 0 <= k < i ==> s@[from + k] == lit@[k],
        decreases n - i,
    {
        if s.get_char(from + i) != lit.get_char(i) {
            assert(s@.subrange(from as int, to as int)[i as int] != lit@[i as int]);
            return false;
        }
        i += 1;
    }
    assert(s@.subrange(from as int, to as int) =~= lit@);
    true
}

/// Whether the `i`-th character is a decimal digit.
fn digit_at(s: &str, i: usize) -> (r: bool)
    requires
        i < s@.len(),
    ensures
        r == is_digit(s@[i as int]),
{
    let c = s.get_char(i);
    '0' <= c && c <= '9'
}

/// Read a texture file name (without extension) as a voxel name and the
/// faces it is for.
pub fn parse_block_tex_name(filename: &str) -> (r: Option<(Voxel, FaceSpecifier)>)
    ensures
        r == spec_parse_tex_name(filename@),
{
    let ghost s = filename@;
    let n = filename.unicode_len();
    let mut e: usize = n;
    while e > 0 && digit_at(filename, e - 1)
        invariant
            s == filename@,
            e <= n,
            n == s.len(),
            digits_end(s, n as int) == digits_end(s, e as int),
        decreases e,
    {
        e -= 1;
    }
    assert(digits_end(s, e as int) == e);
    let ghost t = s.subrange(0, e as int);
    let mut k: usize = e;
    while k > 0 && filename.get_char(k - 1) != '_'
        invariant
            s == filename@,
            k <= e,
            e <= n,
            n == s.len(),
            t == s.subrange(0, e as int),
            last_underscore(t, e as int) == last_underscore(t, k as int),
        decreases k,
    {
        assert(t[k - 1] == s[k - 1]);
        k -= 1;
    }
    proof {
        if k > 0 {
            assert(t[k - 1] == s[k - 1]);
        }
    }
    let mut block_end = e;
    let mut spec = FaceSpecifier::All;
    proof {
        reveal_strlit("side");
        reveal_strlit("bottom");
        reveal_strlit("top");
        reveal_strlit("front");
        reveal_strlit("back");
        assert("side"@ =~= seq!['s', 'i', 'd', 'e']);
        assert("bottom"@ =~= seq!['b', 'o', 't', 't', 'o', 'm']);
        assert("top"@ =~= seq!['t', 'o', 'p']);
        assert("front"@ =~= seq!['f', 'r', 'o', 'n', 't']);
        assert("back"@ =~= seq!['b', 'a', 'c', 'k']);
    }
    if k > 0 {
        let u = k - 1;
        assert(last_underscore(t, e as int) == Some(u as int));
        assert(t.subrange(u + 1, e as int) =~= s.subrange(u + 1, e as int));
        let ghost suffix = s.subrange(k as int, e as int);
        if chars_are(filename, k, e, "side") {
            assert(suffix_specifier(suffix) == Some(FaceSpecifier::Side));
            spec = FaceSpecifier::Side;
            block_end = u;
        } else if chars_are(filename, k, e, "bottom") {
            assert(suffix_specifier(suffix) == Some(FaceSpecifier::Specific(Face::Down)));
            spec = FaceSpecifier::Specific(Face::Down);
            block_end = u;
        } else if chars_are(filename, k, e, "top") {
            assert(suffix_specifier(suffix) == Some(FaceSpecifier::Specific(Face::Up)));
            spec = FaceSpecifier::Specific(Face::Up);
            block_end = u;
        } else if chars_are(filename, k, e, "front") {
            assert(suffix_specifier(suffix) == Some(FaceSpecifier::Specific(Face::Front)));
            spec = FaceSpecifier::Specific(Face::Front);
            block_end = u;
        } else if chars_are(filename, k, e, "back") {
            assert(suffix_specifier(suffix) == Some(FaceSpecifier::Specific(Face::Back)));
            spec = FaceSpecifier::Specific(Face::Back);
            block_end = u;
        } else {
            assert(suffix_specifier(suffix) is None);
        }
        assert(t.subrange(0, u as int) =~= s.subrange(0, u as int));
    } else {
        assert(last_underscore(t, e as int) is None);
    }
    let block = filename.substring_char(0, block_end);
    assert(block_end == e ==> block@ =~= t);
    match Voxel::from_name(block) {
        Some(v) => Some((v, spec)),
        None => None,
    }
}


/// A texture of the block folder: its file stem (when it is text) and its
/// size in pixels. Animated textures stack their frames vertically.
pub struct TextureInfo {
    pub name: Option<String>,
    pub width: u32,
    pub height: u32,
}

/// How the texture array is laid out: which textures are used, in order
/// (after the missing-texture layer 0), and for every layer the frame count
/// of its animation (layer 0 has one).
pub struct TextureArrayPlan {
    pub included: Vec<usize>,
    pub anim_offsets: Vec<u32>,
    pub layers: usize,
}

/// What a texture's name parses to, if it has a name.
pub open spec fn texture_parse(t: TextureInfo) -> Option<(Voxel, FaceSpecifier)> {
    match t.name {
        Some(n) => spec_parse_tex_name(n@),
        None => None,
    }
}

/// The frames of a texture.
pub open spec fn texture_frames(t: TextureInfo) -> int {
    (t.height / t.width) as int
}

/// The layout after the first `n` textures: the map entries made, the
/// textures used, the frame counts per layer and the next free layer.
pub open spec fn plan_after(m: Map<u32, usize>, ts: Seq<TextureInfo>, n: int) -> (Map<u32, usize>, Seq<int>, Seq<u32>, int)
    decreases n,
{
    if n <= 0 {
        (m, Seq::empty(), seq![1u32], 1)
    } else {
        let (m1, inc, offs, index) = plan_after(m, ts, n - 1);
        let t = ts[n - 1];
        match texture_parse(t) {
            Some((block, spec)) => {
                let frames = texture_frames(t);
                (
                    m1.insert(spec_key(block, spec), index as usize),
                    inc.push(n - 1),
                    offs + Seq::new(frames as nat, |i: int| frames as u32),
                    index + frames,
                )
            },
            None => (m1, inc, offs, index),
        }
    }
}

/// The layers a plan uses do not depend on the map it starts from.
proof fn lemma_plan_index(m1: Map<u32, usize>, m2: Map<u32, usize>, ts: Seq<TextureInfo>, n: int)
    ensures
        plan_after(m1, ts, n).3 == plan_after(m2, ts, n).3,
    decreases n,
{
    if n > 0 {
        lemma_plan_index(m1, m2, ts, n - 1);
    }
}

/// Every named texture has a width and the layers fit in `usize`.
pub open spec fn textures_fit(ts: Seq<TextureInfo>) -> bool {
    &&& forall|i: int| 0 <= i < ts.len() && (#[trigger] texture_parse(ts[i])) is Some ==> ts[i].width > 0
    &&& forall|n: int| 0 <= n <= ts.len() ==> #[trigger] plan_after(Map::empty(), ts, n).3 <= usize::MAX
}

/// Register every texture whose name parses, each at the next free layer
/// (layer 0 is kept for the missing texture); a texture takes one layer per
/// animation frame.
pub fn plan_texture_array(texture_map: &mut TextureMap, textures: &[TextureInfo]) -> (r: TextureArrayPlan)
    requires
        textures_fit(textures@),
    ensures
        ({
            let (m, inc, offs, index) = plan_after(old(texture_map).entries(), textures@, textures@.len() as int);
            &&& final(texture_map).entries() == m
            &&& r.included@ == inc.map_values(|i: int| i as usize)
            &&& r.anim_offsets@ == offs
            &&& r.layers == index
        }),
{
    let ghost m0 = texture_map.entries();
    let mut included: Vec<usize> = Vec::new();
    let mut anim_offsets: Vec<u32> = vec![1];
    let mut index: usize = 1;
    let mut i: usize = 0;
    proof {
        assert(anim_offsets@ =~= seq![1u32]);
        assert forall|n: int| 0 <= n <= textures@.len() implies #[trigger] plan_after(m0, textures@, n).3
            == plan_after(Map::empty(), textures@, n).3 by {
            lemma_plan_index(m0, Map::empty(), textures@, n);
        }
    }
    while i < textures.len()
        invariant
            i <= textures@.len(),
            textures_fit(textures@),
            ({
                let (m, inc, offs, idx) = plan_after(m0, textures@, i as int);
                &&& texture_map.entries() == m
                &&& included@ == inc.map_values(|k: int| k as usize)
                &&& anim_offsets@ == offs
                &&& index == idx
            }),
            forall|n: int| 0 <= n <= textures@.len() ==> #[trigger] plan_after(m0, textures@, n).3 == plan_after(Map::empty(), textures@, n).3,
        decreases textures@.len() - i,
    {
        let t = &textures[i];
        let parsed = match &t.name {
            Some(name) => parse_block_tex_name(name.as_str()),
            None => None,
        };
        match parsed {
            Some((block, spec)) => {
                assert(texture_parse(textures@[i as int]) is Some);
                let frames = t.height / t.width;
                assert(plan_after(m0, textures@, i + 1).3 <= usize::MAX) by {
                    assert(plan_after(Map::empty(), textures@, i + 1).3 <= usize::MAX);
                }
                texture_map.insert(block, spec, index);
                included.push(i);
                let ghost before = anim_offsets@;
                let mut k: u32 = 0;
                while k < frames
                    invariant
                        k <= frames,
                        anim_offsets@ == before + Seq::new(k as nat, |j: int| frames),
                    decreases frames - k,
                {
                    anim_offsets.push(frames);
                    k += 1;
                    assert(anim_offsets@ =~= before + Seq::new(k as nat, |j: int| frames));
                }
                index = index + frames as usize;
                proof {
                    let (m, inc, offs, idx) = plan_after(m0, textures@, i as int);
                    assert(included@ =~= inc.push(i as int).map_values(|k: int| k as usize));
                    assert(Seq::new(frames as nat, |j: int| frames) =~= Seq::new(texture_frames(textures@[i as int]) as nat,
                        |j: int| texture_frames(textures@[i as int]) as u32));
                }
            },
            None => {},
        }
        i += 1;
    }
    TextureArrayPlan { included, anim_offsets, layers: index }
}

} // verus!

verus! {

/// The layer a map stores for `block` under `spec`, if any.
pub open spec fn stored_layer(m: Map<u32, usize>, block: Voxel, spec: FaceSpecifier) -> Option<usize> {
    if m.dom().contains(spec_key(block, spec)) {
        Some(m[spec_key(block, spec)])
    } else {
        None
    }
}

/// Whether a face is one of the four upright sides.
pub open spec fn is_side(face: Face) -> bool {
    face == Face::Left || face == Face::Right || face == Face::Front || face == Face::Back
}

/// How a face finds its texture: a texture stored for the face itself
/// wins. Otherwise a side face takes the texture stored for all sides, the
/// bottom takes the top's, and the top takes no other face's; failing
/// those, the texture stored for all faces, and failing that layer 0.
pub proof fn lemma_texture_fallback(tm: TextureMap, block: Voxel, face: Face)
    ensures
        tm.spec_texture_index(block, face) == match stored_layer(tm.entries(), block, FaceSpecifier::Specific(face)) {
            Some(k) => k,
            None => match (if is_side(face) {
                stored_layer(tm.entries(), block, FaceSpecifier::Side)
            } else if face == Face::Down {
                stored_layer(tm.entries(), block, FaceSpecifier::Specific(Face::Up))
            } else {
                None
            }) {
                Some(k) => k,
                None => match stored_layer(tm.entries(), block, FaceSpecifier::All) {
                    Some(k) => k,
                    None => 0,
                },
            },
        },
{
    reveal_with_fuel(first_layer, 4);
}

/// Different kinds and specifiers are stored under different keys.
pub proof fn lemma_key_injective(b1: Voxel, s1: FaceSpecifier, b2: Voxel, s2: FaceSpecifier)
    ensures
        spec_key(b1, s1) == spec_key(b2, s2) ==> b1 == b2 && s1 == s2,
{
    if spec_key(b1, s1) == spec_key(b2, s2) {
        lemma_id_injective(b1, b2);
    }
}

} // verus!

verus! {

/// The file-name suffix that names a specifier, for those that have one.
pub open spec fn specifier_suffix(sp: FaceSpecifier) -> Option<Seq<char>> {
    match sp {
        FaceSpecifier::Side => Some(seq!['s', 'i', 'd', 'e']),
        FaceSpecifier::Specific(Face::Down) => Some(seq!['b', 'o', 't', 't', 'o', 'm']),
        FaceSpecifier::Specific(Face::Up) => Some(seq!['t', 'o', 'p']),
        FaceSpecifier::Specific(Face::Front) => Some(seq!['f', 'r', 'o', 'n', 't']),
        FaceSpecifier::Specific(Face::Back) => Some(seq!['b', 'a', 'c', 'k']),
        _ => None,
    }
}

/// Whether every character of `s` is a lower-case letter.
pub open spec fn all_letters(s: Seq<char>) -> bool {
    forall|i: int| 0 <= i < s.len() ==> 'a' <= #[trigger] s[i] <= 'z'
}

/// Whether every character of `d` is a decimal digit.
pub open spec fn all_digits(d: Seq<char>) -> bool {
    forall|i: int| 0 <= i < d.len() ==> #[trigger] is_digit(d[i])
}

proof fn lemma_names_are_letters(v: Voxel)
    ensures
        all_letters(v.spec_name()),
        v.spec_name().len() > 0,
{
    let s = v.spec_name();
    assert forall|i: int| 0 <= i < s.len() implies 'a' <= #[trigger] s[i] <= 'z' by {
        match v {
            Voxel::Air => {},
            Voxel::Base => {},
            Voxel::Barrier => {},
            Voxel::Dirt => {},
            Voxel::Grass => {},
            Voxel::Stone => {},
            Voxel::Sand => {},
            Voxel::Water => {},
            Voxel::Oil => {},
        }
    }
}

proof fn lemma_suffixes_are_letters(sp: FaceSpecifier)
    ensures
        specifier_suffix(sp) is Some ==> all_letters(specifier_suffix(sp)->0) && (specifier_suffix(sp)->0).len() > 0
            && suffix_specifier(specifier_suffix(sp)->0) == Some(sp),
{
}

/// Trailing digits after a non-digit are dropped back to it.
proof fn lemma_digits_end_after(s: Seq<char>, d: Seq<char>, j: int)
    requires
        s.len() > 0,
        !is_digit(s[s.len() - 1]),
        all_digits(d),
        s.len() <= j <= s.len() + d.len(),
    ensures
        digits_end(s + d, j) == s.len(),
    decreases j,
{
    let t = s + d;
    if j > s.len() {
        assert(t[j - 1] == d[j - 1 - s.len()]);
        lemma_digits_end_after(s, d, j - 1);
    } else {
        assert(t[j - 1] == s[j - 1]);
    }
}

/// Letters hold no underscore.
proof fn lemma_no_underscore(s: Seq<char>, j: int)
    requires
        all_letters(s),
        0 <= j <= s.len(),
    ensures
        last_underscore(s, j) is None,
    decreases j,
{
    if j > 0 {
        assert('a' <= s[j - 1] <= 'z');
        lemma_no_underscore(s, j - 1);
    }
}

/// After `name_suffix` the last underscore is the one before the suffix.
proof fn lemma_last_underscore(name: Seq<char>, suffix: Seq<char>, j: int)
    requires
        all_letters(suffix),
        name.len() + 1 <= j <= name.len() + 1 + suffix.len(),
    ensures
        last_underscore(name + seq!['_'] + suffix, j) == Some(name.len() as int),
    decreases j,
{
    let t = name + seq!['_'] + suffix;
    if j > name.len() + 1 {
        assert(t[j - 1] == suffix[j - 2 - name.len()]);
        assert('a' <= suffix[j - 2 - name.len()] <= 'z');
        lemma_last_underscore(name, suffix, j - 1);
    } else {
        assert(t[j - 1] == '_');
    }
}

/// Texture file names read back: a voxel's name, optionally followed by
/// `_side`, `_bottom`, `_top`, `_front` or `_back`, and then by any run of
/// digits (animation frames), names that voxel kind and those faces; with
/// no suffix the texture is for all faces.
pub proof fn lemma_tex_name_round_trip(v: Voxel, sp: FaceSpecifier, d: Seq<char>)
    requires
        all_digits(d),
    ensures
        spec_parse_tex_name(v.spec_name() + d) == Some((v, FaceSpecifier::All)),
        specifier_suffix(sp) is Some ==> spec_parse_tex_name(v.spec_name() + seq!['_'] + (specifier_suffix(sp)->0) + d)
            == Some((v, sp)),
{
    let name = v.spec_name();
    lemma_names_are_letters(v);
    lemma_name_round_trip(v, v);
    assert('a' <= name[name.len() - 1] <= 'z');
    lemma_digits_end_after(name, d, (name.len() + d.len()) as int);
    assert((name + d).subrange(0, name.len() as int) =~= name);
    lemma_no_underscore(name, name.len() as int);
    if specifier_suffix(sp) is Some {
        let suffix = specifier_suffix(sp)->0;
        lemma_suffixes_are_letters(sp);
        let t = name + seq!['_'] + suffix;
        let e = t.len() as int;
        assert(t[e - 1] == suffix[suffix.len() - 1]);
        assert('a' <= suffix[suffix.len() - 1] <= 'z');
        lemma_digits_end_after(t, d, (t.len() + d.len()) as int);
        assert((t + d).subrange(0, e) =~= t);
        lemma_last_underscore(name, suffix, e);
        assert(t.subrange(name.len() + 1int, e) =~= suffix);
        assert(t.subrange(0, name.len() as int) =~= name);
    }
}

} // verus!
