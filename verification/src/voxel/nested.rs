//! The simplest voxel grid: nested vectors indexed by x, then y, then z.

use vstd::prelude::*;

verus! {

#[derive(Debug, Clone, Copy, PartialEq, Eq, Structural, Hash)]
pub enum Voxel {
    Air,
    Dirt,
    Stone,
    Water,
}

/// Simple Voxel grid, zero optimizations done like octrees/etc.
pub struct VoxelGrid {
    voxels: Vec<Vec<Vec<Voxel>>>,
}

impl VoxelGrid {
    /// The voxel columns, by x then y.
    pub closed spec fn cells(&self) -> Seq<Seq<Seq<Voxel>>> {
        self.voxels@.map_values(|plane: Vec<Vec<Voxel>>| plane@.map_values(|col: Vec<Voxel>| col@))
    }

    /// Whether `(x, y, z)` indexes a voxel.
    pub open spec fn has(&self, x: int, y: int, z: int) -> bool {
        0 <= x < self.cells().len() && 0 <= y < self.cells()[x].len() && 0 <= z < self.cells()[x][y].len()
    }

    /// The size along x.
    pub open spec fn spec_width(&self) -> int {
        self.cells().len() as int
    }

    /// The size along y (of the first plane).
    pub open spec fn spec_height(&self) -> int {
        if self.cells().len() > 0 { self.cells()[0].len() as int } else { 0 }
    }

    /// The size along z (of the first column).
    pub open spec fn spec_length(&self) -> int {
        if self.cells().len() > 0 && self.cells()[0].len() > 0 { self.cells()[0][0].len() as int } else { 0 }
    }

    /// Every plane and column has the same size.
    pub open spec fn wf(&self) -> bool {
        &&& forall|x: int| 0 <= x < self.spec_width() ==> (#[trigger] self.cells()[x]).len() == self.spec_height()
        &&& forall|x: int, y: int| 0 <= x < self.spec_width() && 0 <= y < self.spec_height()
            ==> (#[trigger] self.cells()[x][y]).len() == self.spec_length()
    }

    /// An all-air grid of the given size.
    pub fn new(x: usize, y: usize, z: usize) -> (r: Self)
        ensures
            r.wf(),
            r.spec_width() == x,
            x > 0 ==> r.spec_height() == y,
            x > 0 && y > 0 ==> r.spec_length() == z,
            forall|i: int, j: int, k: int| r.has(i, j, k) ==> #[trigger] r.cells()[i][j][k] == Voxel::Air,
            forall|i: int, j: int, k: int| #[trigger] r.has(i, j, k) <==> (0 <= i < x && 0 <= j < y && 0 <= k < z),
    {
        let mut planes: Vec<Vec<Vec<Voxel>>> = Vec::new();
        let mut i: usize = 0;
        while i < x
            invariant
                i <= x,
                planes@.len() == i,
                forall|a: int| 0 <= a < i ==> (#[trigger] planes@[a])@.len() == y,
                forall|a: int, b: int| 0 <= a < i && 0 <= b < y ==> (#[trigger] planes@[a]@[b])@.len() == z,
                forall|a: int, b: int, c: int| 0 <= a < i && 0 <= b < y && 0 <= c < z ==> #[trigger] planes@[a]@[b]@[c] == Voxel::Air,
            decreases x - i,
        {
            let mut plane: Vec<Vec<Voxel>> = Vec::new();
            let mut j: usize = 0;
            while j < y
                invariant
                    j <= y,
                    plane@.len() == j,
                    forall|b: int| 0 <= b < j ==> (#[trigger] plane@[b])@.len() == z,
                    forall|b: int, c: int| 0 <= b < j && 0 <= c < z ==> #[trigger] plane@[b]@[c] == Voxel::Air,
                decreases y - j,
            {
                let mut col: Vec<Voxel> = Vec::new();
                let mut k: usize = 0;
                while k < z
                    invariant
                        k <= z,
                        col@.len() == k,
                        forall|c: int| 0 <= c < k ==> #[trigger] col@[c] == Voxel::Air,
                    decreases z - k,
                {
                    col.push(Voxel::Air);
                    k += 1;
                }
                plane.push(col);
                j += 1;
            }
            planes.push(plane);
            i += 1;
        }
        let r = VoxelGrid { voxels: planes };
        assert forall|a: int, b: int, c: int| #[trigger] r.has(a, b, c) <==> (0 <= a < x && 0 <= b < y && 0 <= c < z) by {
            if 0 <= a < x && 0 <= b < y {
                assert(r.cells()[a][b] == planes@[a]@[b]@);
            }
        }
        assert forall|a: int, b: int, c: int| r.has(a, b, c) implies #[trigger] r.cells()[a][b][c] == Voxel::Air by {
            assert(r.cells()[a][b] == planes@[a]@[b]@);
        }
        r
    }

    /// The voxel at `(x, y, z)`, or `None` where there is none.
    pub fn get_voxel(&self, x: usize, y: usize, z: usize) -> (r: Option<Voxel>)
        ensures
            r == if self.has(x as int, y as int, z as int) { Some(self.cells()[x as int][y as int][z as int]) } else { None },
    {
        if x < self.voxels.len() {
            let plane = &self.voxels[x];
            assert(self.cells()[x as int] == plane@.map_values(|col: Vec<Voxel>| col@));
            if y < plane.len() {
                let col = &plane[y];
                if z < col.len() {
                    return Some(col[z]);
                }
            }
        }
        None
    }

    /// The voxel at `(x, y, z)`.
    pub fn voxel(&self, x: usize, y: usize, z: usize) -> (r: Voxel)
        requires
            self.has(x as int, y as int, z as int),
        ensures
            r == self.cells()[x as int][y as int][z as int],
    {
        assert(self.cells()[x as int] == self.voxels@[x as int]@.map_values(|col: Vec<Voxel>| col@));
        self.voxels[x][y][z]
    }

    /// Set the voxel at `(x, y, z)`.
    pub fn set(&mut self, x: usize, y: usize, z: usize, voxel: Voxel)
        requires
            old(self).has(x as int, y as int, z as int),
        ensures
            final(self).cells() == old(self).cells().update(x as int, old(self).cells()[x as int].update(
                y as int, old(self).cells()[x as int][y as int].update(z as int, voxel))),
    {
        let ghost c0 = self.cells();
        assert(c0[x as int] == self.voxels@[x as int]@.map_values(|col: Vec<Voxel>| col@));
        let mut plane: Vec<Vec<Voxel>> = Vec::new();
        self.voxels.set_and_swap(x, &mut plane);
        let mut col: Vec<Voxel> = Vec::new();
        plane.set_and_swap(y, &mut col);
        col.set(z, voxel);
        plane.set_and_swap(y, &mut col);
        self.voxels.set_and_swap(x, &mut plane);
        assert(self.cells() =~= c0.update(x as int, c0[x as int].update(y as int, c0[x as int][y as int].update(z as int, voxel)))) by {
            assert(self.cells()[x as int] =~= c0[x as int].update(y as int, c0[x as int][y as int].update(z as int, voxel)));
        }
    }

    /// Whether `(x, y, z)` lies within the size of the grid.
    pub fn in_bounds(&self, x: usize, y: usize, z: usize) -> (r: bool)
        ensures
            r == (x < self.spec_width() && y < self.spec_height() && z < self.spec_length()),
    {
        if x < self.voxels.len() {
            assert(self.cells()[0] == self.voxels@[0]@.map_values(|col: Vec<Voxel>| col@));
            if y < self.voxels[0].len() {
                return z < self.voxels[0][0].len();
            }
        }
        false
    }

    pub fn width(&self) -> (r: usize)
        ensures
            r == self.spec_width(),
    {
        self.voxels.len()
    }

    pub fn height(&self) -> (r: usize)
        ensures
            r == self.spec_height(),
    {
        if self.voxels.len() > 0 {
            self.voxels[0].len()
        } else {
            0
        }
    }

    pub fn length(&self) -> (r: usize)
        ensures
            r == self.spec_length(),
    {
        if self.voxels.len() > 0 {
            assert(self.cells()[0] == self.voxels@[0]@.map_values(|col: Vec<Voxel>| col@));
            if self.voxels[0].len() > 0 {
                self.voxels[0][0].len()
            } else {
                0
            }
        } else {
            0
        }
    }

    /// Closest voxel to the surface at a specified x and z: the highest
    /// non-air voxel of the column, with its height.
    /// This is a hack compared to a real screenspace raycast.
    pub fn surface_voxel(&self, x: usize, z: usize) -> (r: Option<(Voxel, usize)>)
        requires
            self.wf(),
            self.spec_height() > 0 ==> x < self.spec_width() && z < self.spec_length(),
        ensures
            match r {
                Some((v, y)) => y < self.spec_height() && v != Voxel::Air && v == self.cells()[x as int][y as int][z as int]
                    && forall|h: int| y < h < self.spec_height() ==> #[trigger] self.cells()[x as int][h][z as int] == Voxel::Air,
                None => forall|h: int| 0 <= h < self.spec_height() ==> #[trigger] self.cells()[x as int][h][z as int] == Voxel::Air,
            },
    {
        let mut y = self.height();
        while y > 0
            invariant
                self.wf(),
                y <= self.spec_height(),
                self.spec_height() > 0 ==> x < self.spec_width() && z < self.spec_length(),
                forall|h: int| y <= h < self.spec_height() ==> #[trigger] self.cells()[x as int][h][z as int] == Voxel::Air,
            decreases y,
        {
            y -= 1;
            assert(self.cells()[x as int].len() == self.spec_height());
            assert(self.cells()[x as int][y as int].len() == self.spec_length());
            let voxel = self.voxel(x, y, z);
            if voxel != Voxel::Air {
                return Some((voxel, y));
            }
        }
        None
    }
}

} // verus!
