//! A dense 3d grid shape: its size, and the mapping between points and
//! linear indices under an axis order.

use vstd::prelude::*;

verus! {

pub type Scalar = i32;

/// The order in which axes are laid out in memory, fastest first.
#[derive(Debug, Clone, Copy, PartialEq, Eq, Structural)]
pub enum AxisOrder {
    XYZ,
    XZY,
    ZYX,
    ZXY,
    YXZ,
    YZX,
}

/// The components of an (x, y, z) triple taken fastest axis first, then
/// the middle axis, then the slowest.
pub open spec fn ordered(o: AxisOrder, v: (int, int, int)) -> (int, int, int) {
    match o {
        AxisOrder::XYZ => (v.0, v.1, v.2),
        AxisOrder::XZY => (v.0, v.2, v.1),
        AxisOrder::ZYX => (v.2, v.1, v.0),
        AxisOrder::ZXY => (v.2, v.0, v.1),
        AxisOrder::YXZ => (v.1, v.0, v.2),
        AxisOrder::YZX => (v.1, v.2, v.0),
    }
}

/// The (x, y, z) triple whose fastest, middle and slowest components are
/// `f`, `m` and `s`.
pub open spec fn unordered(o: AxisOrder, f: int, m: int, s: int) -> (int, int, int) {
    match o {
        AxisOrder::XYZ => (f, m, s),
        AxisOrder::XZY => (f, s, m),
        AxisOrder::ZYX => (s, m, f),
        AxisOrder::ZXY => (m, s, f),
        AxisOrder::YXZ => (m, f, s),
        AxisOrder::YZX => (s, f, m),
    }
}

/// The strides of the axes (x, y, z) of a grid of size `(x, y, z)`: 1 for
/// the fastest axis, its size for the middle one, and the product of both
/// for the slowest.
pub open spec fn order_strides(o: AxisOrder, x: int, y: int, z: int) -> (int, int, int) {
    match o {
        AxisOrder::XYZ => (1, x, x * y),
        AxisOrder::XZY => (1, x * z, x),
        AxisOrder::ZYX => (z * y, z, 1),
        AxisOrder::ZXY => (z, z * x, 1),
        AxisOrder::YXZ => (y, 1, y * x),
        AxisOrder::YZX => (y * z, 1, y),
    }
}

/// Whether the products of a grid size's axes fit in a `Scalar`.
pub open spec fn dims_fit(x: int, y: int, z: int) -> bool {
    &&& i32::MIN <= x * y <= i32::MAX
    &&& i32::MIN <= x * z <= i32::MAX
    &&& i32::MIN <= y * z <= i32::MAX
    &&& i32::MIN <= x * y * z <= i32::MAX
}

impl AxisOrder {
    pub fn strides(&self, dims: [Scalar; 3]) -> (r: [Scalar; 3])
        requires
            dims_fit(dims[0] as int, dims[1] as int, dims[2] as int),
        ensures
            r[0] == order_strides(*self, dims[0] as int, dims[1] as int, dims[2] as int).0,
            r[1] == order_strides(*self, dims[0] as int, dims[1] as int, dims[2] as int).1,
            r[2] == order_strides(*self, dims[0] as int, dims[1] as int, dims[2] as int).2,
    {
        let x = dims[0];
        let y = dims[1];
        let z = dims[2];
        match self {
            AxisOrder::XYZ => [1, x, x * y],
            AxisOrder::XZY => [1, x * z, x],
            AxisOrder::ZYX => [z * y, z, 1],
            AxisOrder::ZXY => [z, z * x, 1],
            AxisOrder::YXZ => [y, 1, y * x],
            AxisOrder::YZX => [y * z, 1, y],
        }
    }
}

/// A grid shape: its size along each axis and the layout of its points.
#[derive(Debug, Clone, Copy)]
pub struct Grid {
    array: [Scalar; 3],
    strides: [Scalar; 3],
    ordering: AxisOrder,
    size: Scalar,
}

impl Grid {
    /// The size along x, y and z.
    pub closed spec fn dims(&self) -> (int, int, int) {
        (self.array[0] as int, self.array[1] as int, self.array[2] as int)
    }

    /// The axis order.
    pub closed spec fn order(&self) -> AxisOrder {
        self.ordering
    }

    /// The strides along x, y and z.
    pub closed spec fn stride(&self) -> (int, int, int) {
        (self.strides[0] as int, self.strides[1] as int, self.strides[2] as int)
    }

    /// The number of points.
    pub closed spec fn spec_size(&self) -> int {
        self.size as int
    }

    /// The strides are those of the order for the size, and the point count
    /// is the product of the size.
    pub open spec fn wf(&self) -> bool {
        &&& dims_fit(self.dims().0, self.dims().1, self.dims().2)
        &&& self.stride() == order_strides(self.order(), self.dims().0, self.dims().1, self.dims().2)
        &&& self.spec_size() == self.dims().0 * self.dims().1 * self.dims().2
    }

    /// Whether a point lies in the grid.
    pub open spec fn contains(&self, p: [Scalar; 3]) -> bool {
        0 <= p[0] < self.dims().0 && 0 <= p[1] < self.dims().1 && 0 <= p[2] < self.dims().2
    }

    /// The linear index of a point: the strides applied to its coordinates.
    pub open spec fn spec_linearize(&self, p: [Scalar; 3]) -> int {
        (self.stride().0 as i32).wrapping_mul(p[0]) + (self.stride().1 as i32).wrapping_mul(p[1])
            + (self.stride().2 as i32).wrapping_mul(p[2])
    }

    pub fn new(dims: [Scalar; 3], ordering: AxisOrder) -> (r: Self)
        requires
            dims_fit(dims[0] as int, dims[1] as int, dims[2] as int),
        ensures
            r.wf(),
            r.dims() == (dims[0] as int, dims[1] as int, dims[2] as int),
            r.order() == ordering,
    {
        let x = dims[0];
        let y = dims[1];
        let z = dims[2];
        Grid { array: [x, y, z], strides: ordering.strides([x, y, z]), ordering, size: x * y * z }
    }

    /// Pad the this shape.
    pub fn pad(&self, padding: [Scalar; 3]) -> (r: Self)
        requires
            i32::MIN <= self.dims().0 + padding[0] <= i32::MAX,
            i32::MIN <= self.dims().1 + padding[1] <= i32::MAX,
            i32::MIN <= self.dims().2 + padding[2] <= i32::MAX,
            dims_fit(self.dims().0 + padding[0], self.dims().1 + padding[1], self.dims().2 + padding[2]),
        ensures
            r.wf(),
            r.dims() == (self.dims().0 + padding[0], self.dims().1 + padding[1], self.dims().2 + padding[2]),
            r.order() == self.order(),
    {
        let padded = [self.array[0] + padding[0], self.array[1] + padding[1], self.array[2] + padding[2]];
        Self::new(padded, self.ordering)
    }

    /// Convert this 3d point into the linear index of this grid.
    pub fn linearize(&self, point: [Scalar; 3]) -> (r: Scalar)
        requires
            i32::MIN <= self.spec_linearize(point) <= i32::MAX,
            i32::MIN <= (self.stride().0 as i32).wrapping_mul(point[0]) + (self.stride().1 as i32).wrapping_mul(point[1])
                <= i32::MAX,
        ensures
            r == self.spec_linearize(point),
    {
        self.strides[0].wrapping_mul(point[0]) + self.strides[1].wrapping_mul(point[1])
            + self.strides[2].wrapping_mul(point[2])
    }

    /// Convert this index into this grid into a 3d point: the quotient by the
    /// slowest axis's stride, then by the middle axis's stride, and the
    /// remainder, each put back on its axis.
    pub fn delinearize(&self, i: Scalar) -> (r: [Scalar; 3])
        requires
            self.wf(),
            self.dims().0 > 0 && self.dims().1 > 0 && self.dims().2 > 0,
        ensures
            r@ == spec_delinearize(self.order(), self.stride(), i as int),
    {
        let (s1, s2) = match self.ordering {
            AxisOrder::XYZ => (self.strides[1], self.strides[2]),
            AxisOrder::XZY => (self.strides[2], self.strides[1]),
            AxisOrder::ZYX => (self.strides[1], self.strides[0]),
            AxisOrder::ZXY => (self.strides[0], self.strides[1]),
            AxisOrder::YXZ => (self.strides[0], self.strides[2]),
            AxisOrder::YZX => (self.strides[2], self.strides[0]),
        };
        proof {
            let (x, y, z) = self.dims();
            assert(x * y > 0 && x * z > 0 && z * y > 0 && z * x > 0 && y * x > 0 && y * z > 0) by (nonlinear_arith)
                requires x > 0, y > 0, z > 0;
        }
        let n2 = i / s2;
        proof {
            lemma_trunc_div_bounds(i as int, s2 as int);
        }
        let rest = i - n2 * s2;
        let n1 = rest / s1;
        proof {
            lemma_trunc_div_bounds(rest as int, s1 as int);
        }
        let n0 = rest - n1 * s1;
        let r = match self.ordering {
            AxisOrder::XYZ => [n0, n1, n2],
            AxisOrder::XZY => [n0, n2, n1],
            AxisOrder::ZYX => [n2, n1, n0],
            AxisOrder::ZXY => [n1, n2, n0],
            AxisOrder::YXZ => [n1, n0, n2],
            AxisOrder::YZX => [n2, n0, n1],
        };
        assert(r@ =~= spec_delinearize(self.order(), self.stride(), i as int));
        r
    }

    /// Iterate over all points in this grid.
    pub fn point_iter(&self) -> (r: Vec<[Scalar; 3]>)
        requires
            self.wf(),
            self.dims().0 > 0 && self.dims().1 > 0 && self.dims().2 > 0,
        ensures
            r@.len() == self.spec_size(),
            forall|i: int| 0 <= i < r@.len() ==> (#[trigger] r@[i])@ == spec_delinearize(self.order(), self.stride(), i),
    {
        let mut out: Vec<[Scalar; 3]> = Vec::new();
        let mut i: Scalar = 0;
        proof {
            let (x, y, z) = self.dims();
            assert(x * y * z > 0) by (nonlinear_arith)
                requires x > 0, y > 0, z > 0;
        }
        while i < self.size
            invariant
                self.wf(),
                self.dims().0 > 0 && self.dims().1 > 0 && self.dims().2 > 0,
                0 <= i <= self.spec_size(),
                out@.len() == i,
                forall|j: int| 0 <= j < out@.len() ==> (#[trigger] out@[j])@ == spec_delinearize(self.order(), self.stride(), j),
            decreases self.spec_size() - i,
        {
            out.push(self.delinearize(i));
            i += 1;
        }
        out
    }

    /// Is this point within the bounds of this grid?
    pub fn in_bounds(&self, point: [Scalar; 3]) -> (r: bool)
        ensures
            r == self.contains(point),
    {
        point[0] >= 0 && point[1] >= 0 && point[2] >= 0 && point[0] < self.array[0] && point[1] < self.array[1]
            && point[2] < self.array[2]
    }

    pub fn array(&self) -> (r: [Scalar; 3])
        ensures
            (r[0] as int, r[1] as int, r[2] as int) == self.dims(),
    {
        self.array
    }

    pub fn size(&self) -> (r: Scalar)
        ensures
            r == self.spec_size(),
    {
        self.size
    }

    /// The axis order.
    pub fn ordering(&self) -> (r: AxisOrder)
        ensures
            r == self.order(),
    {
        self.ordering
    }

    /// The size along x; only the XYZ and XZY orders know it.
    pub fn x(&self) -> (r: Scalar)
        requires
            self.order() == AxisOrder::XYZ || self.order() == AxisOrder::XZY,
        ensures
            r == self.dims().0,
    {
        self.array[0]
    }

    pub fn y(&self) -> (r: Scalar)
        ensures
            r == self.dims().1,
    {
        self.array[1]
    }

    pub fn z(&self) -> (r: Scalar)
        ensures
            r == self.dims().2,
    {
        self.array[2]
    }
}

/// Rust's integer division, which rounds toward zero (for a positive
/// divisor).
pub open spec fn trunc_div(a: int, b: int) -> int {
    if a >= 0 {
        a / b
    } else {
        -((-a) / b)
    }
}

/// The rounded-toward-zero quotient times the divisor lies between zero and
/// the dividend.
proof fn lemma_trunc_div_bounds(a: int, b: int)
    requires
        b > 0,
    ensures
        a >= 0 ==> 0 <= trunc_div(a, b) * b <= a,
        a < 0 ==> a <= trunc_div(a, b) * b <= 0,
{
    if a >= 0 {
        assert(0 <= (a / b) * b <= a) by (nonlinear_arith) requires a >= 0, b > 0;
    } else {
        assert(0 <= ((-a) / b) * b <= -a) by (nonlinear_arith) requires -a > 0, b > 0;
        assert(trunc_div(a, b) * b == -(((-a) / b) * b)) by (nonlinear_arith)
            requires trunc_div(a, b) == -((-a) / b);
    }
}

/// The remainder that goes with `trunc_div`.
pub open spec fn trunc_rem(a: int, b: int) -> int {
    a - trunc_div(a, b) * b
}

/// The point of linear index `i`: divide by the slowest axis's stride, then
/// by the middle axis's stride, keep the remainder, and put each on its
/// axis.
pub open spec fn spec_delinearize(o: AxisOrder, s: (int, int, int), i: int) -> Seq<Scalar> {
    let st = ordered(o, s);
    let n2 = trunc_div(i, st.2);
    let rest = trunc_rem(i, st.2);
    let n1 = trunc_div(rest, st.1);
    let n0 = trunc_rem(rest, st.1);
    let p = unordered(o, n0, n1, n2);
    seq![p.0 as i32, p.1 as i32, p.2 as i32]
}

/// Mixed-radix digits: a fastest digit below `f`, a middle one below `m`
/// and a slowest one below `s` make an index below `f * m * s`, and
/// dividing it out gives the digits back.
proof fn lemma_mixed_radix(a0: int, a1: int, a2: int, f: int, m: int, s: int)
    requires
        0 <= a0 < f,
        0 <= a1 < m,
        0 <= a2 < s,
    ensures
        0 <= a0 + f * a1 <= a0 + f * a1 + f * m * a2 < f * m * s,
        0 <= f * a1 && 0 <= f * m * a2,
        f * a1 <= f * m,
        f * m * a2 <= f * m * s,
        trunc_div(a0 + f * a1 + f * m * a2, f * m) == a2,
        trunc_rem(a0 + f * a1 + f * m * a2, f * m) == a0 + f * a1,
        trunc_div(a0 + f * a1, f) == a1,
        trunc_rem(a0 + f * a1, f) == a0,
{
    let i = a0 + f * a1 + f * m * a2;
    assert(0 <= f * a1 <= f * (m - 1) && f * a1 <= f * m) by (nonlinear_arith)
        requires 0 <= a1 < m, f > 0;
    assert(0 <= f * m * a2 <= f * m * (s - 1) && f * m * a2 <= f * m * s) by (nonlinear_arith)
        requires 0 <= a2 < s, f > 0, m > 0;
    assert(f * m * (s - 1) + f * (m - 1) + f == f * m * s) by (nonlinear_arith);
    assert(trunc_div(i, f * m) == a2 && trunc_rem(i, f * m) == a0 + f * a1) by (nonlinear_arith)
        requires 0 <= a0 < f, 0 <= a1 < m, 0 <= a2, i == a0 + f * a1 + f * m * a2, f > 0, m > 0;
    assert(trunc_div(a0 + f * a1, f) == a1 && trunc_rem(a0 + f * a1, f) == a0) by (nonlinear_arith)
        requires 0 <= a0 < f, 0 <= a1, f > 0;
}

/// An index below `f * m * s` splits into mixed-radix digits.
proof fn lemma_mixed_radix_split(i: int, f: int, m: int, s: int)
    requires
        f > 0,
        m > 0,
        0 <= i < f * m * s,
    ensures
        ({
            let a2 = trunc_div(i, f * m);
            let rest = trunc_rem(i, f * m);
            let a1 = trunc_div(rest, f);
            let a0 = trunc_rem(rest, f);
            &&& 0 <= a0 < f && 0 <= a1 < m && 0 <= a2 < s
            &&& i == a0 + f * a1 + f * m * a2
        }),
{
    let a2 = i / (f * m);
    let rest = i - a2 * (f * m);
    let a1 = rest / f;
    let a0 = rest - a1 * f;
    assert(f * m > 0) by (nonlinear_arith) requires f > 0, m > 0;
    assert(0 <= a2 < s && 0 <= rest < f * m && a2 * (f * m) + rest == i) by (nonlinear_arith)
        requires f * m > 0, 0 <= i < f * m * s, a2 == i / (f * m), rest == i - a2 * (f * m);
    assert(0 <= a1 < m && 0 <= a0 < f && a1 * f + a0 == rest) by (nonlinear_arith)
        requires f > 0, m > 0, 0 <= rest < f * m, a1 == rest / f, a0 == rest - a1 * f;
    assert(i == a0 + f * a1 + f * m * a2) by (nonlinear_arith)
        requires a2 * (f * m) + rest == i, a1 * f + a0 == rest;
}

/// The strides in fastest-first order are 1, the fastest axis's size, and
/// the product of the fastest and middle sizes; a point's index is its
/// fastest-first coordinates in mixed radix.
proof fn lemma_ordered_index(g: Grid, p: [Scalar; 3])
    requires
        g.wf(),
        g.contains(p),
    ensures
        ({
            let d = ordered(g.order(), g.dims());
            let a = ordered(g.order(), (p[0] as int, p[1] as int, p[2] as int));
            &&& ordered(g.order(), g.stride()) == (1int, d.0, d.0 * d.1)
            &&& 0 <= a.0 < d.0 && 0 <= a.1 < d.1 && 0 <= a.2 < d.2
            &&& d.0 * d.1 * d.2 == g.spec_size()
            &&& g.spec_linearize(p) == a.0 + d.0 * a.1 + d.0 * d.1 * a.2
            &&& 0 <= (g.stride().0 as i32).wrapping_mul(p[0]) + (g.stride().1 as i32).wrapping_mul(p[1])
                <= g.spec_linearize(p)
        }),
{
    let (x, y, z) = g.dims();
    let o = g.order();
    let d = ordered(o, g.dims());
    let a = ordered(o, (p[0] as int, p[1] as int, p[2] as int));
    assert(d.0 * d.1 * d.2 == x * y * z) by (nonlinear_arith)
        requires
            d == (x, y, z) || d == (x, z, y) || d == (z, y, x) || d == (z, x, y) || d == (y, x, z) || d == (y, z, x);
    lemma_mixed_radix(a.0, a.1, a.2, d.0, d.1, d.2);
    assert(d.0 * d.1 * d.2 <= i32::MAX);
    let st = g.stride();
    let w0 = (st.0 as i32).wrapping_mul(p[0]);
    let w1 = (st.1 as i32).wrapping_mul(p[1]);
    let w2 = (st.2 as i32).wrapping_mul(p[2]);
    let t = ordered(o, (w0 as int, w1 as int, w2 as int));
    assert(t == (a.0, d.0 * a.1, d.0 * d.1 * a.2)) by {
        assert(0 <= d.0 * d.1 * a.2 <= i32::MAX);
        assert(0 <= d.0 * a.1 <= i32::MAX);
    }
}

/// Delinearizing the index of a point of the grid gives the point back, in
/// every axis order, and the index is below the point count.
pub proof fn lemma_delinearize_linearize(g: Grid, p: [Scalar; 3])
    requires
        g.wf(),
        g.contains(p),
    ensures
        0 <= g.spec_linearize(p) < g.spec_size(),
        spec_delinearize(g.order(), g.stride(), g.spec_linearize(p)) == p@,
{
    lemma_ordered_index(g, p);
    let o = g.order();
    let d = ordered(o, g.dims());
    let a = ordered(o, (p[0] as int, p[1] as int, p[2] as int));
    lemma_mixed_radix(a.0, a.1, a.2, d.0, d.1, d.2);
    let q = unordered(o, a.0, a.1, a.2);
    assert(q == (p[0] as int, p[1] as int, p[2] as int));
    assert(spec_delinearize(g.order(), g.stride(), g.spec_linearize(p)) =~= p@);
}

/// The sizes of a grid are `Scalar`s.
pub proof fn lemma_dims_in_range(g: Grid)
    ensures
        i32::MIN <= g.dims().0 <= i32::MAX,
        i32::MIN <= g.dims().1 <= i32::MAX,
        i32::MIN <= g.dims().2 <= i32::MAX,
{
}

/// The point of a linear index, as an array.
pub open spec fn point_of(g: Grid, i: int) -> [Scalar; 3] {
    let d = spec_delinearize(g.order(), g.stride(), i);
    [d[0], d[1], d[2]]
}

/// Every index below the point count is the index of a point of the grid:
/// delinearizing it gives a point of the grid whose index it is, in every
/// axis order.
pub proof fn lemma_linearize_delinearize(g: Grid, i: int)
    requires
        g.wf(),
        g.dims().0 > 0 && g.dims().1 > 0 && g.dims().2 > 0,
        0 <= i < g.spec_size(),
    ensures
        g.contains(point_of(g, i)),
        g.spec_linearize(point_of(g, i)) == i,
{
    let (x, y, z) = g.dims();
    let o = g.order();
    let d = ordered(o, g.dims());
    assert(d.0 * d.1 * d.2 == x * y * z) by (nonlinear_arith)
        requires
            d == (x, y, z) || d == (x, z, y) || d == (z, y, x) || d == (z, x, y) || d == (y, x, z) || d == (y, z, x);
    assert(ordered(o, g.stride()) == (1int, d.0, d.0 * d.1));
    lemma_mixed_radix_split(i, d.0, d.1, d.2);
    let p = point_of(g, i);
    let a2 = trunc_div(i, d.0 * d.1);
    let rest = trunc_rem(i, d.0 * d.1);
    let a1 = trunc_div(rest, d.0);
    let a0 = trunc_rem(rest, d.0);
    assert(ordered(o, (p[0] as int, p[1] as int, p[2] as int)) == (a0, a1, a2));
    assert(g.contains(p));
    lemma_ordered_index(g, p);
}

/// The parts of the index of a point of the grid stay in range.
pub proof fn lemma_linear_parts(g: Grid, p: [Scalar; 3])
    requires
        g.wf(),
        g.contains(p),
    ensures
        0 <= (g.stride().0 as i32).wrapping_mul(p[0]) + (g.stride().1 as i32).wrapping_mul(p[1]) <= g.spec_linearize(p),
{
    lemma_ordered_index(g, p);
}

} // verus!
