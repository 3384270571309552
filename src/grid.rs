use vstd::arithmetic::div_mod::{
    lemma_div_denominator, lemma_fundamental_div_mod, lemma_fundamental_div_mod_converse,
};
use vstd::prelude::*;

verus! {

/// Number of cells of a cubic grid with edge length `n`.
pub open spec fn cube(n: int) -> int {
    n * n * n
}

/// Position of cell `(x, y, z)` in linear storage: `x` varies fastest, then `y`, then `z`.
pub open spec fn cell_index(s: int, x: int, y: int, z: int) -> int {
    z * s * s + y * s + x
}

pub open spec fn cell_x(s: int, i: int) -> int {
    i % s
}

pub open spec fn cell_y(s: int, i: int) -> int {
    (i / s) % s
}

pub open spec fn cell_z(s: int, i: int) -> int {
    (i / (s * s)) % s
}

pub open spec fn in_grid(s: int, x: int, y: int, z: int) -> bool {
    0 <= x < s && 0 <= y < s && 0 <= z < s
}

/// A cell inside the grid has a storage position inside the grid, and that position
/// gives the cell's coordinates back.
pub proof fn lemma_index_of_cell(s: int, x: int, y: int, z: int)
    requires
        in_grid(s, x, y, z),
    ensures
        0 <= cell_index(s, x, y, z) < cube(s),
        cell_x(s, cell_index(s, x, y, z)) == x,
        cell_y(s, cell_index(s, x, y, z)) == y,
        cell_z(s, cell_index(s, x, y, z)) == z,
{
    let i = cell_index(s, x, y, z);
    let q = z * s + y;
    assert(i == q * s + x) by (nonlinear_arith)
        requires
            i == z * s * s + y * s + x,
            q == z * s + y,
    ;
    assert(0 <= q < s * s) by (nonlinear_arith)
        requires
            q == z * s + y,
            0 <= y < s,
            0 <= z < s,
    ;
    assert(0 <= i < cube(s)) by (nonlinear_arith)
        requires
            i == q * s + x,
            0 <= q < s * s,
            0 <= x < s,
    ;
    lemma_fundamental_div_mod_converse(i, s, q, x);
    lemma_fundamental_div_mod_converse(q, s, z, y);
    lemma_fundamental_div_mod_converse(z, s, 0, z);
    lemma_div_denominator(i, s, s);
}

/// Every storage position inside the grid belongs to a cell inside the grid, and that
/// cell's index is the position itself.
pub proof fn lemma_cell_of_index(s: int, i: int)
    requires
        0 <= i < cube(s),
    ensures
        in_grid(s, cell_x(s, i), cell_y(s, i), cell_z(s, i)),
        cell_index(s, cell_x(s, i), cell_y(s, i), cell_z(s, i)) == i,
{
    assert(s > 0) by (nonlinear_arith)
        requires
            0 <= i < s * s * s,
    ;
    let x = i % s;
    let q = i / s;
    lemma_fundamental_div_mod(i, s);
    let y = q % s;
    let z = q / s;
    lemma_fundamental_div_mod(q, s);
    assert(0 <= x < s && 0 <= y < s);
    assert(0 <= q < s * s) by (nonlinear_arith)
        requires
            i == s * q + x,
            0 <= x < s,
            0 <= i < s * s * s,
            s > 0,
    ;
    assert(0 <= z < s) by (nonlinear_arith)
        requires
            q == s * z + y,
            0 <= y < s,
            0 <= q < s * s,
            s > 0,
    ;
    lemma_div_denominator(i, s, s);
    lemma_fundamental_div_mod_converse(z, s, 0, z);
    assert(cell_index(s, x, y, z) == i) by (nonlinear_arith)
        requires
            i == s * q + x,
            q == s * z + y,
    ;
}

/// A cubic grid of integer samples, stored densely with `x` varying fastest.
pub struct VoxelGrid {
    pub size: u32,
    pub data: Vec<i64>,
}

impl VoxelGrid {
    /// The grid holds one sample per cell, and every storage position fits in `u32`.
    pub open spec fn wf(&self) -> bool {
        &&& self.data@.len() == cube(self.size as int)
        &&& cube(self.size as int) <= u32::MAX
    }

    pub open spec fn contains(&self, x: u32, y: u32, z: u32) -> bool {
        in_grid(self.size as int, x as int, y as int, z as int)
    }

    /// The sample of cell `(x, y, z)`.
    pub open spec fn at(&self, x: u32, y: u32, z: u32) -> i64 {
        self.data@[cell_index(self.size as int, x as int, y as int, z as int)]
    }

    /// `after` is `before` with every cell replaced by what `func` gave for that cell's
    /// coordinates and previous sample.
    pub open spec fn rewritten_by<F: FnMut(u32, u32, u32, i64) -> i64>(
        before: VoxelGrid,
        after: VoxelGrid,
        func: F,
    ) -> bool {
        &&& after.size == before.size
        &&& after.data@.len() == before.data@.len()
        &&& forall|x: u32, y: u32, z: u32|
            #![trigger after.at(x, y, z)]
            before.contains(x, y, z) ==> func.ensures((x, y, z, before.at(x, y, z)), after.at(x, y, z))
    }

    /// A grid of `size` cells per axis, every sample zero.
    pub fn new(size: u32) -> (g: Self)
        requires
            cube(size as int) <= u32::MAX,
        ensures
            g.wf(),
            g.size == size,
            g.data@ == Seq::new(cube(size as int) as nat, |i: int| 0i64),
    {
        assert(0 <= size * size <= cube(size as int)) by (nonlinear_arith)
            requires
                size >= 0,
        ;
        assert(size * size <= u32::MAX) by (nonlinear_arith)
            requires
                size * size * size <= u32::MAX,
                size >= 0,
        ;
        let n: u32 = size * size * size;
        let data: Vec<i64> = vec![0i64; n as usize];
        assert(data@ =~= Seq::new(cube(size as int) as nat, |i: int| 0i64));
        VoxelGrid { size, data }
    }

    /// The sample of cell `(x, y, z)`.
    pub fn read(&self, x: u32, y: u32, z: u32) -> (v: i64)
        requires
            self.wf(),
            self.contains(x, y, z),
        ensures
            v == self.at(x, y, z),
    {
        let size = self.size;
        proof {
            lemma_index_of_cell(size as int, x as int, y as int, z as int);
            assert(z * size * size <= cell_index(size as int, x as int, y as int, z as int))
                by (nonlinear_arith)
                requires
                    x >= 0,
                    y >= 0,
                    size >= 0,
            ;
            assert(z * size <= z * size * size) by (nonlinear_arith)
                requires
                    size >= 1,
                    z >= 0,
            ;
            assert(y * size <= cell_index(size as int, x as int, y as int, z as int))
                by (nonlinear_arith)
                requires
                    x >= 0,
                    z >= 0,
                    size >= 0,
            ;
        }
        let idx = z * size * size + y * size + x;
        self.data[idx as usize]
    }

    /// The linear storage position of cell `i` and its coordinates, computed in `u32`.
    pub(crate) fn coords_of(size: u32, i: usize) -> (r: (u32, u32, u32))
        requires
            cube(size as int) <= u32::MAX,
            i < cube(size as int),
        ensures
            r.0 as int == cell_x(size as int, i as int),
            r.1 as int == cell_y(size as int, i as int),
            r.2 as int == cell_z(size as int, i as int),
            in_grid(size as int, r.0 as int, r.1 as int, r.2 as int),
    {
        proof {
            lemma_cell_of_index(size as int, i as int);
            assert(size * size <= u32::MAX) by (nonlinear_arith)
                requires
                    size * size * size <= u32::MAX,
                    size >= 1,
            ;
            assert(size * size > 0) by (nonlinear_arith)
                requires
                    size >= 1,
            ;
        }
        let j = i as u32;
        let z = (j / (size * size)) % size;
        let y = (j / size) % size;
        let x = j % size;
        (x, y, z)
    }

    /// Replaces every sample with `func(x, y, z, previous)`, visiting cells in storage order.
    pub fn map<F>(&mut self, mut func: F) where F: FnMut(u32, u32, u32, i64) -> i64
        requires
            old(self).wf(),
            forall|x: u32, y: u32, z: u32|
                old(self).contains(x, y, z) ==> #[trigger] func.requires(
                    (x, y, z, old(self).at(x, y, z)),
                ),
        ensures
            final(self).wf(),
            Self::rewritten_by(*old(self), *final(self), func),
    {
        let size = self.size;
        let n = self.data.len();
        let ghost before = self.data@;
        let ghost f0 = func;
        for i in 0..n
            invariant
                func == f0,
                n == before.len(),
                self.size == size,
                self.data@.len() == n,
                n == cube(size as int),
                cube(size as int) <= u32::MAX,
                before == old(self).data@,
                old(self).size == size,
                forall|x: u32, y: u32, z: u32|
                    old(self).contains(x, y, z) ==> #[trigger] func.requires(
                        (x, y, z, old(self).at(x, y, z)),
                    ),
                forall|j: int|
                    0 <= j < i ==> func.ensures(
                        (
                            cell_x(size as int, j) as u32,
                            cell_y(size as int, j) as u32,
                            cell_z(size as int, j) as u32,
                            before[j],
                        ),
                        #[trigger] self.data@[j],
                    ),
                forall|j: int| i <= j < n ==> #[trigger] self.data@[j] == before[j],
        {
            let (x, y, z) = Self::coords_of(size, i);
            proof {
                lemma_cell_of_index(size as int, i as int);
                assert(self.data@[i as int] == before[i as int]);
                assert(old(self).contains(x, y, z));
                assert(old(self).at(x, y, z) == before[i as int]);
            }
            let v = func(x, y, z, self.data[i]);
            self.data[i] = v;
        }
        proof {
            assert forall|x: u32, y: u32, z: u32| #[trigger]
                old(self).contains(x, y, z) implies func.ensures(
                (x, y, z, old(self).at(x, y, z)),
                final(self).at(x, y, z),
            ) by {
                lemma_index_of_cell(size as int, x as int, y as int, z as int);
                let j = cell_index(size as int, x as int, y as int, z as int);
                assert(self.data@[j] == final(self).at(x, y, z));
                assert(before[j] == old(self).at(x, y, z));
            }
        }
    }

    /// Calls `func(x, y, z, value)` on every cell in storage order; the grid is left as it was.
    pub fn each<F>(&mut self, mut func: F) where F: FnMut(u32, u32, u32, i64)
        requires
            old(self).wf(),
            forall|x: u32, y: u32, z: u32|
                old(self).contains(x, y, z) ==> #[trigger] func.requires(
                    (x, y, z, old(self).at(x, y, z)),
                ),
        ensures
            *final(self) == *old(self),
            forall|x: u32, y: u32, z: u32|
                #![trigger old(self).at(x, y, z)]
                old(self).contains(x, y, z) ==> func.ensures((x, y, z, old(self).at(x, y, z)), ()),
    {
        let size = self.size;
        let n = self.data.len();
        let ghost f0 = func;
        for i in 0..n
            invariant
                func == f0,
                forall|j: int|
                    0 <= j < i ==> func.ensures(
                        (
                            cell_x(size as int, j) as u32,
                            cell_y(size as int, j) as u32,
                            cell_z(size as int, j) as u32,
                            #[trigger] self.data@[j],
                        ),
                        (),
                    ),
                self.wf(),
                self.size == size,
                self.data@.len() == n,
                *self == *old(self),
                forall|x: u32, y: u32, z: u32|
                    self.contains(x, y, z) ==> #[trigger] func.requires(
                        (x, y, z, self.at(x, y, z)),
                    ),
        {
            let (x, y, z) = Self::coords_of(size, i);
            proof {
                lemma_cell_of_index(size as int, i as int);
                assert(self.contains(x, y, z));
                assert(self.at(x, y, z) == self.data@[i as int]);
            }
            func(x, y, z, self.data[i]);
        }
        proof {
            assert forall|x: u32, y: u32, z: u32| #[trigger]
                old(self).contains(x, y, z) implies func.ensures(
                (x, y, z, old(self).at(x, y, z)),
                (),
            ) by {
                lemma_index_of_cell(size as int, x as int, y as int, z as int);
                let j = cell_index(size as int, x as int, y as int, z as int);
                assert(self.data@[j] == old(self).at(x, y, z));
            }
        }
    }
}

/// Filling a freshly made grid is a total rewrite: afterwards every cell holds what the
/// generator gave for its coordinates and a previous sample of zero.
pub proof fn lemma_fill_is_total_rewrite<F: FnMut(u32, u32, u32, i64) -> i64>(
    fresh: VoxelGrid,
    filled: VoxelGrid,
    func: F,
)
    requires
        fresh.wf(),
        fresh.data@ == Seq::new(cube(fresh.size as int) as nat, |i: int| 0i64),
        VoxelGrid::rewritten_by(fresh, filled, func),
    ensures
        filled.wf(),
        forall|x: u32, y: u32, z: u32|
            #![trigger filled.at(x, y, z)]
            fresh.contains(x, y, z) ==> func.ensures((x, y, z, 0i64), filled.at(x, y, z)),
{
    assert forall|x: u32, y: u32, z: u32| #[trigger]
        fresh.contains(x, y, z) implies func.ensures((x, y, z, 0i64), filled.at(x, y, z)) by {
        lemma_index_of_cell(fresh.size as int, x as int, y as int, z as int);
        assert(fresh.at(x, y, z) == 0i64);
    }
}

/// A fill whose generator is deterministic and ignores the previous sample gives the same
/// grid whatever the grid held before.
pub proof fn lemma_fill_ignores_previous<F: FnMut(u32, u32, u32, i64) -> i64>(
    before1: VoxelGrid,
    after1: VoxelGrid,
    before2: VoxelGrid,
    after2: VoxelGrid,
    func: F,
)
    requires
        before1.wf(),
        before2.wf(),
        before1.size == before2.size,
        VoxelGrid::rewritten_by(before1, after1, func),
        VoxelGrid::rewritten_by(before2, after2, func),
        forall|x: u32, y: u32, z: u32, p1: i64, p2: i64, r1: i64, r2: i64|
            #![trigger func.ensures((x, y, z, p1), r1), func.ensures((x, y, z, p2), r2)]
            func.ensures((x, y, z, p1), r1) && func.ensures((x, y, z, p2), r2) ==> r1 == r2,
    ensures
        after1.data@ == after2.data@,
{
    let s = before1.size as int;
    assert forall|j: int| 0 <= j < after1.data@.len() implies after1.data@[j]
        == after2.data@[j] by {
        lemma_cell_of_index(s, j);
        let x = cell_x(s, j) as u32;
        let y = cell_y(s, j) as u32;
        let z = cell_z(s, j) as u32;
        assert(before1.contains(x, y, z));
        assert(after1.at(x, y, z) == after1.data@[j]);
        assert(after2.at(x, y, z) == after2.data@[j]);
        assert(func.ensures((x, y, z, before1.at(x, y, z)), after1.at(x, y, z)));
        assert(func.ensures((x, y, z, before2.at(x, y, z)), after2.at(x, y, z)));
    }
    assert(after1.data@ =~= after2.data@);
}

} // verus!
