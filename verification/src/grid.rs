use vstd::prelude::*;
use vstd::arithmetic::div_mod::{lemma_mod_multiples_vanish, lemma_mod_self_0, lemma_small_mod};
use vstd::pervasive::VecAdditionalExecFns;

verus! {

/// A dense rectangular field of one value per grid cell, indexed by
/// `(i, j)` with `i` running over the first axis (`nx` cells) and `j` over
/// the second (`ny` cells). Storage is a single flat row-major buffer:
/// cell `(i, j)` lives at linear index `i * ny + j`.
pub struct ScalarField<T> {
    pub nx: usize,
    pub ny: usize,
    pub data: Vec<T>,
}

/// A uniform two-dimensional grid: cell counts per axis, the physical
/// coordinate of the lower-left corner, and the physical extent per axis.
/// The coordinate type is left generic; the grid itself only decides
/// index-space questions, and derived geometry (cell spacing, cell volume,
/// cell and face centres) is arithmetic on the coordinates that a caller
/// performs in its own number type.
pub struct Grid<C> {
    pub shape: (usize, usize),
    pub origin: (C, C),
    pub size: (C, C),
}

/// The successor of `i` one step in the positive direction on a periodic
/// axis of `n` cells: `i + 1`, wrapping the last index back to `0`.
pub open spec fn next_wrap_spec(i: int, n: int) -> int {
    if i + 1 < n {
        i + 1
    } else {
        0
    }
}

/// The predecessor of `i` on a periodic axis of `n` cells: `i - 1`,
/// wrapping the first index to `n - 1`.
pub open spec fn prev_wrap_spec(i: int, n: int) -> int {
    if i == 0 {
        n - 1
    } else {
        i - 1
    }
}

/// Periodic successor index, the executable form of `(i + 1) mod n`.
pub fn next_wrap(i: usize, n: usize) -> (r: usize)
    requires
        0 < n,
        i < n,
    ensures
        r < n,
        r == next_wrap_spec(i as int, n as int),
        r as int == (i as int + 1) % (n as int),
{
    proof {
        if i + 1 < n {
            lemma_small_mod((i + 1) as nat, n as nat);
        } else {
            lemma_mod_self_0(n as int);
        }
    }
    if i + 1 < n {
        i + 1
    } else {
        0
    }
}

/// Periodic predecessor index, the executable form of `(i + n - 1) mod n`.
pub fn prev_wrap(i: usize, n: usize) -> (r: usize)
    requires
        0 < n,
        i < n,
    ensures
        r < n,
        r == prev_wrap_spec(i as int, n as int),
        r as int == (i as int + n as int - 1) % (n as int),
{
    proof {
        if i == 0 {
            lemma_small_mod((n - 1) as nat, n as nat);
        } else {
            lemma_mod_multiples_vanish(1, i as int - 1, n as int);
            lemma_small_mod((i - 1) as nat, n as nat);
        }
    }
    if i == 0 {
        n - 1
    } else {
        i - 1
    }
}

/// A cell index pair within bounds maps to a linear index within the
/// buffer of a well-formed field.
pub proof fn lemma_cell_index_bounds(nx: int, ny: int, i: int, j: int)
    requires
        0 <= i < nx,
        0 <= j < ny,
    ensures
        0 <= i * ny + j < nx * ny,
{
    assert(0 <= i * ny + j < nx * ny) by (nonlinear_arith)
        requires
            0 <= i < nx,
            0 <= j < ny,
    ;
}

/// The row-major linear index map is injective over in-bounds cell indices.
pub proof fn lemma_cell_index_injective(ny: int, i1: int, j1: int, i2: int, j2: int)
    requires
        0 <= i1,
        0 <= i2,
        0 <= j1 < ny,
        0 <= j2 < ny,
        i1 * ny + j1 == i2 * ny + j2,
    ensures
        i1 == i2 && j1 == j2,
{
    assert(i1 == i2 && j1 == j2) by (nonlinear_arith)
        requires
            0 <= i1,
            0 <= i2,
            0 <= j1 < ny,
            0 <= j2 < ny,
            i1 * ny + j1 == i2 * ny + j2,
    ;
}

impl<T> ScalarField<T> {
    /// Well-formedness: the flat buffer holds exactly one value per cell.
    pub open spec fn wf(self) -> bool {
        self.data.len() == self.nx * self.ny
    }

    /// The value stored for cell `(i, j)`.
    pub open spec fn at(self, i: int, j: int) -> T {
        self.data[i * self.ny + j]
    }

    /// The field covers exactly the index space of `grid`.
    pub open spec fn matches_grid<C>(self, grid: Grid<C>) -> bool {
        self.nx == grid.shape.0 && self.ny == grid.shape.1
    }
}

impl<T: Copy> ScalarField<T> {
    /// A field of the given shape holding `value` in every cell.
    pub fn filled(nx: usize, ny: usize, value: T) -> (r: Self)
        requires
            nx * ny <= usize::MAX,
        ensures
            r.wf(),
            r.nx == nx,
            r.ny == ny,
            forall|i: int, j: int|
                0 <= i < nx && 0 <= j < ny ==> r.at(i, j) == value,
    {
        let total: usize = nx * ny;
        let mut data: Vec<T> = Vec::new();
        let mut k: usize = 0;
        while k < total
            invariant
                k <= total,
                data.len() == k,
                forall|m: int| 0 <= m < k ==> data[m] == value,
            decreases total - k,
        {
            data.push(value);
            k = k + 1;
        }
        let r = ScalarField { nx, ny, data };
        proof {
            assert forall|i: int, j: int|
                0 <= i < nx && 0 <= j < ny implies r.at(i, j) == value by {
                lemma_cell_index_bounds(nx as int, ny as int, i, j);
            }
        }
        r
    }

    /// Read the value of cell `(i, j)`.
    pub fn get(&self, i: usize, j: usize) -> (r: T)
        requires
            self.wf(),
            i < self.nx,
            j < self.ny,
        ensures
            r == self.at(i as int, j as int),
    {
        proof {
            lemma_cell_index_bounds(self.nx as int, self.ny as int, i as int, j as int);
        }
        let idx: usize = i * self.ny + j;
        self.data[idx]
    }

    /// Overwrite the value of cell `(i, j)`, leaving every other cell as it
    /// was.
    pub fn set_at(&mut self, i: usize, j: usize, value: T)
        requires
            old(self).wf(),
            i < old(self).nx,
            j < old(self).ny,
        ensures
            final(self).wf(),
            final(self).nx == old(self).nx,
            final(self).ny == old(self).ny,
            final(self).at(i as int, j as int) == value,
            forall|i2: int, j2: int|
                0 <= i2 < old(self).nx && 0 <= j2 < old(self).ny && !(i2 == i && j2 == j)
                    ==> final(self).at(i2, j2) == old(self).at(i2, j2),
    {
        proof {
            lemma_cell_index_bounds(self.nx as int, self.ny as int, i as int, j as int);
        }
        let idx: usize = i * self.ny + j;
        self.data.set(idx, value);
        proof {
            assert forall|i2: int, j2: int|
                0 <= i2 < self.nx && 0 <= j2 < self.ny && !(i2 == i && j2 == j)
                    implies self.at(i2, j2) == old(self).at(i2, j2) by {
                lemma_cell_index_bounds(self.nx as int, self.ny as int, i2, j2);
                if i2 * (self.ny as int) + j2 == (i as int) * (self.ny as int) + (j as int) {
                    lemma_cell_index_injective(self.ny as int, i2, j2, i as int, j as int);
                }
            }
        }
    }
}

impl<C: Copy> Grid<C> {
    /// A grid with the given cell counts, lower-left corner and extent.
    /// No validation happens here; operators that consume the grid report
    /// an invalid shape themselves.
    pub fn new(shape: (usize, usize), origin: (C, C), size: (C, C)) -> (g: Self)
        ensures
            g.shape == shape,
            g.origin == origin,
            g.size == size,
    {
        Grid { shape, origin, size }
    }

    /// Both cell counts are strictly positive; the index-space half of grid
    /// validity (positivity of the physical extent lives with the caller's
    /// number type).
    pub open spec fn valid_shape(self) -> bool {
        self.shape.0 > 0 && self.shape.1 > 0
    }

    /// Decide `valid_shape`.
    pub fn shape_is_valid(&self) -> (r: bool)
        ensures
            r == self.valid_shape(),
    {
        self.shape.0 > 0 && self.shape.1 > 0
    }
}

} // verus!
