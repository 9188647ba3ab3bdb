use vstd::prelude::*;
use crate::grid::{Grid, ScalarField, next_wrap, next_wrap_spec};

verus! {

/// Why an operator refused its input: the grid has a zero cell count on
/// some axis, or a field's dimensions differ from the grid's shape.
#[derive(Clone, Copy, Debug, PartialEq, Eq, Structural)]
pub enum AdvectError {
    InvalidGrid,
    ShapeMismatch,
}

/// The first-order upwind reconstruction at the positive-x face of cell
/// `(i, j)`: the value of the upstream cell. Where the face-normal
/// velocity is strictly positive (`x_upwind` holds `true`) the flow leaves
/// cell `i`, so the face takes that cell's value; otherwise — negative
/// velocity or the deterministic zero tie-break — the face takes the value
/// of the wrapped next cell `(i + 1) mod nx`.
pub open spec fn x_face_value<T>(
    field: ScalarField<T>,
    x_upwind: ScalarField<bool>,
    i: int,
    j: int,
) -> T {
    if x_upwind.at(i, j) {
        field.at(i, j)
    } else {
        field.at(next_wrap_spec(i, field.nx as int), j)
    }
}

/// The upwind reconstruction at the positive-y face of cell `(i, j)`,
/// symmetric to `x_face_value` with the wrap along the second axis.
pub open spec fn y_face_value<T>(
    field: ScalarField<T>,
    y_upwind: ScalarField<bool>,
    i: int,
    j: int,
) -> T {
    if y_upwind.at(i, j) {
        field.at(i, j)
    } else {
        field.at(i, next_wrap_spec(j, field.ny as int))
    }
}

/// All inputs of an operator cover exactly the grid's index space.
pub open spec fn inputs_match_grid<T, C>(
    field: ScalarField<T>,
    x_field: ScalarField<bool>,
    y_field: ScalarField<bool>,
    grid: Grid<C>,
) -> bool {
    field.matches_grid(grid) && x_field.matches_grid(grid) && y_field.matches_grid(grid)
}

/// Reconstruct the scalar value at every cell's positive-x and positive-y
/// face by first-order upwinding on a periodic grid.
///
/// `field` carries the cell-centred scalar; `x_upwind` and `y_upwind` carry
/// the sign of the face-normal velocity at each cell's positive-x and
/// positive-y face (`true` exactly where that velocity is strictly
/// positive). The result pair holds the reconstructed positive-x and
/// positive-y face values, one per cell, and every cell obeys
/// `x_face_value` / `y_face_value` — including the last row and column,
/// whose neighbour wraps around to index zero.
pub fn upwind_interpolation<T: Copy, C: Copy>(
    field: &ScalarField<T>,
    x_upwind: &ScalarField<bool>,
    y_upwind: &ScalarField<bool>,
    grid: &Grid<C>,
) -> (r: Result<(ScalarField<T>, ScalarField<T>), AdvectError>)
    requires
        field.wf(),
        x_upwind.wf(),
        y_upwind.wf(),
    ensures
        r is Ok <==> grid.valid_shape() && inputs_match_grid(*field, *x_upwind, *y_upwind, *grid),
        !grid.valid_shape() ==> r == Err::<(ScalarField<T>, ScalarField<T>), AdvectError>(
            AdvectError::InvalidGrid,
        ),
        grid.valid_shape() && !inputs_match_grid(*field, *x_upwind, *y_upwind, *grid) ==> r
            == Err::<(ScalarField<T>, ScalarField<T>), AdvectError>(AdvectError::ShapeMismatch),
        r matches Ok(out) ==> ({
            &&& out.0.wf()
            &&& out.1.wf()
            &&& out.0.matches_grid(*grid)
            &&& out.1.matches_grid(*grid)
            &&& forall|i: int, j: int|
                0 <= i < grid.shape.0 && 0 <= j < grid.shape.1 ==> out.0.at(i, j)
                    == x_face_value(*field, *x_upwind, i, j)
            &&& forall|i: int, j: int|
                0 <= i < grid.shape.0 && 0 <= j < grid.shape.1 ==> out.1.at(i, j)
                    == y_face_value(*field, *y_upwind, i, j)
        }),
{
    let (nx, ny) = grid.shape;
    if nx == 0 || ny == 0 {
        return Err(AdvectError::InvalidGrid);
    }
    if field.nx != nx || field.ny != ny || x_upwind.nx != nx || x_upwind.ny != ny
        || y_upwind.nx != nx || y_upwind.ny != ny {
        return Err(AdvectError::ShapeMismatch);
    }
    let seed: T = field.get(0, 0);
    let mut x_out: ScalarField<T> = ScalarField::filled(nx, ny, seed);
    let mut y_out: ScalarField<T> = ScalarField::filled(nx, ny, seed);
    let mut i: usize = 0;
    while i < nx
        invariant
            i <= nx,
            0 < nx,
            0 < ny,
            field.wf(),
            x_upwind.wf(),
            y_upwind.wf(),
            field.nx == nx,
            field.ny == ny,
            x_upwind.nx == nx,
            x_upwind.ny == ny,
            y_upwind.nx == nx,
            y_upwind.ny == ny,
            x_out.wf(),
            x_out.nx == nx,
            x_out.ny == ny,
            y_out.wf(),
            y_out.nx == nx,
            y_out.ny == ny,
            forall|a: int, b: int|
                0 <= a < i && 0 <= b < ny ==> x_out.at(a, b) == x_face_value(
                    *field,
                    *x_upwind,
                    a,
                    b,
                ),
            forall|a: int, b: int|
                0 <= a < i && 0 <= b < ny ==> y_out.at(a, b) == y_face_value(
                    *field,
                    *y_upwind,
                    a,
                    b,
                ),
        decreases nx - i,
    {
        let mut j: usize = 0;
        while j < ny
            invariant
                i < nx,
                j <= ny,
                0 < nx,
                0 < ny,
                field.wf(),
                x_upwind.wf(),
                y_upwind.wf(),
                field.nx == nx,
                field.ny == ny,
                x_upwind.nx == nx,
                x_upwind.ny == ny,
                y_upwind.nx == nx,
                y_upwind.ny == ny,
                x_out.wf(),
                x_out.nx == nx,
                x_out.ny == ny,
                y_out.wf(),
                y_out.nx == nx,
                y_out.ny == ny,
                forall|a: int, b: int|
                    0 <= a < i && 0 <= b < ny ==> x_out.at(a, b) == x_face_value(
                        *field,
                        *x_upwind,
                        a,
                        b,
                    ),
                forall|a: int, b: int|
                    0 <= a < i && 0 <= b < ny ==> y_out.at(a, b) == y_face_value(
                        *field,
                        *y_upwind,
                        a,
                        b,
                    ),
                forall|b: int|
                    0 <= b < j ==> x_out.at(i as int, b) == x_face_value(
                        *field,
                        *x_upwind,
                        i as int,
                        b,
                    ),
                forall|b: int|
                    0 <= b < j ==> y_out.at(i as int, b) == y_face_value(
                        *field,
                        *y_upwind,
                        i as int,
                        b,
                    ),
            decreases ny - j,
        {
            let xv: T = if x_upwind.get(i, j) {
                field.get(i, j)
            } else {
                field.get(next_wrap(i, nx), j)
            };
            x_out.set_at(i, j, xv);
            let yv: T = if y_upwind.get(i, j) {
                field.get(i, j)
            } else {
                field.get(i, next_wrap(j, ny))
            };
            y_out.set_at(i, j, yv);
            j = j + 1;
        }
        i = i + 1;
    }
    Ok((x_out, y_out))
}

/// Pure upwind flow: where the face-normal velocity is strictly positive
/// at every cell, every positive-x face takes the value of its own cell.
pub proof fn lemma_pure_upwind<T>(field: ScalarField<T>, x_upwind: ScalarField<bool>)
    requires
        x_upwind.nx == field.nx,
        x_upwind.ny == field.ny,
        forall|i: int, j: int|
            0 <= i < field.nx && 0 <= j < field.ny ==> x_upwind.at(i, j),
    ensures
        forall|i: int, j: int|
            0 <= i < field.nx && 0 <= j < field.ny ==> x_face_value(field, x_upwind, i, j)
                == field.at(i, j),
{
}

/// Pure downwind flow: where the face-normal velocity is nowhere strictly
/// positive — negative everywhere, or exactly zero under the deterministic
/// tie-break — every positive-x face takes the value of the wrapped next
/// cell `(i + 1) mod nx`.
pub proof fn lemma_pure_downwind<T>(field: ScalarField<T>, x_upwind: ScalarField<bool>)
    requires
        x_upwind.nx == field.nx,
        x_upwind.ny == field.ny,
        forall|i: int, j: int|
            0 <= i < field.nx && 0 <= j < field.ny ==> !x_upwind.at(i, j),
    ensures
        forall|i: int, j: int|
            0 <= i < field.nx && 0 <= j < field.ny ==> x_face_value(field, x_upwind, i, j)
                == field.at(next_wrap_spec(i, field.nx as int), j),
{
}

/// Periodic wrap at the last column: where the velocity at the positive-x
/// face of cell `(nx - 1, j)` is not strictly positive, that face takes
/// the value of the first column, `field[0][j]`.
pub proof fn lemma_periodic_wrap<T>(field: ScalarField<T>, x_upwind: ScalarField<bool>, j: int)
    requires
        field.nx >= 1,
        0 <= j < field.ny,
        !x_upwind.at(field.nx - 1, j),
    ensures
        x_face_value(field, x_upwind, field.nx - 1, j) == field.at(0, j),
{
}

} // verus!
