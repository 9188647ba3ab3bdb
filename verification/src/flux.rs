use vstd::prelude::*;
use crate::grid::{Grid, ScalarField, prev_wrap, prev_wrap_spec};
use crate::upwind::AdvectError;

verus! {

/// Gather, for every cell, the positive-x face quantity of its wrapped
/// negative-x neighbour: `r[i][j] == f[(i - 1) mod nx][j]`.
///
/// This is the conservative half of the flux-divergence stencil: the flux
/// crossing a cell's negative-x face is not recomputed but reused from the
/// neighbour that owns that face, so the same number leaves one cell and
/// enters the next.
pub fn prev_x_values<T: Copy, C: Copy>(f: &ScalarField<T>, grid: &Grid<C>) -> (r: Result<
    ScalarField<T>,
    AdvectError,
>)
    requires
        f.wf(),
    ensures
        r is Ok <==> grid.valid_shape() && f.matches_grid(*grid),
        !grid.valid_shape() ==> r == Err::<ScalarField<T>, AdvectError>(AdvectError::InvalidGrid),
        grid.valid_shape() && !f.matches_grid(*grid) ==> r == Err::<ScalarField<T>, AdvectError>(
            AdvectError::ShapeMismatch,
        ),
        r matches Ok(out) ==> ({
            &&& out.wf()
            &&& out.matches_grid(*grid)
            &&& forall|i: int, j: int|
                0 <= i < grid.shape.0 && 0 <= j < grid.shape.1 ==> out.at(i, j) == f.at(
                    prev_wrap_spec(i, grid.shape.0 as int),
                    j,
                )
        }),
{
    let (nx, ny) = grid.shape;
    if nx == 0 || ny == 0 {
        return Err(AdvectError::InvalidGrid);
    }
    if f.nx != nx || f.ny != ny {
        return Err(AdvectError::ShapeMismatch);
    }
    let seed: T = f.get(0, 0);
    let mut out: ScalarField<T> = ScalarField::filled(nx, ny, seed);
    let mut i: usize = 0;
    while i < nx
        invariant
            i <= nx,
            0 < nx,
            0 < ny,
            f.wf(),
            f.nx == nx,
            f.ny == ny,
            out.wf(),
            out.nx == nx,
            out.ny == ny,
            forall|a: int, b: int|
                0 <= a < i && 0 <= b < ny ==> out.at(a, b) == f.at(
                    prev_wrap_spec(a, nx as int),
                    b,
                ),
        decreases nx - i,
    {
        let src: usize = prev_wrap(i, nx);
        let mut j: usize = 0;
        while j < ny
            invariant
                i < nx,
                j <= ny,
                0 < nx,
                0 < ny,
                f.wf(),
                f.nx == nx,
                f.ny == ny,
                out.wf(),
                out.nx == nx,
                out.ny == ny,
                src < nx,
                src == prev_wrap_spec(i as int, nx as int),
                forall|a: int, b: int|
                    0 <= a < i && 0 <= b < ny ==> out.at(a, b) == f.at(
                        prev_wrap_spec(a, nx as int),
                        b,
                    ),
                forall|b: int|
                    0 <= b < j ==> out.at(i as int, b) == f.at(prev_wrap_spec(i as int, nx as int), b),
            decreases ny - j,
        {
            let v: T = f.get(src, j);
            out.set_at(i, j, v);
            j = j + 1;
        }
        i = i + 1;
    }
    Ok(out)
}

/// Gather, for every cell, the positive-y face quantity of its wrapped
/// negative-y neighbour: `r[i][j] == f[i][(j - 1) mod ny]`, the second-axis
/// counterpart of `prev_x_values`.
pub fn prev_y_values<T: Copy, C: Copy>(f: &ScalarField<T>, grid: &Grid<C>) -> (r: Result<
    ScalarField<T>,
    AdvectError,
>)
    requires
        f.wf(),
    ensures
        r is Ok <==> grid.valid_shape() && f.matches_grid(*grid),
        !grid.valid_shape() ==> r == Err::<ScalarField<T>, AdvectError>(AdvectError::InvalidGrid),
        grid.valid_shape() && !f.matches_grid(*grid) ==> r == Err::<ScalarField<T>, AdvectError>(
            AdvectError::ShapeMismatch,
        ),
        r matches Ok(out) ==> ({
            &&& out.wf()
            &&& out.matches_grid(*grid)
            &&& forall|i: int, j: int|
                0 <= i < grid.shape.0 && 0 <= j < grid.shape.1 ==> out.at(i, j) == f.at(
                    i,
                    prev_wrap_spec(j, grid.shape.1 as int),
                )
        }),
{
    let (nx, ny) = grid.shape;
    if nx == 0 || ny == 0 {
        return Err(AdvectError::InvalidGrid);
    }
    if f.nx != nx || f.ny != ny {
        return Err(AdvectError::ShapeMismatch);
    }
    let seed: T = f.get(0, 0);
    let mut out: ScalarField<T> = ScalarField::filled(nx, ny, seed);
    let mut i: usize = 0;
    while i < nx
        invariant
            i <= nx,
            0 < nx,
            0 < ny,
            f.wf(),
            f.nx == nx,
            f.ny == ny,
            out.wf(),
            out.nx == nx,
            out.ny == ny,
            forall|a: int, b: int|
                0 <= a < i && 0 <= b < ny ==> out.at(a, b) == f.at(
                    a,
                    prev_wrap_spec(b, ny as int),
                ),
        decreases nx - i,
    {
        let mut j: usize = 0;
        while j < ny
            invariant
                i < nx,
                j <= ny,
                0 < nx,
                0 < ny,
                f.wf(),
                f.nx == nx,
                f.ny == ny,
                out.wf(),
                out.nx == nx,
                out.ny == ny,
                forall|a: int, b: int|
                    0 <= a < i && 0 <= b < ny ==> out.at(a, b) == f.at(
                        a,
                        prev_wrap_spec(b, ny as int),
                    ),
                forall|b: int|
                    0 <= b < j ==> out.at(i as int, b) == f.at(i as int, prev_wrap_spec(b, ny as int)),
            decreases ny - j,
        {
            let src: usize = prev_wrap(j, ny);
            let v: T = f.get(i, src);
            out.set_at(i, j, v);
            j = j + 1;
        }
        i = i + 1;
    }
    Ok(out)
}

/// The sum of `g(0) + g(1) + ... + g(k - 1)`.
pub open spec fn index_sum(g: spec_fn(int) -> int, k: int) -> int
    decreases k,
{
    if k <= 0 {
        0
    } else {
        index_sum(g, k - 1) + g(k - 1)
    }
}

/// The sum of `g` over the first `k` indices of a periodic axis of `n`
/// cells, each index replaced by its wrapped predecessor.
pub open spec fn shifted_index_sum(g: spec_fn(int) -> int, n: int, k: int) -> int
    decreases k,
{
    if k <= 0 {
        0
    } else {
        shifted_index_sum(g, n, k - 1) + g(prev_wrap_spec(k - 1, n))
    }
}

/// The sum over the first `k` indices of the difference between each
/// index's value and its wrapped predecessor's value.
pub open spec fn wrap_diff_sum(g: spec_fn(int) -> int, n: int, k: int) -> int
    decreases k,
{
    if k <= 0 {
        0
    } else {
        wrap_diff_sum(g, n, k - 1) + g(k - 1) - g(prev_wrap_spec(k - 1, n))
    }
}

proof fn lemma_shifted_index_sum(g: spec_fn(int) -> int, n: int, k: int)
    requires
        1 <= k <= n,
    ensures
        shifted_index_sum(g, n, k) == g(n - 1) + index_sum(g, k - 1),
    decreases k,
{
    if k == 1 {
        assert(shifted_index_sum(g, n, 1) == shifted_index_sum(g, n, 0) + g(prev_wrap_spec(0, n)));
        assert(prev_wrap_spec(0, n) == n - 1);
    } else {
        lemma_shifted_index_sum(g, n, k - 1);
        assert(prev_wrap_spec(k - 1, n) == k - 2);
        assert(index_sum(g, k - 1) == index_sum(g, k - 2) + g(k - 2));
    }
}

proof fn lemma_wrap_diff_sum_split(g: spec_fn(int) -> int, n: int, k: int)
    requires
        0 <= k,
    ensures
        wrap_diff_sum(g, n, k) == index_sum(g, k) - shifted_index_sum(g, n, k),
    decreases k,
{
    if k > 0 {
        lemma_wrap_diff_sum_split(g, n, k - 1);
    }
}

/// Telescoping over one full wrap of a periodic axis: the per-index
/// differences `g(i) - g(prev(i))` cancel exactly, because the wrapped
/// predecessor map is a bijection of the index range onto itself.
pub proof fn lemma_wrap_diff_sum_zero(g: spec_fn(int) -> int, n: int)
    requires
        1 <= n,
    ensures
        wrap_diff_sum(g, n, n) == 0,
{
    lemma_wrap_diff_sum_split(g, n, n);
    lemma_shifted_index_sum(g, n, n);
}

/// The net outward flux of cell `(i, j)`, with `xf` holding each cell's
/// positive-x face flux and `yf` each cell's positive-y face flux: what
/// leaves through the cell's own positive faces minus what enters through
/// the faces owned by its wrapped negative neighbours.
pub open spec fn net_outflow(xf: ScalarField<i64>, yf: ScalarField<i64>, i: int, j: int) -> int {
    xf.at(i, j) - xf.at(prev_wrap_spec(i, xf.nx as int), j) + yf.at(i, j) - yf.at(
        i,
        prev_wrap_spec(j, yf.ny as int),
    )
}

/// The sum of `net_outflow` over the first `k` cells of row `i`.
pub open spec fn row_net_outflow(
    xf: ScalarField<i64>,
    yf: ScalarField<i64>,
    i: int,
    k: int,
) -> int
    decreases k,
{
    if k <= 0 {
        0
    } else {
        row_net_outflow(xf, yf, i, k - 1) + net_outflow(xf, yf, i, k - 1)
    }
}

/// The sum of `net_outflow` over every cell of the first `k` rows.
pub open spec fn total_net_outflow(xf: ScalarField<i64>, yf: ScalarField<i64>, k: int) -> int
    decreases k,
{
    if k <= 0 {
        0
    } else {
        total_net_outflow(xf, yf, k - 1) + row_net_outflow(xf, yf, k - 1, yf.ny as int)
    }
}

/// The sum of the first `k` values of row `i` of `f`.
pub open spec fn column_sum(f: ScalarField<i64>, i: int, k: int) -> int
    decreases k,
{
    if k <= 0 {
        0
    } else {
        column_sum(f, i, k - 1) + f.at(i, k - 1)
    }
}

/// Row `i` of `yf` as a function of the column index.
pub open spec fn row_values(yf: ScalarField<i64>, i: int) -> spec_fn(int) -> int {
    |j: int| yf.at(i, j) as int
}

/// The per-row total of `xf` as a function of the row index.
pub open spec fn column_totals(xf: ScalarField<i64>) -> spec_fn(int) -> int {
    |i: int| column_sum(xf, i, xf.ny as int)
}

proof fn lemma_row_net_outflow_split(xf: ScalarField<i64>, yf: ScalarField<i64>, i: int, k: int)
    requires
        xf.nx == yf.nx,
        xf.ny == yf.ny,
        0 <= k,
    ensures
        row_net_outflow(xf, yf, i, k) == column_sum(xf, i, k) - column_sum(
            xf,
            prev_wrap_spec(i, xf.nx as int),
            k,
        ) + wrap_diff_sum(row_values(yf, i), yf.ny as int, k),
    decreases k,
{
    if k > 0 {
        lemma_row_net_outflow_split(xf, yf, i, k - 1);
        assert(row_values(yf, i)(k - 1) == yf.at(i, k - 1) as int);
        assert(row_values(yf, i)(prev_wrap_spec(k - 1, yf.ny as int)) == yf.at(
            i,
            prev_wrap_spec(k - 1, yf.ny as int),
        ) as int);
    }
}

proof fn lemma_row_net_outflow_telescopes(xf: ScalarField<i64>, yf: ScalarField<i64>, i: int)
    requires
        xf.nx == yf.nx,
        xf.ny == yf.ny,
        1 <= yf.ny,
    ensures
        row_net_outflow(xf, yf, i, yf.ny as int) == column_totals(xf)(i) - column_totals(xf)(
            prev_wrap_spec(i, xf.nx as int),
        ),
{
    lemma_row_net_outflow_split(xf, yf, i, yf.ny as int);
    lemma_wrap_diff_sum_zero(row_values(yf, i), yf.ny as int);
    assert(column_totals(xf)(i) == column_sum(xf, i, xf.ny as int));
    assert(column_totals(xf)(prev_wrap_spec(i, xf.nx as int)) == column_sum(
        xf,
        prev_wrap_spec(i, xf.nx as int),
        xf.ny as int,
    ));
}

proof fn lemma_total_net_outflow_as_wrap_diff(xf: ScalarField<i64>, yf: ScalarField<i64>, k: int)
    requires
        xf.nx == yf.nx,
        xf.ny == yf.ny,
        1 <= yf.ny,
        0 <= k,
    ensures
        total_net_outflow(xf, yf, k) == wrap_diff_sum(column_totals(xf), xf.nx as int, k),
    decreases k,
{
    if k > 0 {
        lemma_total_net_outflow_as_wrap_diff(xf, yf, k - 1);
        lemma_row_net_outflow_telescopes(xf, yf, k - 1);
    }
}

/// Conservation of the discrete flux balance: over the whole periodic
/// domain the net outward fluxes cancel exactly. Each face flux is counted
/// once positively, by the cell that owns the face, and once negatively,
/// by that cell's wrapped neighbour, so the domain total is zero for every
/// pair of face-flux fields — the exact counterpart of the statement that
/// the volume-weighted sum of the flux divergence vanishes.
pub proof fn lemma_flux_balance_conserves(xf: ScalarField<i64>, yf: ScalarField<i64>)
    requires
        xf.wf(),
        yf.wf(),
        xf.nx == yf.nx,
        xf.ny == yf.ny,
        1 <= xf.nx,
        1 <= xf.ny,
    ensures
        total_net_outflow(xf, yf, xf.nx as int) == 0,
{
    lemma_total_net_outflow_as_wrap_diff(xf, yf, xf.nx as int);
    lemma_wrap_diff_sum_zero(column_totals(xf), xf.nx as int);
}

/// The net flux balance of cell `(i, j)` as a caller assembles it from
/// gathered neighbour fields: own positive faces minus the gathered
/// negative faces.
pub open spec fn gathered_net(
    xf: ScalarField<i64>,
    left: ScalarField<i64>,
    yf: ScalarField<i64>,
    bottom: ScalarField<i64>,
    i: int,
    j: int,
) -> int {
    xf.at(i, j) - left.at(i, j) + yf.at(i, j) - bottom.at(i, j)
}

/// The sum of `gathered_net` over the first `k` cells of row `i`.
pub open spec fn row_gathered_net(
    xf: ScalarField<i64>,
    left: ScalarField<i64>,
    yf: ScalarField<i64>,
    bottom: ScalarField<i64>,
    i: int,
    k: int,
) -> int
    decreases k,
{
    if k <= 0 {
        0
    } else {
        row_gathered_net(xf, left, yf, bottom, i, k - 1) + gathered_net(
            xf,
            left,
            yf,
            bottom,
            i,
            k - 1,
        )
    }
}

/// The sum of `gathered_net` over every cell of the first `k` rows.
pub open spec fn total_gathered_net(
    xf: ScalarField<i64>,
    left: ScalarField<i64>,
    yf: ScalarField<i64>,
    bottom: ScalarField<i64>,
    k: int,
) -> int
    decreases k,
{
    if k <= 0 {
        0
    } else {
        total_gathered_net(xf, left, yf, bottom, k - 1) + row_gathered_net(
            xf,
            left,
            yf,
            bottom,
            k - 1,
            yf.ny as int,
        )
    }
}

/// `left` gathers each cell's wrapped negative-x neighbour value of `xf`,
/// as `prev_x_values` ensures of its result.
pub open spec fn gathers_prev_x(left: ScalarField<i64>, xf: ScalarField<i64>) -> bool {
    forall|i: int, j: int|
        0 <= i < xf.nx && 0 <= j < xf.ny ==> left.at(i, j) == xf.at(
            prev_wrap_spec(i, xf.nx as int),
            j,
        )
}

/// `bottom` gathers each cell's wrapped negative-y neighbour value of
/// `yf`, as `prev_y_values` ensures of its result.
pub open spec fn gathers_prev_y(bottom: ScalarField<i64>, yf: ScalarField<i64>) -> bool {
    forall|i: int, j: int|
        0 <= i < yf.nx && 0 <= j < yf.ny ==> bottom.at(i, j) == yf.at(
            i,
            prev_wrap_spec(j, yf.ny as int),
        )
}

proof fn lemma_row_gathered_matches(
    xf: ScalarField<i64>,
    left: ScalarField<i64>,
    yf: ScalarField<i64>,
    bottom: ScalarField<i64>,
    i: int,
    k: int,
)
    requires
        xf.nx == yf.nx,
        xf.ny == yf.ny,
        gathers_prev_x(left, xf),
        gathers_prev_y(bottom, yf),
        0 <= i < xf.nx,
        0 <= k <= xf.ny,
    ensures
        row_gathered_net(xf, left, yf, bottom, i, k) == row_net_outflow(xf, yf, i, k),
    decreases k,
{
    if k > 0 {
        lemma_row_gathered_matches(xf, left, yf, bottom, i, k - 1);
    }
}

proof fn lemma_total_gathered_matches(
    xf: ScalarField<i64>,
    left: ScalarField<i64>,
    yf: ScalarField<i64>,
    bottom: ScalarField<i64>,
    k: int,
)
    requires
        xf.nx == yf.nx,
        xf.ny == yf.ny,
        gathers_prev_x(left, xf),
        gathers_prev_y(bottom, yf),
        0 <= k <= xf.nx,
    ensures
        total_gathered_net(xf, left, yf, bottom, k) == total_net_outflow(xf, yf, k),
    decreases k,
{
    if k > 0 {
        lemma_total_gathered_matches(xf, left, yf, bottom, k - 1);
        lemma_row_gathered_matches(xf, left, yf, bottom, k - 1, xf.ny as int);
    }
}

/// Conservation through the executable stencil: whenever `left` and
/// `bottom` hold the wrapped neighbour gathers of the face-flux fields —
/// exactly what `prev_x_values` and `prev_y_values` ensure of their
/// results — the per-cell balances a caller then forms, own faces minus
/// gathered faces, sum to zero over the whole periodic domain.
pub proof fn lemma_gathered_flux_balance(
    xf: ScalarField<i64>,
    left: ScalarField<i64>,
    yf: ScalarField<i64>,
    bottom: ScalarField<i64>,
)
    requires
        xf.wf(),
        yf.wf(),
        xf.nx == yf.nx,
        xf.ny == yf.ny,
        1 <= xf.nx,
        1 <= xf.ny,
        gathers_prev_x(left, xf),
        gathers_prev_y(bottom, yf),
    ensures
        total_gathered_net(xf, left, yf, bottom, xf.nx as int) == 0,
{
    lemma_total_gathered_matches(xf, left, yf, bottom, xf.nx as int);
    lemma_flux_balance_conserves(xf, yf);
}

} // verus!
