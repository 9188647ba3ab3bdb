use advection::flux::{prev_x_values, prev_y_values};
use advection::grid::{next_wrap, prev_wrap, Grid, ScalarField};
use advection::upwind::{upwind_interpolation, AdvectError};

/// Build a field from rows given in `(i, j)` indexing: `rows[i][j]` is the
/// value of cell `(i, j)`.
fn field_from_rows<T: Copy>(rows: &[&[T]]) -> ScalarField<T> {
    let nx = rows.len();
    let ny = rows[0].len();
    let mut f = ScalarField::filled(nx, ny, rows[0][0]);
    for (i, row) in rows.iter().enumerate() {
        assert_eq!(row.len(), ny);
        for (j, v) in row.iter().enumerate() {
            f.set_at(i, j, *v);
        }
    }
    f
}

/// The sign field an f64 caller derives from a velocity field: `true`
/// exactly where the velocity is strictly positive.
fn sign_field(vel: &ScalarField<f64>) -> ScalarField<bool> {
    let mut s = ScalarField::filled(vel.nx, vel.ny, false);
    for i in 0..vel.nx {
        for j in 0..vel.ny {
            s.set_at(i, j, vel.get(i, j) > 0.0);
        }
    }
    s
}

fn uniform_f64(nx: usize, ny: usize, v: f64) -> ScalarField<f64> {
    ScalarField::filled(nx, ny, v)
}

#[test]
fn wrap_indices() {
    assert_eq!(next_wrap(0, 4), 1);
    assert_eq!(next_wrap(2, 4), 3);
    assert_eq!(next_wrap(3, 4), 0);
    assert_eq!(prev_wrap(0, 4), 3);
    assert_eq!(prev_wrap(1, 4), 0);
    assert_eq!(prev_wrap(3, 4), 2);
    assert_eq!(next_wrap(0, 1), 0);
    assert_eq!(prev_wrap(0, 1), 0);
}

#[test]
fn field_storage_round_trip() {
    let mut f: ScalarField<i64> = ScalarField::filled(3, 2, 7);
    for i in 0..3 {
        for j in 0..2 {
            assert_eq!(f.get(i, j), 7);
        }
    }
    f.set_at(2, 1, -5);
    f.set_at(0, 0, 11);
    assert_eq!(f.get(2, 1), -5);
    assert_eq!(f.get(0, 0), 11);
    assert_eq!(f.get(1, 1), 7);
}

#[test]
fn grid_stores_geometry() {
    let grid: Grid<f64> = Grid::new((4, 2), (0.0, 0.0), (2.0, 1.0));
    assert_eq!(grid.shape, (4, 2));
    assert_eq!(grid.origin, (0.0, 0.0));
    assert_eq!(grid.size, (2.0, 1.0));
    assert!(grid.shape_is_valid());
    let degenerate: Grid<f64> = Grid::new((0, 2), (0.0, 0.0), (1.0, 1.0));
    assert!(!degenerate.shape_is_valid());
}

#[test]
fn pure_upwind_positive_velocity() {
    // Velocity 1 everywhere: every face takes its own cell's value.
    let field = field_from_rows::<f64>(&[&[1.0, 2.0, 3.0], &[4.0, 5.0, 6.0]]);
    let x_vel = uniform_f64(2, 3, 1.0);
    let y_vel = uniform_f64(2, 3, 1.0);
    let grid: Grid<f64> = Grid::new((2, 3), (0.0, 0.0), (1.0, 1.0));
    let (xi, yi) =
        upwind_interpolation(&field, &sign_field(&x_vel), &sign_field(&y_vel), &grid).unwrap();
    for i in 0..2 {
        for j in 0..3 {
            assert_eq!(xi.get(i, j), field.get(i, j));
            assert_eq!(yi.get(i, j), field.get(i, j));
        }
    }
}

#[test]
fn pure_downwind_negative_velocity() {
    // Velocity -1 everywhere: every positive-x face takes the wrapped next
    // cell's value, field[(i + 1) mod nx][j].
    let field = field_from_rows::<f64>(&[&[1.0, 2.0], &[3.0, 4.0], &[5.0, 6.0]]);
    let x_vel = uniform_f64(3, 2, -1.0);
    let y_vel = uniform_f64(3, 2, -1.0);
    let grid: Grid<f64> = Grid::new((3, 2), (0.0, 0.0), (1.0, 1.0));
    let (xi, yi) =
        upwind_interpolation(&field, &sign_field(&x_vel), &sign_field(&y_vel), &grid).unwrap();
    for i in 0..3 {
        for j in 0..2 {
            assert_eq!(xi.get(i, j), field.get((i + 1) % 3, j));
            assert_eq!(yi.get(i, j), field.get(i, (j + 1) % 2));
        }
    }
}

#[test]
fn zero_velocity_tie_break() {
    // Velocity exactly 0.0 takes the downwind branch deterministically.
    let field = field_from_rows::<f64>(&[&[1.0, 2.0], &[3.0, 4.0]]);
    let x_vel = uniform_f64(2, 2, 0.0);
    let y_vel = uniform_f64(2, 2, 1.0);
    let grid: Grid<f64> = Grid::new((2, 2), (0.0, 0.0), (1.0, 1.0));
    let (xi, _) =
        upwind_interpolation(&field, &sign_field(&x_vel), &sign_field(&y_vel), &grid).unwrap();
    for i in 0..2 {
        for j in 0..2 {
            assert_eq!(xi.get(i, j), field.get((i + 1) % 2, j));
        }
    }
}

#[test]
fn periodic_wrap_last_column() {
    // Negative velocity in the last column: its positive-x face wraps to
    // the first column.
    let field = field_from_rows::<f64>(&[&[1.0, 2.0], &[3.0, 4.0], &[5.0, 6.0]]);
    let x_vel = uniform_f64(3, 2, -2.5);
    let y_vel = uniform_f64(3, 2, 1.0);
    let grid: Grid<f64> = Grid::new((3, 2), (0.0, 0.0), (1.0, 1.0));
    let (xi, _) =
        upwind_interpolation(&field, &sign_field(&x_vel), &sign_field(&y_vel), &grid).unwrap();
    for j in 0..2 {
        assert_eq!(xi.get(2, j), field.get(0, j));
    }
}

#[test]
fn mixed_sign_selection_integers() {
    // Mixed signs on an integer-valued field: positive picks the cell
    // itself, non-positive picks the wrapped next cell.
    let field = field_from_rows::<i64>(&[&[10, 20], &[30, 40]]);
    let x_up = field_from_rows::<bool>(&[&[true, false], &[false, true]]);
    let y_up = field_from_rows::<bool>(&[&[false, true], &[true, false]]);
    let grid: Grid<i64> = Grid::new((2, 2), (0, 0), (1, 1));
    let (xi, yi) = upwind_interpolation(&field, &x_up, &y_up, &grid).unwrap();
    assert_eq!(xi.get(0, 0), 10);
    assert_eq!(xi.get(0, 1), 40);
    assert_eq!(xi.get(1, 0), 10);
    assert_eq!(xi.get(1, 1), 40);
    assert_eq!(yi.get(0, 0), 20);
    assert_eq!(yi.get(0, 1), 20);
    assert_eq!(yi.get(1, 0), 30);
    assert_eq!(yi.get(1, 1), 30);
}

#[test]
fn invalid_grid_is_reported() {
    let field = uniform_f64(2, 2, 1.0);
    let up = ScalarField::filled(2, 2, true);
    let grid: Grid<f64> = Grid::new((0, 2), (0.0, 0.0), (1.0, 1.0));
    let r = upwind_interpolation(&field, &up, &up, &grid);
    assert!(matches!(r, Err(AdvectError::InvalidGrid)));
    let s = prev_x_values(&field, &grid);
    assert!(matches!(s, Err(AdvectError::InvalidGrid)));
}

#[test]
fn shape_mismatch_is_reported() {
    let field = uniform_f64(2, 3, 1.0);
    let up = ScalarField::filled(2, 2, true);
    let grid: Grid<f64> = Grid::new((2, 2), (0.0, 0.0), (1.0, 1.0));
    let r = upwind_interpolation(&field, &up, &up, &grid);
    assert!(matches!(r, Err(AdvectError::ShapeMismatch)));
    let s = prev_y_values(&field, &grid);
    assert!(matches!(s, Err(AdvectError::ShapeMismatch)));
}

#[test]
fn stencil_shifts_wrap() {
    let f = field_from_rows::<i64>(&[&[1, 2], &[3, 4], &[5, 6]]);
    let grid: Grid<i64> = Grid::new((3, 2), (0, 0), (1, 1));
    let px = prev_x_values(&f, &grid).unwrap();
    let py = prev_y_values(&f, &grid).unwrap();
    for i in 0..3 {
        for j in 0..2 {
            assert_eq!(px.get(i, j), f.get((i + 2) % 3, j));
            assert_eq!(py.get(i, j), f.get(i, (j + 1) % 2));
        }
    }
}

#[test]
fn integer_flux_balance_sums_to_zero() {
    // The exact form of conservation: for any per-cell face fluxes, the
    // net outflows summed over the periodic domain cancel.
    let xf = field_from_rows::<i64>(&[&[3, -1, 4], &[-7, 2, 9], &[0, 5, -8]]);
    let yf = field_from_rows::<i64>(&[&[1, 6, -2], &[8, -3, 7], &[-4, 0, 2]]);
    let grid: Grid<i64> = Grid::new((3, 3), (0, 0), (1, 1));
    let left = prev_x_values(&xf, &grid).unwrap();
    let bottom = prev_y_values(&yf, &grid).unwrap();
    let mut total: i64 = 0;
    for i in 0..3 {
        for j in 0..3 {
            total += xf.get(i, j) - left.get(i, j) + yf.get(i, j) - bottom.get(i, j);
        }
    }
    assert_eq!(total, 0);
}

#[test]
fn end_to_end_divergence() {
    // A full advection evaluation in f64, with the arithmetic a caller
    // performs written out here: grid 2x2 over a unit square, so
    // dx = dy = 0.5 and cell volume 0.25; field [[1,2],[3,4]]; unit
    // velocities, so the interpolants equal the field, and the four cell
    // divergences come out to [[-6,-2],[2,6]] with a zero domain total.
    let grid: Grid<f64> = Grid::new((2, 2), (0.0, 0.0), (1.0, 1.0));
    let (nx, ny) = grid.shape;
    let dx = grid.size.0 / nx as f64;
    let dy = grid.size.1 / ny as f64;
    assert_eq!(dx, 0.5);
    assert_eq!(dy, 0.5);
    let volume = dx * dy;
    assert_eq!(volume, 0.25);

    let field = field_from_rows::<f64>(&[&[1.0, 2.0], &[3.0, 4.0]]);
    let x_vel = uniform_f64(2, 2, 1.0);
    let y_vel = uniform_f64(2, 2, 1.0);
    let (xi, yi) =
        upwind_interpolation(&field, &sign_field(&x_vel), &sign_field(&y_vel), &grid).unwrap();
    for i in 0..nx {
        for j in 0..ny {
            assert_eq!(xi.get(i, j), field.get(i, j));
            assert_eq!(yi.get(i, j), field.get(i, j));
        }
    }

    let mut x_flux = ScalarField::filled(nx, ny, 0.0f64);
    let mut y_flux = ScalarField::filled(nx, ny, 0.0f64);
    for i in 0..nx {
        for j in 0..ny {
            x_flux.set_at(i, j, x_vel.get(i, j) * xi.get(i, j) * dy);
            y_flux.set_at(i, j, y_vel.get(i, j) * yi.get(i, j) * dx);
        }
    }
    let left = prev_x_values(&x_flux, &grid).unwrap();
    let bottom = prev_y_values(&y_flux, &grid).unwrap();

    let mut output = ScalarField::filled(nx, ny, 0.0f64);
    for i in 0..nx {
        for j in 0..ny {
            let net =
                x_flux.get(i, j) - left.get(i, j) + y_flux.get(i, j) - bottom.get(i, j);
            output.set_at(i, j, net / volume);
        }
    }
    assert_eq!(output.get(0, 0), -6.0);
    assert_eq!(output.get(0, 1), -2.0);
    assert_eq!(output.get(1, 0), 2.0);
    assert_eq!(output.get(1, 1), 6.0);

    let mut total = 0.0f64;
    for i in 0..nx {
        for j in 0..ny {
            total += output.get(i, j) * volume;
        }
    }
    assert_eq!(total, 0.0);
}
