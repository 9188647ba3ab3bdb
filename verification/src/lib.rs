//! A finite-volume advection kernel on a uniform, periodic, two-dimensional
//! structured grid.
//!
//! The crate verifies the discrete structure of the scheme: the dense
//! row-major field layout, the periodic wraparound index maps, the
//! first-order upwind face selection with its deterministic tie-break, and
//! the conservative stencil in which each cell's negative face reuses its
//! neighbour's positive face, so that the net flux balance telescopes to
//! zero over the whole domain.
//!
//! The kernel is generic in the numeric value type: fields carry values of
//! any copyable type, and the upwind choice is driven by the sign of the
//! face-normal velocity, supplied as a boolean field (`true` where the
//! velocity is strictly positive). A caller working in some concrete
//! arithmetic instantiates the fields with its numbers, derives the sign
//! fields, and performs the per-cell products and the division by the cell
//! volume itself; every indexing, selection and neighbour-lookup decision is
//! made and proved here.

pub mod grid;
pub mod upwind;
pub mod flux;
