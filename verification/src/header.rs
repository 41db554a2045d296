//! Collaborator types shared across the tensor operations.

use vstd::prelude::*;

verus! {

/// The dimension along which a slice or reduction operates: across
/// columns, down the rows, or none at all — flattening the array to a
/// plain element range.
#[derive(Debug, Clone, Copy, PartialEq, Eq)]
pub enum Axis {
    /// Operate along columns: horizontal operations.
    Columns,
    /// Operate along rows: vertical operations.
    Rows,
    /// Flatten all dimensions: one-dimensional output regardless of
    /// the input shape.
    Flatten,
}

} // verus!
