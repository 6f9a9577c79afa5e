//! Command-line choices that reach the library's logic.

use vstd::prelude::*;

verus! {

/// Row order (and column grouping) for `matrix show`.
#[derive(Debug, Clone, Copy, PartialEq, Eq, Structural)]
pub enum MatrixSortBy {
    /// Group rows by attractor, then by stressor id.
    Attractor,
    /// As `Attractor`, and reorder columns fission first, then fusion clusters.
    FusionFission,
    /// Rows by stressor id.
    Id,
    /// Rows by (case-folded) shortname, falling back to the id.
    Alphabetical,
}

} // verus!
