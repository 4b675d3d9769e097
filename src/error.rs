//! Errors of the search.

use vstd::prelude::*;

verus! {

/// Why a search or a move could not be made.
#[derive(Copy, Clone, Debug, PartialEq, Eq, Structural)]
pub enum SearchError {
    /// Fewer than four cities, too many cities, or a zero batch width or
    /// tabu capacity.
    InvalidInput,
    /// A tour that is not a permutation of the city indices.
    InvalidTour,
}

} // verus!
