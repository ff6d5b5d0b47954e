//! The crate version, surfaced by the API for diagnostics.

use vstd::prelude::*;

verus! {

/// Crate version, surfaced by the API for diagnostics.
pub const VERSION: &'static str = "0.1.0";

} // verus!
