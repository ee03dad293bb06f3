//! Numbers below 2^64 in a column of type `numeric`.

use vstd::prelude::*;

verus! {

/// A number below 2^64 in a column of type `numeric`.
#[derive(Debug, Clone, Copy, PartialEq, Eq, Structural)]
pub struct PgNumericU64(pub u64);

} // verus!
