//! Numbers below 2^32 in a column of type `bigint`.

use vstd::prelude::*;

verus! {

/// A number below 2^32 in a column of type `bigint`.
#[derive(Debug, Clone, Copy, PartialEq, Eq, Structural)]
pub struct PgBigIntU32(pub u32);

} // verus!
