//! Numbers below 2^8 in a column of type `smallint`.

use vstd::prelude::*;

verus! {

/// A number below 2^8 in a column of type `smallint`.
#[derive(Debug, Clone, Copy, PartialEq, Eq, Structural)]
pub struct PgSmallIntU8(pub u8);

} // verus!
