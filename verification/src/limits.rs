//! Fixed numeric configuration.

use vstd::prelude::*;

verus! {

/// Number of bits of a RivetLua integer.
pub const INTEGER_BITS: u32 = 64;

/// Name of the fixed numeric configuration used by tests and reports.
pub const NUMBER_CONFIGURATION: &'static str = "i64f64";

/// Smallest RivetLua integer.
pub const INTEGER_MIN: i64 = -9223372036854775808i64;

/// Largest RivetLua integer.
pub const INTEGER_MAX: i64 = 9223372036854775807i64;

} // verus!
