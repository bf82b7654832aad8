//! Ceilings that tips and patterns share.
use vstd::prelude::*;

verus! {

/// The longest side of a bitmap.
pub const MAX_DIMENSION: u32 = 16384;

/// The longest name, in code units.
pub const MAX_NAME_CODE_UNITS: usize = 1024 * 1024;

/// The largest decoded tip, in bytes.
pub const MAX_TIP_DECODED_BYTES: usize = 256 * 1024 * 1024;

} // verus!
