//! Request flag bits.

use vstd::prelude::*;

verus! {

/// Integrity check bit in flags byte.
pub const IC: u8 = 1;

/// Handle field is valid.
pub const HAS_HANDLE: u8 = 2;

/// EID field is valid.
pub const HAS_EID: u8 = 4;

/// Tag field is valid.
pub const HAS_TAG: u8 = 8;

} // verus!
