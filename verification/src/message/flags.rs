//! Bits of the header's flag byte.

use vstd::prelude::*;

verus! {

/// Set when the payload is LZ4-compressed.
pub const COMPRESSED: u8 = 0x01;

} // verus!
