//! Capability bits that a node advertises to its peers in one byte.

use vstd::prelude::*;

verus! {

/// Set in a capability byte when the sender can decode LZ4 payloads.
pub const LZ4: u8 = 0x01;

} // verus!
