use vstd::prelude::*;

verus! {

/// Capacity of the hash and chaining-key buffers: the longest digest that
/// any supported hash algorithm produces.
pub const MAXHASHLEN: usize = 64;

/// Length of a cipher key.
pub const CIPHERKEYLEN: usize = 32;

/// Length of the authentication tag that the cipher appends.
pub const TAGLEN: usize = 16;

} // verus!
