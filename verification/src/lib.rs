pub mod exchange;
pub mod handler;
pub mod message;

use vstd::prelude::*;

verus! {

/// Derives the ping correlation nonce from a probe timestamp given in
/// milliseconds since the epoch: whole seconds, truncated to 32 bits.
pub open spec fn spec_nonce_of(millis: u64) -> u32 {
    ((millis / 1000) % 0x1_0000_0000) as u32
}

/// Executable nonce derivation; see `spec_nonce_of`.
pub fn nonce_of_millis(millis: u64) -> (n: u32)
    ensures
        n == spec_nonce_of(millis),
{
    ((millis / 1000) % 0x1_0000_0000) as u32
}

} // verus!
