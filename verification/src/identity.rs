//! Deterministic identity material. A relay started with a one-byte seed
//! derives its keypair from fixed 32-byte seed material: the seed stands
//! first, every other byte is zero. Turning this material into an actual
//! keypair is the host's cryptographic concern.

use vstd::prelude::*;

verus! {

/// The 32 bytes of key seed material for a configuration seed byte.
pub fn seed_to_key_bytes(seed: u8) -> (r: Vec<u8>)
    ensures
        r@.len() == 32,
        r@[0] == seed,
        forall|i: int| 1 <= i < 32 ==> r@[i] == 0u8,
{
    let mut r: Vec<u8> = Vec::new();
    r.push(seed);
    let mut i: usize = 1;
    while i < 32
        invariant
            1 <= i <= 32,
            r@.len() == i,
            r@[0] == seed,
            forall|j: int| 1 <= j < i ==> r@[j] == 0u8,
        decreases 32 - i,
    {
        r.push(0);
        i += 1;
    }
    r
}

} // verus!
