//! FNV-1a hashing over byte strings, used to derive image seeds.

use vstd::prelude::*;

verus! {

/// The 64-bit FNV offset basis.
pub const FNV_OFFSET_BASIS: u64 = 14695981039346656037;

/// The 64-bit FNV prime.
pub const FNV_PRIME: u64 = 1099511628211;

/// The FNV-1a state reached from `state` after absorbing `bytes` in order:
/// each byte is XORed into the state, which is then multiplied by the FNV
/// prime modulo 2^64.
pub open spec fn fnv1a_update_spec(state: u64, bytes: Seq<u8>) -> u64
    decreases bytes.len(),
{
    if bytes.len() == 0 {
        state
    } else {
        fnv1a_update_spec((state ^ (bytes[0] as u64)).wrapping_mul(FNV_PRIME), bytes.skip(1))
    }
}

/// An incremental FNV-1a hasher (not cryptographically secure).
#[derive(Clone, Copy, Debug, PartialEq, Eq, Structural)]
pub struct FnvHasher(pub u64);

impl FnvHasher {
    /// A hasher in the initial state, holding the FNV offset basis.
    pub fn new() -> (h: FnvHasher)
        ensures
            h.0 == FNV_OFFSET_BASIS,
    {
        FnvHasher(FNV_OFFSET_BASIS)
    }

    /// Absorbs `input` into the state, byte by byte.
    pub fn update(&mut self, input: &[u8])
        ensures
            final(self).0 == fnv1a_update_spec(old(self).0, input@),
    {
        let n = input.len();
        let mut i: usize = 0;
        proof {
            assert(input@.skip(0) =~= input@);
        }
        while i < n
            invariant
                n == input@.len(),
                i <= n,
                fnv1a_update_spec(old(self).0, input@) == fnv1a_update_spec(
                    self.0,
                    input@.skip(i as int),
                ),
            decreases n - i,
        {
            let byte = input[i];
            proof {
                assert(input@.skip(i as int).len() != 0);
                assert(input@.skip(i as int)[0] == input@[i as int]);
                assert(input@.skip(i as int).skip(1) =~= input@.skip(i as int + 1));
            }
            self.0 = (self.0 ^ (byte as u64)).wrapping_mul(FNV_PRIME);
            i = i + 1;
        }
        proof {
            assert(input@.skip(n as int) =~= Seq::<u8>::empty());
        }
    }

    /// Hands the current state out as the hash value.
    pub fn output(self) -> (r: u64)
        ensures
            r == self.0,
    {
        self.0
    }
}

impl Default for FnvHasher {
    /// Same as `FnvHasher::new`.
    fn default() -> (h: Self)
        ensures
            h.0 == FNV_OFFSET_BASIS,
    {
        FnvHasher(FNV_OFFSET_BASIS)
    }
}

} // verus!
