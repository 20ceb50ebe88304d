//! The instance-owned hasher: FNV-1a over the characters of a string.
//!
//! The hasher only computes bucket keys for the dedup table; it never stores
//! data. It is deterministic per seed, so an interner's behaviour is
//! reproducible when the seed is chosen explicitly.

use vstd::prelude::*;
use vstd::string::StrSliceExecFns;

verus! {

/// Multiplier of the 64-bit FNV-1a hash.
pub const FNV_PRIME: u64 = 0x100000001b3;

/// Standard initial state of the 64-bit FNV-1a hash; the default seed.
pub const FNV_OFFSET_BASIS: u64 = 0xcbf29ce484222325;

/// One FNV-1a round: folds a single character into the running state.
pub open spec fn fnv_step(h: u64, c: char) -> u64 {
    (h ^ (c as u64)).wrapping_mul(FNV_PRIME)
}

/// Hash of a character sequence: FNV-1a rounds folded left to right,
/// starting from `seed`.
pub open spec fn hash_chars(seed: u64, s: Seq<char>) -> u64
    decreases s.len(),
{
    if s.len() == 0 {
        seed
    } else {
        fnv_step(hash_chars(seed, s.drop_last()), s.last())
    }
}

/// Hash builder owned by one interner instance.
///
/// Holds the seed that every hash computation of that instance starts from.
#[derive(Clone, Copy, Debug, PartialEq, Eq, Structural)]
pub struct FnvHasher {
    seed: u64,
}

impl FnvHasher {
    /// The seed this hasher starts every computation from.
    pub closed spec fn seed(self) -> u64 {
        self.seed
    }

    /// Builds a hasher with an explicit seed, for reproducible instances.
    pub fn with_seed(seed: u64) -> (r: FnvHasher)
        ensures
            r.seed() == seed,
    {
        FnvHasher { seed }
    }

    /// Computes the hash of `s` under this hasher's seed.
    pub fn hash_of(&self, s: &str) -> (h: u64)
        ensures
            h == hash_chars(self.seed(), s@),
    {
        let n: usize = s.unicode_len();
        let mut h: u64 = self.seed;
        let mut i: usize = 0;
        while i < n
            invariant
                n == s@.len(),
                i <= n,
                h == hash_chars(self.seed, s@.subrange(0, i as int)),
            decreases n - i,
        {
            let c: char = s.get_char(i);
            h = (h ^ (c as u64)).wrapping_mul(FNV_PRIME);
            proof {
                let pre = s@.subrange(0, (i + 1) as int);
                assert(pre.drop_last() =~= s@.subrange(0, i as int));
                assert(pre.last() == s@[i as int]);
            }
            i = i + 1;
        }
        proof {
            assert(s@.subrange(0, n as int) =~= s@);
        }
        h
    }
}

impl Default for FnvHasher {
    /// The default hasher starts from the standard FNV offset basis.
    fn default() -> (r: FnvHasher)
        ensures
            r.seed() == FNV_OFFSET_BASIS,
    {
        FnvHasher { seed: FNV_OFFSET_BASIS }
    }
}

} // verus!
