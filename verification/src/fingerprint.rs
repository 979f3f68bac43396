//! A rolling SHA-256 fingerprint: bytes go in chunk by chunk, and the digest
//! of all bytes so far can be taken at any time without ending the hash.
use crate::trusted::{
    absorbed, hasher_clone, hasher_finalize, hasher_new, hasher_update, sha256,
};
use vstd::prelude::*;

verus! {

/// The most bytes a fingerprint takes in all: one less than 2 to the power
/// of 61.
pub const HASH_INPUT_MAX: u64 = 0x1fff_ffff_ffff_ffff;

/// A running hash together with the count of the bytes it was fed.
#[derive(Debug)]
pub struct RollingDigest {
    state: sha2::Sha256,
    len: u64,
}

impl RollingDigest {
    #[verifier::type_invariant]
    spec fn counts_its_input(self) -> bool {
        self.len == absorbed(self.state).len() && self.len <= HASH_INPUT_MAX
    }

    /// The bytes fed so far, in order.
    pub closed spec fn fed(&self) -> Seq<u8> {
        absorbed(self.state)
    }

    /// A fingerprint of no bytes.
    pub fn new() -> (digest: RollingDigest)
        ensures
            digest.fed() == Seq::<u8>::empty(),
    {
        RollingDigest { state: hasher_new(), len: 0 }
    }

    /// The number of bytes fed so far.
    pub fn fed_len(&self) -> (n: u64)
        ensures
            n == self.fed().len(),
            n <= HASH_INPUT_MAX,
    {
        proof {
            use_type_invariant(self);
        }
        self.len
    }

    /// Whether `more` further bytes still fit under the hash's input limit.
    pub fn has_room(&self, more: usize) -> (fits: bool)
        ensures
            fits == (self.fed().len() + more <= HASH_INPUT_MAX),
    {
        proof {
            use_type_invariant(self);
        }
        more as u64 <= HASH_INPUT_MAX - self.len
    }

    /// Feeds `data` after what was fed before.
    pub fn update(&mut self, data: &[u8])
        requires
            old(self).fed().len() + data@.len() <= HASH_INPUT_MAX,
        ensures
            final(self).fed() == old(self).fed() + data@,
    {
        proof {
            use_type_invariant(&*self);
        }
        let mut state = hasher_clone(&self.state);
        hasher_update(&mut state, data);
        let len: u64 = self.len + data.len() as u64;
        *self = RollingDigest { state, len };
    }

    /// The digest of the bytes fed so far. The hash goes on afterwards.
    pub fn snapshot(&self) -> (digest: [u8; 32])
        ensures
            digest@ == sha256(self.fed()),
    {
        hasher_finalize(hasher_clone(&self.state))
    }
}

} // verus!
