//! The candidate: one file that may turn out to be a duplicate, with its
//! size, its read progress and the fingerprint of what was read so far.
use crate::algo::GetKey;
use crate::fingerprint::{RollingDigest, HASH_INPUT_MAX};
use crate::trusted::sha256;
use vstd::prelude::*;
use vstd::std_specs::cmp::PartialEqSpecImpl;

verus! {

/// The grouping key of a candidate: the file's length and the digest of the
/// bytes read so far. Two candidates can still be duplicates of each other
/// only while their keys are equal.
#[derive(Debug)]
pub struct Key {
    /// Length of the file, in bytes.
    pub len: u64,
    /// Digest of the bytes read so far; all zero before the first read.
    pub digest_snapshot: [u8; 32],
}

impl Key {
    /// This is the key of a file of `len` bytes of which nothing was read.
    pub open spec fn is_initial(&self, len: u64) -> bool {
        &&& self.len == len
        &&& forall|i: int| 0 <= i < 32 ==> self.digest_snapshot[i] == 0
    }

    /// The key of a file of `len` bytes of which nothing was read: the
    /// digest is all zero.
    pub fn new(len: u64) -> (key: Key)
        ensures
            key.is_initial(len),
    {
        Key { len, digest_snapshot: [0; 32] }
    }
}

impl Clone for Key {
    fn clone(&self) -> (key: Key)
        ensures
            key == *self,
    {
        Key { len: self.len, digest_snapshot: self.digest_snapshot }
    }
}

impl PartialEq for Key {
    fn eq(&self, other: &Self) -> (r: bool) {
        if self.len != other.len {
            return false;
        }
        let mut i: usize = 0;
        while i < 32
            invariant
                i <= 32,
                forall|j: int| 0 <= j < i ==> self.digest_snapshot[j] == other.digest_snapshot[j],
            decreases 32 - i,
        {
            if self.digest_snapshot[i] != other.digest_snapshot[i] {
                return false;
            }
            i += 1;
        }
        assert(self.digest_snapshot =~= other.digest_snapshot);
        true
    }
}

impl PartialEqSpecImpl for Key {
    open spec fn obeys_eq_spec() -> bool {
        true
    }

    open spec fn eq_spec(&self, other: &Key) -> bool {
        self.len == other.len && self.digest_snapshot == other.digest_snapshot
    }
}

/// A single file which may or may not be a duplicate of another file.
#[derive(Debug)]
pub struct PossDupe {
    /// The path that the file was listed under.
    pub path: String,
    /// The grouping key: length and digest so far.
    pub key: Key,
    /// Length of the file as found when it was listed.
    pub file_len: u64,
    /// Number of bytes read from the file so far.
    pub bytes_read: u64,
    /// The running hash of the bytes read.
    pub digest: RollingDigest,
}

impl PossDupe {
    /// The digest snapshot is up to date: it is the digest of what was
    /// hashed, or still the initial one while nothing was hashed.
    pub open spec fn snapshot_is_current(&self) -> bool {
        ||| self.key.digest_snapshot@ == sha256(self.digest.fed())
        ||| (self.digest.fed().len() == 0 && self.key.is_initial(self.key.len))
    }

    /// The candidate is consistent: its key carries the file's length, the
    /// read position lies within the file, and the digest snapshot is up to
    /// date.
    pub open spec fn well_formed(&self) -> bool {
        &&& self.key.len == self.file_len
        &&& self.bytes_read <= self.file_len
        &&& self.snapshot_is_current()
    }

    /// Exactly the bytes read went into the digest: as many were hashed as
    /// were read.
    pub open spec fn tracks_reads(&self) -> bool {
        self.digest.fed().len() == self.bytes_read
    }

    /// The candidate as `new` makes it for a file of `file_len` bytes:
    /// nothing read, nothing hashed, the initial key.
    pub open spec fn is_unread(&self, file_len: u64) -> bool {
        &&& self.key.is_initial(file_len)
        &&& self.file_len == file_len
        &&& self.bytes_read == 0
        &&& self.digest.fed() == Seq::<u8>::empty()
    }

    /// The number of bytes that are still to be read, never below zero.
    pub open spec fn remaining(&self) -> u64 {
        if self.key.len >= self.bytes_read {
            (self.key.len - self.bytes_read) as u64
        } else {
            0
        }
    }

    /// A candidate for the file of `file_len` bytes at `path`, of which
    /// nothing was read yet.
    pub fn new(path: &str, file_len: u64) -> (pd: PossDupe)
        ensures
            pd.well_formed(),
            pd.tracks_reads(),
            pd.path@ == path@,
            pd.is_unread(file_len),
    {
        PossDupe {
            path: path.to_owned(),
            key: Key::new(file_len),
            file_len,
            bytes_read: 0,
            digest: RollingDigest::new(),
        }
    }

    /// The number of bytes that are still to be read, never below zero.
    pub fn bytes_remaining(&self) -> (n: u64)
        ensures
            n == self.remaining(),
    {
        self.key.len.saturating_sub(self.bytes_read)
    }

    /// Feeds `buffer` to the running hash and makes the key's digest the
    /// digest of everything hashed so far. The read position stays as it is.
    pub fn update_digest(&mut self, buffer: &[u8])
        requires
            old(self).digest.fed().len() + buffer@.len() <= HASH_INPUT_MAX,
        ensures
            final(self).snapshot_is_current(),
            old(self).well_formed() ==> final(self).well_formed(),
            final(self).digest.fed() == old(self).digest.fed() + buffer@,
            final(self).key.digest_snapshot@ == sha256(final(self).digest.fed()),
            final(self).key.len == old(self).key.len,
            final(self).path == old(self).path,
            final(self).file_len == old(self).file_len,
            final(self).bytes_read == old(self).bytes_read,
    {
        self.digest.update(buffer);
        self.key.digest_snapshot = self.digest.snapshot();
    }

    /// The length of the next read: `read_size` bytes, or what is left of
    /// the file if that is less.
    pub fn read_len(&self, read_size: usize) -> (n: usize)
        ensures
            n == if read_size <= self.remaining() {
                read_size as int
            } else {
                self.remaining() as int
            },
    {
        let remaining = self.bytes_remaining();
        if read_size as u64 <= remaining {
            read_size
        } else {
            remaining as usize
        }
    }

    /// Whether `chunk` can be taken as the next bytes of the file: it must
    /// not reach beyond the file's length nor beyond what the hash takes.
    pub open spec fn accepts(&self, chunk: Seq<u8>) -> bool {
        &&& chunk.len() <= self.remaining()
        &&& self.digest.fed().len() + chunk.len() <= HASH_INPUT_MAX
    }

    /// Takes `chunk` as the next bytes read from the file: the read position
    /// moves on by its length and the digest covers it.
    pub fn advance(&mut self, chunk: &[u8])
        requires
            old(self).accepts(chunk@),
        ensures
            final(self).snapshot_is_current(),
            old(self).well_formed() ==> final(self).well_formed(),
            old(self).tracks_reads() ==> final(self).tracks_reads(),
            final(self).bytes_read == old(self).bytes_read + chunk@.len(),
            final(self).remaining() == old(self).remaining() - chunk@.len(),
            final(self).digest.fed() == old(self).digest.fed() + chunk@,
            final(self).key.digest_snapshot@ == sha256(final(self).digest.fed()),
            final(self).key.len == old(self).key.len,
            final(self).path == old(self).path,
            final(self).file_len == old(self).file_len,
    {
        self.bytes_read = self.bytes_read + chunk.len() as u64;
        self.update_digest(chunk);
    }

    /// Takes `chunk` as the next bytes read from the file if the candidate
    /// accepts it, and says whether it did. A chunk that is not accepted
    /// leaves the candidate as it was.
    pub fn try_advance(&mut self, chunk: &[u8]) -> (taken: bool)
        ensures
            taken == old(self).accepts(chunk@),
            !taken ==> *final(self) == *old(self),
            taken ==> {
                &&& final(self).snapshot_is_current()
                &&& old(self).well_formed() ==> final(self).well_formed()
                &&& old(self).tracks_reads() ==> final(self).tracks_reads()
                &&& final(self).bytes_read == old(self).bytes_read + chunk@.len()
                &&& final(self).remaining() == old(self).remaining() - chunk@.len()
                &&& final(self).digest.fed() == old(self).digest.fed() + chunk@
                &&& final(self).key.digest_snapshot@ == sha256(final(self).digest.fed())
                &&& final(self).key.len == old(self).key.len
                &&& final(self).path == old(self).path
                &&& final(self).file_len == old(self).file_len
            },
    {
        if chunk.len() as u64 <= self.bytes_remaining() && self.digest.has_room(chunk.len()) {
            self.advance(chunk);
            true
        } else {
            false
        }
    }
}

impl GetKey<Key> for PossDupe {
    open spec fn key_spec(&self) -> Key {
        self.key
    }

    open spec fn bytes_remaining_spec(&self) -> u64 {
        self.remaining()
    }

    fn key(&self) -> (k: Key) {
        self.key.clone()
    }

    fn bytes_remaining(&self) -> (n: u64) {
        self.bytes_remaining()
    }
}

} // verus!
