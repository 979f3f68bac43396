//! The calls that this library makes into other crates: the SHA-256 hasher
//! of `sha2`, `hex::encode` and the size formatting of `humansize`.
//!
//! Nothing in this module is proved. Each contract states what the code of
//! the other crate does, and the rest of the library is verified against
//! these statements.
use crate::fingerprint::HASH_INPUT_MAX;
use crate::text::hex_lower;
use humansize::FileSize;
use sha2::Digest;
use vstd::prelude::*;

verus! {

/// `sha2::Sha256`, the state of a running SHA-256 computation. Its inside is
/// hidden; `absorbed` says what it stands for.
#[verifier::external_type_specification]
#[verifier::external_body]
pub struct ExSha256(sha2::Sha256);

/// The SHA-256 digest of `data`: what `sha2`'s `Digest::finalize` returns for
/// a hasher that was fed exactly `data`. It is 32 bytes long.
pub uninterp spec fn sha256(data: Seq<u8>) -> Seq<u8>;

/// The bytes that were fed to `hasher` since it was made, in order.
pub uninterp spec fn absorbed(hasher: sha2::Sha256) -> Seq<u8>;

/// `Digest::new` for `Sha256`: a hasher that has been fed nothing.
#[verifier::external_body]
pub(crate) fn hasher_new() -> (hasher: sha2::Sha256)
    ensures
        absorbed(hasher) == Seq::<u8>::empty(),
{
    sha2::Sha256::new()
}

/// `Digest::update` for `Sha256`: feeds `data` to the hasher, after what it
/// was fed before. The hasher counts its input in bits, in a `u64`; the
/// bound keeps that counter from overflowing.
#[verifier::external_body]
pub(crate) fn hasher_update(hasher: &mut sha2::Sha256, data: &[u8])
    requires
        absorbed(*old(hasher)).len() + data@.len() <= HASH_INPUT_MAX,
    ensures
        absorbed(*final(hasher)) == absorbed(*old(hasher)) + data@,
{
    hasher.update(data)
}

/// `Clone::clone` for `Sha256`: a second hasher in the same state.
#[verifier::external_body]
pub(crate) fn hasher_clone(hasher: &sha2::Sha256) -> (copy: sha2::Sha256)
    ensures
        absorbed(copy) == absorbed(*hasher),
{
    hasher.clone()
}

/// `Digest::finalize` for `Sha256`: the digest of everything the hasher was
/// fed, as the 32 bytes of its output array.
#[verifier::external_body]
pub(crate) fn hasher_finalize(hasher: sha2::Sha256) -> (digest: [u8; 32])
    ensures
        digest@ == sha256(absorbed(hasher)),
{
    hasher.finalize().into()
}

/// `hex::encode`: the bytes as a string of lower-case hexadecimal digits,
/// two for each byte, the high half first.
#[verifier::external_body]
pub(crate) fn hex_encode(data: &[u8]) -> (text: String)
    ensures
        text@ == hex_lower(data@),
{
    hex::encode(data)
}

/// The size `size`, in bytes, as the `humansize` crate writes it with its
/// binary options: scaled by powers of 1024 to a unit from `B` to `EiB`, with
/// two decimal places unless the scaled value is whole.
pub uninterp spec fn binary_size_text(size: u64) -> Seq<char>;

/// `FileSize::file_size` with `file_size_opts::BINARY` on a `u64`. For an
/// unsigned size the call always succeeds.
#[verifier::external_body]
pub(crate) fn to_human_readable(size: u64) -> (r: Result<String, String>)
    ensures
        r is Ok,
        r->Ok_0@ == binary_size_text(size),
{
    size.file_size(humansize::file_size_opts::BINARY)
}

} // verus!
