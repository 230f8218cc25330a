use vstd::prelude::*;

use git_hash::Kind as HashKind;

verus! {

/// The kind of hash function the checksums are made with.
#[verifier::external_type_specification]
#[verifier::external_body]
pub struct ExHashKind(HashKind);

/// Relies on `git_hash::Kind::len_in_bytes`: its only kind, SHA-1, has digests of 20 bytes.
pub assume_specification[ HashKind::len_in_bytes ](kind: &HashKind) -> (r: usize)
    ensures
        r == 20,
;

/// The SHA-1 digest of `data`.
pub uninterp spec fn sha1_of(data: Seq<u8>) -> Seq<u8>;

/// Relies on `sha1_smol::Sha1`: the digest of `data` is a function of the bytes alone and is
/// 20 bytes long.
#[verifier::external_body]
pub(crate) fn digest(kind: HashKind, data: &[u8]) -> (r: Vec<u8>)
    ensures
        r@ == sha1_of(data@),
        r@.len() == 20,
{
    match kind {
        HashKind::Sha1 => sha1_smol::Sha1::from(data).digest().bytes().to_vec(),
    }
}

/// Relies on `git_hash::Kind::default`, for the hash kind of default options.
#[verifier::external_body]
pub(crate) fn default_kind() -> (r: HashKind) {
    HashKind::default()
}

} // verus!
