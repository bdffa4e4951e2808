//! BLAKE3 digests, streamed or in one piece.
use vstd::prelude::*;

verus! {

/// The BLAKE3 digest of a byte string: 32 bytes.
pub uninterp spec fn blake3_digest(input: Seq<u8>) -> Seq<u8>;

/// The bytes that a hasher has been fed, for one that was made by
/// `Hasher::new` and changed by `update` alone. Of a hasher with a key, a
/// derivation context or an input offset nothing is known.
pub uninterp spec fn hashed(h: blake3::Hasher) -> Option<Seq<u8>>;

/// The incremental hasher of the blake3 crate.
#[verifier::external_type_specification]
#[verifier::external_body]
pub struct ExHasher(blake3::Hasher);

/// `blake3::Hasher::new`: a hasher that has been fed nothing.
#[verifier::external_body]
pub(crate) fn hasher_new() -> (h: blake3::Hasher)
    ensures
        hashed(h) == Some(Seq::<u8>::empty()),
{
    blake3::Hasher::new()
}

/// `blake3::Hasher::update`: adds the input to what the hasher was fed.
#[verifier::external_body]
pub(crate) fn hasher_update(h: &mut blake3::Hasher, input: &[u8])
    requires
        hashed(*old(h)) is Some,
    ensures
        hashed(*final(h)) == Some(hashed(*old(h))->0 + input@),
{
    h.update(input);
}

/// `blake3::Hasher::finalize`, with the bytes of the result: the digest of
/// all that the hasher was fed, 32 bytes.
#[verifier::external_body]
pub(crate) fn hasher_finalize(h: &blake3::Hasher) -> (d: [u8; 32])
    requires
        hashed(*h) is Some,
    ensures
        d@ == blake3_digest(hashed(*h)->0),
{
    *h.finalize().as_bytes()
}

/// The digest of one byte string.
pub fn digest_of(input: &[u8]) -> (d: [u8; 32])
    ensures
        d@ == blake3_digest(input@),
{
    let mut h = hasher_new();
    hasher_update(&mut h, input);
    proof {
        assert(Seq::<u8>::empty() + input@ =~= input@);
    }
    hasher_finalize(&h)
}

} // verus!
