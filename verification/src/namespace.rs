//! Names of shared segments, derived from descriptions.
//!
//! A segment is found by the first 128 bits of the digest of its
//! description, in hexadecimal behind a prefix that tells the kinds of
//! segments apart.
use vstd::prelude::*;

use crate::digest;
use crate::text;

verus! {

/// Digest of a description.
pub open spec fn description_digest(description: Seq<char>) -> Seq<u8> {
    digest::blake3_digest(vstd::utf8::encode_utf8(description))
}

/// Name of the segment with the given prefix and description digest.
pub open spec fn segment_name(prefix: Seq<char>, digest: Seq<u8>) -> Seq<char> {
    prefix + text::hex_bytes(digest.take(16))
}

/// Digest of a description.
pub fn digest_description(description: &str) -> (d: [u8; 32])
    ensures
        d@ == description_digest(description@),
{
    digest::digest_of(description.as_bytes())
}

/// Name of the segment with the given prefix and description digest.
pub fn name_segment(prefix: &str, digest: &[u8; 32]) -> (name: String)
    ensures
        name@ == segment_name(prefix@, digest@),
{
    let mut name = String::from_str(prefix);
    text::push_hex_bytes(&mut name, vstd::slice::slice_subrange(digest.as_slice(), 0, 16));
    assert(digest@.subrange(0, 16) =~= digest@.take(16));
    name
}

/// Segments of different kinds never have the same name, whatever their
/// descriptions.
pub proof fn law_kinds_have_different_names(a: Seq<u8>, b: Seq<u8>)
    ensures
        crate::pool::namespace::shm_name_of(a) != crate::ring::namespace::shm_name_of(b),
        crate::pool::namespace::shm_name_of(a) != crate::channel::namespace::shm_name_of(b),
        crate::ring::namespace::shm_name_of(a) != crate::channel::namespace::shm_name_of(b),
{
    reveal_strlit("/tessera-pool-");
    reveal_strlit("/tessera-ring-");
    reveal_strlit("/tessera-channel-");
    assert(crate::pool::namespace::shm_name_of(a)[9] == 'p');
    assert(crate::ring::namespace::shm_name_of(a)[9] == 'r');
    assert(crate::ring::namespace::shm_name_of(b)[9] == 'r');
    assert(crate::channel::namespace::shm_name_of(b)[9] == 'c');
}

/// Digests that agree in their first half name the same segment, and only
/// those do.
pub proof fn law_name_is_the_first_half(prefix: Seq<char>, a: Seq<u8>, b: Seq<u8>)
    requires
        a.len() == 32,
        b.len() == 32,
    ensures
        segment_name(prefix, a) == segment_name(prefix, b) <==> a.take(16) == b.take(16),
{
    if segment_name(prefix, a) == segment_name(prefix, b) {
        let x = text::hex_bytes(a.take(16));
        let y = text::hex_bytes(b.take(16));
        let n = prefix.len() as int;
        assert(segment_name(prefix, a).skip(n) =~= x);
        assert(segment_name(prefix, b).skip(n) =~= y);
        assert forall|i: int| 0 <= i < 16 implies a.take(16)[i] == b.take(16)[i] by {
            let u = a[i];
            let v = b[i];
            assert(x[2 * i] == text::digit_char((u / 16) as nat));
            assert(y[2 * i] == text::digit_char((v / 16) as nat));
            assert(x[2 * i + 1] == text::digit_char((u % 16) as nat));
            assert(y[2 * i + 1] == text::digit_char((v % 16) as nat));
        }
        assert(a.take(16) =~= b.take(16));
    }
}

/// A segment's name is its kind's prefix and the first half of its
/// description's digest, 32 hexadecimal digits.
pub proof fn law_what_a_name_looks_like(digest: Seq<u8>)
    requires
        digest.len() == 32,
    ensures
        crate::pool::namespace::shm_name_of(digest) == "/tessera-pool-"@ + text::hex_bytes(
            digest.subrange(0, 16),
        ),
        crate::ring::namespace::shm_name_of(digest) == "/tessera-ring-"@ + text::hex_bytes(
            digest.subrange(0, 16),
        ),
        crate::channel::namespace::shm_name_of(digest) == "/tessera-channel-"@ + text::hex_bytes(
            digest.subrange(0, 16),
        ),
        text::hex_bytes(digest.subrange(0, 16)).len() == 32,
{
    assert(digest.take(16) =~= digest.subrange(0, 16));
}

} // verus!
