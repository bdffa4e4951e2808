//! Handle of a channel segment, derived from its description.
use vstd::prelude::*;

use crate::namespace;

verus! {

/// Digest of a description. Two processes with the same description derive
/// the same handle and meet in the same segment.
#[derive(Clone, Copy, Debug, PartialEq, Eq, Hash)]
pub struct NamespaceHandle {
    full_digest: [u8; 32],
}

impl View for NamespaceHandle {
    type V = Seq<u8>;

    closed spec fn view(&self) -> Seq<u8> {
        self.full_digest@
    }
}

/// Name of the channel segment with the given description digest.
pub open spec fn shm_name_of(digest: Seq<u8>) -> Seq<char> {
    namespace::segment_name("/tessera-channel-"@, digest)
}

impl NamespaceHandle {
    /// The handle of a description.
    pub fn derive(description: &str) -> (h: NamespaceHandle)
        ensures
            h@ == namespace::description_digest(description@),
            h@.len() == 32,
    {
        NamespaceHandle { full_digest: namespace::digest_description(description) }
    }

    /// The whole digest, as stored in the segment header.
    pub fn full_digest(&self) -> (d: [u8; 32])
        ensures
            d@ == self@,
    {
        self.full_digest
    }

    /// Name of the segment: `/tessera-channel-` and 32 hexadecimal digits.
    pub fn shm_name(&self) -> (name: String)
        ensures
            name@ == shm_name_of(self@),
    {
        namespace::name_segment("/tessera-channel-", &self.full_digest)
    }
}

} // verus!
