//! Lease-backed pool of fixed slots in a shared segment.
//!
//! One process owns the pool: it alone acquires, writes, releases, renews
//! and reclaims slots. Any process that attaches to the segment reads
//! payloads through descriptors handed to it. Nothing is ever lost or
//! overwritten under a live lease; a handle that outlived its lease is
//! recognised by its lease identifier and generation and refused.
use vstd::prelude::*;

use crate::bytes;
use crate::bytes::{push_le, read_array, read_u64};
use crate::text;

pub mod error;
pub mod flags;
pub mod free_list;
pub mod header;
pub mod history;
pub mod laws;
pub mod lifetime;
pub mod namespace;
pub mod pool;

pub mod region;
pub mod terms;

pub use error::{Result, TesseraPoolError};
pub use namespace::NamespaceHandle;
pub use pool::{OpenPlan, Pool, PoolConfig};

verus! {

/// 128-bit lease identifier.
#[derive(Clone, Copy, Debug, PartialEq, Eq, Hash)]
pub struct LeaseId {
    /// High 64 bits: the first eight bytes, little-endian.
    pub high: u64,
    /// Low 64 bits: the last eight bytes, little-endian.
    pub low: u64,
}

impl LeaseId {
    /// The identifier that 16 bytes spell.
    pub open spec fn of(s: Seq<u8>) -> LeaseId {
        LeaseId { high: bytes::u64_at(s, 0), low: bytes::u64_at(s, 8) }
    }

    /// The 16 bytes of the identifier.
    pub open spec fn bytes(self) -> Seq<u8> {
        bytes::le_bytes(self.high as nat, 8) + bytes::le_bytes(self.low as nat, 8)
    }

    /// Construct from raw bytes.
    pub fn from_bytes(bytes: [u8; 16]) -> (id: LeaseId)
        ensures
            id == LeaseId::of(bytes@),
    {
        LeaseId { high: read_u64(bytes.as_slice(), 0), low: read_u64(bytes.as_slice(), 8) }
    }

    /// High 64 bits.
    pub fn high(self) -> (r: u64)
        ensures
            r == self.high,
    {
        self.high
    }

    /// Low 64 bits.
    pub fn low(self) -> (r: u64)
        ensures
            r == self.low,
    {
        self.low
    }

    /// 16-byte representation.
    pub fn to_bytes(self) -> (out: [u8; 16])
        ensures
            out@ == self.bytes(),
    {
        let mut v: Vec<u8> = Vec::new();
        push_le(&mut v, self.high, 8);
        push_le(&mut v, self.low, 8);
        proof {
            bytes::lemma_int_round_trip(0, self.high);
            bytes::lemma_int_round_trip(0, self.low);
            assert(v@ =~= self.bytes());
        }
        let out: [u8; 16] = read_array::<16>(v.as_slice(), 0);
        assert(out@ =~= self.bytes());
        out
    }

    /// The identifier as 32 hexadecimal digits.
    pub fn to_hex(self) -> (out: String)
        ensures
            out@ == text::hex_bytes(self.bytes()),
    {
        let mut out = String::new();
        text::push_hex_bytes(&mut out, self.to_bytes().as_slice());
        assert(out@ =~= text::hex_bytes(self.bytes()));
        out
    }
}

/// A lease identifier and its 16 bytes determine each other.
pub proof fn law_lease_id_round_trip(id: LeaseId, s: Seq<u8>)
    requires
        s.len() == 16,
    ensures
        id.bytes().len() == 16,
        LeaseId::of(id.bytes()) == id,
        LeaseId::of(s).bytes() == s,
{
    bytes::lemma_int_round_trip(0, id.high);
    bytes::lemma_int_round_trip(0, id.low);
    assert(bytes::range(id.bytes(), 0, 8) =~= bytes::le_bytes(id.high as nat, 8));
    assert(bytes::range(id.bytes(), 8, 8) =~= bytes::le_bytes(id.low as nat, 8));
    bytes::lemma_pow256();
    bytes::lemma_le_bytes_of_value(bytes::range(s, 0, 8));
    bytes::lemma_le_bytes_of_value(bytes::range(s, 8, 8));
    assert(LeaseId::of(s).bytes() =~= s);
}

/// Owner-side handle of a leased slot.
#[derive(Clone, Copy, Debug, PartialEq, Eq)]
pub struct Lease {
    /// Slot under lease.
    pub slot_index: u32,
    /// Identifier drawn at acquire.
    pub lease_id: LeaseId,
    /// Generation of the slot at acquire.
    pub generation: u64,
}

impl Lease {
    /// Construct a lease.
    pub fn new(slot_index: u32, lease_id: LeaseId, generation: u64) -> (r: Lease)
        ensures
            r == (Lease { slot_index, lease_id, generation }),
    {
        Lease { slot_index, lease_id, generation }
    }

    /// Slot index this lease covers.
    pub fn slot_index(self) -> (r: u32)
        ensures
            r == self.slot_index,
    {
        self.slot_index
    }

    /// 128-bit lease identifier.
    pub fn lease_id(self) -> (r: LeaseId)
        ensures
            r == self.lease_id,
    {
        self.lease_id
    }

    /// Generation at acquire time.
    pub fn generation(self) -> (r: u64)
        ensures
            r == self.generation,
    {
        self.generation
    }
}

/// Read-only token for a written payload, handed to other processes.
#[derive(Clone, Copy, Debug, PartialEq, Eq)]
pub struct Descriptor {
    /// Slot that holds the payload.
    pub slot_index: u32,
    /// Identifier of the lease that wrote it.
    pub lease_id: LeaseId,
    /// Generation at write time.
    pub generation: u64,
    /// Payload length in bytes.
    pub size_bytes: u32,
}

impl Descriptor {
    /// Construct a descriptor.
    pub fn new(slot_index: u32, lease_id: LeaseId, generation: u64, size_bytes: u32) -> (r:
        Descriptor)
        ensures
            r == (Descriptor { slot_index, lease_id, generation, size_bytes }),
    {
        Descriptor { slot_index, lease_id, generation, size_bytes }
    }

    /// Slot index referenced by this descriptor.
    pub fn slot_index(self) -> (r: u32)
        ensures
            r == self.slot_index,
    {
        self.slot_index
    }

    /// Lease identifier that wrote this payload.
    pub fn lease_id(self) -> (r: LeaseId)
        ensures
            r == self.lease_id,
    {
        self.lease_id
    }

    /// Generation at write time.
    pub fn generation(self) -> (r: u64)
        ensures
            r == self.generation,
    {
        self.generation
    }

    /// Size of the written payload, in bytes.
    pub fn size_bytes(self) -> (r: u32)
        ensures
            r == self.size_bytes,
    {
        self.size_bytes
    }
}

} // verus!
