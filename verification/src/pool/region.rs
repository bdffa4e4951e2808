//! A mapped pool segment: its stamping, checking and the accessors of its
//! header, slot metadata and payloads.
//!
//! The mapped bytes are passed to each accessor; a `Region` holds what is
//! known about them.
use vstd::prelude::*;

use crate::bytes;
use crate::bytes::{bytes_eq, copy_in, copy_out};
use crate::lifecycle;
use crate::lifecycle::{CreateStep, MapOutcome, UnlinkStep};
use crate::pool::error;
use crate::pool::error::{Result, TesseraPoolError};
use crate::pool::header;
use crate::pool::header::{
    region_size_bytes, slot_meta_offset, slot_payload_offset, Header, HeaderView, SlotMeta,
    SlotMetaView, FORMAT_VERSION, MAGIC,
};
use crate::pool::namespace;
use crate::pool::namespace::NamespaceHandle;
use crate::text;

verus! {

/// One mapped pool segment.
#[derive(Debug)]
pub struct Region {
    slot_count: u32,
    slot_size_bytes: u32,
    shm_name: String,
    is_owner: bool,
    manually_unlinked: bool,
}

/// What a `Region` knows of its segment.
pub struct RegionView {
    /// Number of slots.
    pub slot_count: u32,
    /// Payload bytes per slot.
    pub slot_size_bytes: u32,
    /// Name of the segment.
    pub name: Seq<char>,
    /// Created, not attached.
    pub owner: bool,
    /// The name was given back.
    pub unlinked: bool,
}

impl View for Region {
    type V = RegionView;

    closed spec fn view(&self) -> RegionView {
        RegionView {
            slot_count: self.slot_count,
            slot_size_bytes: self.slot_size_bytes,
            name: self.shm_name@,
            owner: self.is_owner,
            unlinked: self.manually_unlinked,
        }
    }
}

impl RegionView {
    /// The mapping is long enough for the segment.
    pub open spec fn fits(self, mem: Seq<u8>) -> bool {
        header::segment_len(self.slot_count as int, self.slot_size_bytes as int) <= mem.len()
            <= usize::MAX
    }
}

/// Metadata of slot `i` in a segment.
pub open spec fn meta(mem: Seq<u8>, i: int) -> SlotMetaView {
    SlotMetaView::of(bytes::range(mem, header::meta_start(i), SlotMeta::SIZE as int))
}

/// The first `len` payload bytes of slot `i` in a segment of `n` slots of
/// `size` bytes.
pub open spec fn payload(mem: Seq<u8>, i: int, n: int, size: int, len: int) -> Seq<u8> {
    bytes::range(mem, header::payload_start(i, n, size), len)
}

/// The segment with slot `i`'s metadata replaced.
pub open spec fn with_meta(mem: Seq<u8>, i: int, m: SlotMetaView) -> Seq<u8> {
    bytes::overwrite(mem, header::meta_start(i), m.bytes())
}

/// The segment with the start of slot `i`'s payload replaced.
pub open spec fn with_payload(mem: Seq<u8>, i: int, n: int, size: int, b: Seq<u8>) -> Seq<u8> {
    bytes::overwrite(mem, header::payload_start(i, n, size), b)
}

/// Header of a fresh segment.
pub open spec fn fresh_header(
    digest: Seq<u8>,
    epoch_micros: u64,
    slot_count: u32,
    slot_size_bytes: u32,
    ttl_micros: u64,
) -> HeaderView {
    HeaderView {
        magic: MAGIC,
        format_version: FORMAT_VERSION,
        pad0: 0,
        epoch_micros,
        slot_count,
        slot_size_bytes,
        ttl_micros,
        handle_blake3: digest,
        reserved: header::zeros(56),
    }
}

/// A mapping stamped with a header and `n` slots that were never leased.
pub open spec fn stamped(mem: Seq<u8>, h: HeaderView, n: int) -> Seq<u8> {
    bytes::overwrite(mem, 0, h.bytes() + header::zeros((n * 72) as nat))
}

/// Words for a slot index outside the segment.
pub open spec fn slot_range_words(slot_index: u32, slot_count: u32) -> Seq<char> {
    "slot_index "@ + text::dec(slot_index as nat) + " out of range (slot_count="@ + text::dec(
        slot_count as nat,
    ) + ")"@
}

/// Why a geometry is refused, where it is.
pub open spec fn geometry_refusal(slot_count: u32, slot_size_bytes: u32) -> Option<Seq<char>> {
    if slot_count == 0 {
        Some("slot_count must be > 0"@)
    } else if slot_size_bytes == 0 {
        Some("slot_size_bytes must be > 0"@)
    } else if header::segment_len(slot_count as int, slot_size_bytes as int) > usize::MAX {
        Some(
            "region size overflow: slot_count="@ + text::dec(slot_count as nat)
                + " * slot_size_bytes="@ + text::dec(slot_size_bytes as nat)
                + " exceeds usize::MAX. Reduce one or both."@,
        )
    } else {
        None
    }
}

/// Words for a name that is taken.
pub open spec fn exists_words(name: Seq<char>) -> Seq<char> {
    "Pool region '"@ + name
        + "' already exists. Refusing to clobber. Possible causes: another owner is alive (do not create a second), OR a prior owner crashed without unlinking. For recovery from a crashed owner, retry with `force_recreate=true` — but only after confirming no live owner exists, since `force_recreate` will unconditionally unlink the existing segment."@
}

/// Words for an attacher that tries to remove the name.
pub open spec fn attacher_unlink_words() -> Seq<char> {
    "Region::unlink called by an attacher (is_owner=false). Only the creator may unlink the shared-memory name. Drop this Region to release the attacher's mapping; the creator decides when to unlink."@
}

/// The header is one that an attacher with these expectations accepts.
pub open spec fn accepts(
    h: HeaderView,
    digest: Seq<u8>,
    slot_count: u32,
    slot_size_bytes: u32,
) -> bool {
    &&& h.magic == MAGIC
    &&& h.format_version == FORMAT_VERSION
    &&& h.slot_count == slot_count
    &&& h.slot_size_bytes == slot_size_bytes
    &&& h.handle_blake3 == digest
}

/// How a header is refused that an attacher does not accept: the magic
/// first, then format and geometry, then the digest.
pub open spec fn refused_with(
    h: HeaderView,
    digest: Seq<u8>,
    slot_count: u32,
    slot_size_bytes: u32,
    e: TesseraPoolError,
) -> bool {
    if h.magic != MAGIC {
        error::is_region(
            e,
            "magic mismatch: expected 0x"@ + text::hex(MAGIC as nat) + ", found 0x"@ + text::hex(
                h.magic as nat,
            ) + " (not a Tessera Pool region?)"@,
        )
    } else if h.format_version != FORMAT_VERSION || h.slot_count != slot_count || h.slot_size_bytes
        != slot_size_bytes {
        e matches TesseraPoolError::HeaderMismatch {
            message,
            expected_format,
            found_format,
            expected_count,
            found_count,
            expected_size,
            found_size,
        } && message@ == "format / geometry mismatch"@ && expected_format == FORMAT_VERSION
            && found_format == h.format_version && expected_count == slot_count && found_count
            == h.slot_count && expected_size == slot_size_bytes && found_size == h.slot_size_bytes
    } else {
        error::is_region(
            e,
            "handle digest mismatch on attach — your description derives a different handle than the creator's; verify the description string matches across processes (header_blake3 in SHM differs from BLAKE3("@
                + text::debug_text(namespace::shm_name_of(digest)) + "))"@,
        )
    }
}

proof fn lemma_zero_le(k: nat)
    ensures
        bytes::le_bytes(0, k) == header::zeros(k),
    decreases k,
{
    if k > 0 {
        lemma_zero_le((k - 1) as nat);
    }
    assert(bytes::le_bytes(0, k) =~= header::zeros(k));
}

/// A slot that was never leased is all zeros.
proof fn lemma_zero_meta()
    ensures
        SlotMetaView::cleared(0).bytes() == header::zeros(72),
{
    lemma_zero_le(4);
    lemma_zero_le(8);
    assert(SlotMetaView::cleared(0).bytes() =~= header::zeros(72));
}

/// What changing one slot's metadata or payload does to the rest of the
/// segment: nothing.
pub proof fn law_slots_are_independent(
    mem: Seq<u8>,
    i: int,
    n: int,
    size: int,
    m: SlotMetaView,
    b: Seq<u8>,
)
    requires
        0 <= i < n,
        0 <= size,
        header::segment_len(n, size) <= mem.len(),
        m.reserved.len() == 32,
        b.len() <= size,
    ensures
        with_meta(mem, i, m).len() == mem.len(),
        meta(with_meta(mem, i, m), i) == m,
        forall|j: int| 0 <= j < n && j != i ==> meta(with_meta(mem, i, m), j) == meta(mem, j),
        forall|j: int, len: int|
            0 <= j < n && 0 <= len <= size ==> payload(with_meta(mem, i, m), j, n, size, len)
                == payload(mem, j, n, size, len),
        bytes::range(with_meta(mem, i, m), 0, 128) == bytes::range(mem, 0, 128),
        with_payload(mem, i, n, size, b).len() == mem.len(),
        payload(with_payload(mem, i, n, size, b), i, n, size, b.len() as int) == b,
        forall|j: int, len: int|
            0 <= j < n && j != i && 0 <= len <= size ==> payload(
                with_payload(mem, i, n, size, b),
                j,
                n,
                size,
                len,
            ) == payload(mem, j, n, size, len),
        forall|j: int| 0 <= j < n ==> meta(with_payload(mem, i, n, size, b), j) == meta(mem, j),
        bytes::range(with_payload(mem, i, n, size, b), 0, 128) == bytes::range(mem, 0, 128),
{
    header::law_slot_meta_round_trip(m);
    header::law_layout(i, i, n, size);
    bytes::lemma_overwrite(mem, header::meta_start(i), m.bytes());
    bytes::lemma_overwrite(mem, header::payload_start(i, n, size), b);
    let after_meta = with_meta(mem, i, m);
    let after_payload = with_payload(mem, i, n, size, b);
    assert forall|j: int| 0 <= j < n && j != i implies meta(after_meta, j) == meta(mem, j) by {
        header::law_layout(i, j, n, size);
        header::law_layout(j, i, n, size);
        assert(bytes::range(after_meta, header::meta_start(j), 72) == bytes::range(mem, header::meta_start(j), 72));
    }
    assert forall|j: int, len: int| 0 <= j < n && 0 <= len <= size implies payload(
        after_meta,
        j,
        n,
        size,
        len,
    ) == payload(mem, j, n, size, len) by {
        header::law_layout(i, j, n, size);
        header::law_layout(j, i, n, size);
        assert(bytes::range(after_meta, header::payload_start(j, n, size), len) == bytes::range(mem, header::payload_start(j, n, size), len));
    }
    assert forall|j: int, len: int| 0 <= j < n && j != i && 0 <= len <= size implies payload(
        after_payload,
        j,
        n,
        size,
        len,
    ) == payload(mem, j, n, size, len) by {
        header::law_layout(i, j, n, size);
        header::law_layout(j, i, n, size);
        assert(bytes::range(after_payload, header::payload_start(j, n, size), len) == bytes::range(mem, header::payload_start(j, n, size), len));
    }
    assert forall|j: int| 0 <= j < n implies meta(after_payload, j) == meta(mem, j) by {
        header::law_layout(j, i, n, size);
        assert(bytes::range(after_payload, header::meta_start(j), 72) == bytes::range(mem, header::meta_start(j), 72));
    }
    assert(bytes::range(after_meta, 0, 128) == bytes::range(mem, 0, 128));
    assert(bytes::range(after_payload, 0, 128) == bytes::range(mem, 0, 128));
}

/// A fresh segment holds its header, and slots that were never leased.
pub proof fn law_stamped(mem: Seq<u8>, h: HeaderView, n: int, size: int)
    requires
        0 <= n,
        0 <= size,
        header::segment_len(n, size) <= mem.len(),
        h.handle_blake3.len() == 32,
        h.reserved.len() == 56,
    ensures
        stamped(mem, h, n).len() == mem.len(),
        HeaderView::of(stamped(mem, h, n)) == h,
        forall|i: int| 0 <= i < n ==> meta(stamped(mem, h, n), i) == SlotMetaView::cleared(0),
{
    assert(0 <= n * size) by (nonlinear_arith)
        requires
            0 <= n,
            0 <= size,
    ;
    header::law_header_round_trip(h);
    let out = stamped(mem, h, n);
    assert forall|p: int, k: int| 0 <= p && 0 <= k && p + k <= 128 implies #[trigger] bytes::range(
        out,
        p,
        k,
    ) == bytes::range(h.bytes(), p, k) by {
        assert(bytes::range(out, p, k) =~= bytes::range(h.bytes(), p, k));
    }
    assert(HeaderView::of(out) == HeaderView::of(h.bytes()));
    assert forall|i: int| 0 <= i < n implies meta(out, i) == SlotMetaView::cleared(0) by {
        lemma_zero_meta();
        header::law_slot_meta_round_trip(SlotMetaView::cleared(0));
        assert(bytes::range(out, header::meta_start(i), 72) =~= header::zeros(72));
    }
}

/// An attacher that asks for what the owner created is accepted.
pub proof fn law_attach_accepts_created(
    mem: Seq<u8>,
    digest: Seq<u8>,
    epoch: u64,
    n: u32,
    size: u32,
    ttl: u64,
)
    requires
        header::segment_len(n as int, size as int) <= mem.len(),
        digest.len() == 32,
    ensures
        accepts(
            HeaderView::of(stamped(mem, fresh_header(digest, epoch, n, size, ttl), n as int)),
            digest,
            n,
            size,
        ),
{
    law_stamped(mem, fresh_header(digest, epoch, n, size, ttl), n as int, size as int);
}

impl Region {
    /// Size of the segment to create, or why the geometry is refused.
    pub fn plan_create(slot_count: u32, slot_size_bytes: u32) -> (r: Result<usize>)
        ensures
            match geometry_refusal(slot_count, slot_size_bytes) {
                Some(words) => r matches Err(e) && error::is_config(e, words),
                None => r == Ok::<usize, TesseraPoolError>(
                    header::segment_len(slot_count as int, slot_size_bytes as int) as usize,
                ),
            },
    {
        if slot_count == 0 {
            return Err(TesseraPoolError::Config(String::from_str("slot_count must be > 0")));
        }
        if slot_size_bytes == 0 {
            return Err(TesseraPoolError::Config(String::from_str("slot_size_bytes must be > 0")));
        }
        match region_size_bytes(slot_count, slot_size_bytes) {
            Some(size) => Ok(size),
            None => {
                let mut m = String::from_str("region size overflow: slot_count=");
                text::push_dec(&mut m, slot_count as u64);
                m.append(" * slot_size_bytes=");
                text::push_dec(&mut m, slot_size_bytes as u64);
                m.append(" exceeds usize::MAX. Reduce one or both.");
                Err(TesseraPoolError::Config(m))
            },
        }
    }

    /// Decides what follows an attempt to create the named segment.
    pub fn create_step(
        handle: &NamespaceHandle,
        outcome: MapOutcome,
        retried: bool,
        force_recreate: bool,
    ) -> (r: Result<CreateStep>)
        ensures
            match outcome {
                MapOutcome::Mapped => r == Ok::<CreateStep, TesseraPoolError>(CreateStep::Stamp),
                MapOutcome::Exists(e) => if !retried && force_recreate {
                    r == Ok::<CreateStep, TesseraPoolError>(CreateStep::UnlinkAndRetry)
                } else if !retried {
                    r matches Err(x) && error::is_region(
                        x,
                        exists_words(namespace::shm_name_of(handle@)),
                    )
                } else {
                    r matches Err(x) && error::is_region(
                        x,
                        lifecycle::create_failure_text(retried, e@),
                    )
                },
                MapOutcome::Failed(e) => r matches Err(x) && error::is_region(
                    x,
                    lifecycle::create_failure_text(retried, e@),
                ),
            },
    {
        let mut refusal = String::from_str("Pool region '");
        refusal.append(handle.shm_name().as_str());
        refusal.append(
            "' already exists. Refusing to clobber. Possible causes: another owner is alive (do not create a second), OR a prior owner crashed without unlinking. For recovery from a crashed owner, retry with `force_recreate=true` — but only after confirming no live owner exists, since `force_recreate` will unconditionally unlink the existing segment.",
        );
        match lifecycle::create_step(outcome, retried, force_recreate, refusal) {
            Ok(step) => Ok(step),
            Err(m) => Err(TesseraPoolError::Region(m)),
        }
    }

    /// Owner path: stamps a fresh mapping with the header and an empty slot
    /// table.
    pub fn create(
        mem: &mut [u8],
        handle: &NamespaceHandle,
        slot_count: u32,
        slot_size_bytes: u32,
        ttl_micros: u64,
        epoch_micros: u64,
    ) -> (r: Result<Region>)
        requires
            geometry_refusal(slot_count, slot_size_bytes) is None ==> header::segment_len(
                slot_count as int,
                slot_size_bytes as int,
            ) <= old(mem)@.len(),
        ensures
            match geometry_refusal(slot_count, slot_size_bytes) {
                Some(words) => r matches Err(e) && error::is_config(e, words) && final(mem)@
                    == old(mem)@,
                None => r matches Ok(region) && region@ == (RegionView {
                    slot_count,
                    slot_size_bytes,
                    name: namespace::shm_name_of(handle@),
                    owner: true,
                    unlinked: false,
                }) && final(mem)@ == stamped(
                    old(mem)@,
                    fresh_header(handle@, epoch_micros, slot_count, slot_size_bytes, ttl_micros),
                    slot_count as int,
                ),
            },
    {
        match Region::plan_create(slot_count, slot_size_bytes) {
            Ok(_) => {},
            Err(e) => return Err(e),
        }
        let region = Region {
            slot_count,
            slot_size_bytes,
            shm_name: handle.shm_name(),
            is_owner: true,
            manually_unlinked: false,
        };
        let ghost before = mem@;
        assert(mem@.len() == mem.len());
        let header = Header {
            magic: MAGIC,
            format_version: FORMAT_VERSION,
            _pad0: 0,
            epoch_micros,
            slot_count,
            slot_size_bytes,
            ttl_micros,
            handle_blake3: handle.full_digest(),
            _reserved: [0u8; 56],
        };
        let ghost h = header@;
        proof {
            assert(h =~= fresh_header(handle@, epoch_micros, slot_count, slot_size_bytes, ttl_micros));
            assert(0 <= slot_count * slot_size_bytes) by (nonlinear_arith);
            lemma_zero_meta();
        }
        copy_in(mem, 0, header.to_bytes().as_slice());
        proof {
            assert(mem@ =~= stamped(before, h, 0));
        }
        let blank: Vec<u8> = SlotMeta::zeroed().to_bytes();
        let mut i: u32 = 0;
        while i < slot_count
            invariant
                i <= slot_count,
                blank@ == header::zeros(72),
                h.bytes().len() == 128,
                mem@ == stamped(before, h, i as int),
                128 + slot_count * 72 <= before.len() <= usize::MAX,
            decreases slot_count - i,
        {
            copy_in(mem, slot_meta_offset(i), blank.as_slice());
            i = i + 1;
            proof {
                assert(mem@ =~= stamped(before, h, i as int));
            }
        }
        Ok(region)
    }

    /// Attacher path: checks the header of an existing mapping against what
    /// the caller expects.
    pub fn attach(
        mem: &[u8],
        handle: &NamespaceHandle,
        expected_slot_count: u32,
        expected_slot_size_bytes: u32,
    ) -> (r: Result<Region>)
        requires
            mem@.len() >= Header::SIZE,
        ensures
            match r {
                Ok(region) => region@ == (RegionView {
                    slot_count: expected_slot_count,
                    slot_size_bytes: expected_slot_size_bytes,
                    name: namespace::shm_name_of(handle@),
                    owner: false,
                    unlinked: false,
                }) && accepts(
                    HeaderView::of(mem@),
                    handle@,
                    expected_slot_count,
                    expected_slot_size_bytes,
                ),
                Err(e) => !accepts(
                    HeaderView::of(mem@),
                    handle@,
                    expected_slot_count,
                    expected_slot_size_bytes,
                ) && refused_with(
                    HeaderView::of(mem@),
                    handle@,
                    expected_slot_count,
                    expected_slot_size_bytes,
                    e,
                ),
            },
    {
        let region = Region {
            slot_count: expected_slot_count,
            slot_size_bytes: expected_slot_size_bytes,
            shm_name: handle.shm_name(),
            is_owner: false,
            manually_unlinked: false,
        };
        let h = region.read_header(mem);
        if h.magic != MAGIC {
            let mut m = String::from_str("magic mismatch: expected 0x");
            text::push_hex(&mut m, MAGIC);
            m.append(", found 0x");
            text::push_hex(&mut m, h.magic);
            m.append(" (not a Tessera Pool region?)");
            return Err(TesseraPoolError::Region(m));
        }
        if h.format_version != FORMAT_VERSION || h.slot_count != expected_slot_count
            || h.slot_size_bytes != expected_slot_size_bytes {
            return Err(
                TesseraPoolError::HeaderMismatch {
                    message: String::from_str("format / geometry mismatch"),
                    expected_format: FORMAT_VERSION,
                    found_format: h.format_version,
                    expected_count: expected_slot_count,
                    found_count: h.slot_count,
                    expected_size: expected_slot_size_bytes,
                    found_size: h.slot_size_bytes,
                },
            );
        }
        if !bytes_eq(h.handle_blake3.as_slice(), handle.full_digest().as_slice()) {
            let mut m = String::from_str(
                "handle digest mismatch on attach — your description derives a different handle than the creator's; verify the description string matches across processes (header_blake3 in SHM differs from BLAKE3(",
            );
            m.append(text::debug_string(handle.shm_name().as_str()).as_str());
            m.append("))");
            return Err(TesseraPoolError::Region(m));
        }
        Ok(region)
    }

    /// Whether this region was created, as opposed to attached.
    pub fn is_owner(&self) -> (r: bool)
        ensures
            r == self@.owner,
    {
        self.is_owner
    }

    /// Number of slots.
    pub fn slot_count(&self) -> (r: u32)
        ensures
            r == self@.slot_count,
    {
        self.slot_count
    }

    /// Payload bytes per slot.
    pub fn slot_size_bytes(&self) -> (r: u32)
        ensures
            r == self@.slot_size_bytes,
    {
        self.slot_size_bytes
    }

    /// Name of the segment.
    pub fn shm_name(&self) -> (r: &str)
        ensures
            r@ == self@.name,
    {
        self.shm_name.as_str()
    }

    /// Time to live of a lease, as the header says.
    pub fn ttl_micros(&self, mem: &[u8]) -> (r: u64)
        requires
            mem@.len() >= Header::SIZE,
        ensures
            r == HeaderView::of(mem@).ttl_micros,
    {
        self.read_header(mem).ttl_micros
    }

    /// Wall-clock microseconds at creation, as the header says.
    pub fn epoch_micros(&self, mem: &[u8]) -> (r: u64)
        requires
            mem@.len() >= Header::SIZE,
        ensures
            r == HeaderView::of(mem@).epoch_micros,
    {
        self.read_header(mem).epoch_micros
    }

    /// The header of the segment.
    pub fn read_header(&self, mem: &[u8]) -> (h: Header)
        requires
            mem@.len() >= Header::SIZE,
        ensures
            h@ == HeaderView::of(mem@),
    {
        Header::from_bytes(mem)
    }

    fn check_slot_index(&self, slot_index: u32) -> (r: Result<()>)
        ensures
            match r {
                Ok(_) => slot_index < self@.slot_count,
                Err(e) => slot_index >= self@.slot_count && error::is_region(
                    e,
                    slot_range_words(slot_index, self@.slot_count),
                ),
            },
    {
        if slot_index >= self.slot_count {
            let mut m = String::from_str("slot_index ");
            text::push_dec(&mut m, slot_index as u64);
            m.append(" out of range (slot_count=");
            text::push_dec(&mut m, self.slot_count as u64);
            m.append(")");
            return Err(TesseraPoolError::Region(m));
        }
        Ok(())
    }

    /// Reads a slot's metadata.
    pub fn read_slot_meta(&self, mem: &[u8], slot_index: u32) -> (r: Result<SlotMeta>)
        requires
            self@.fits(mem@),
        ensures
            match r {
                Ok(m) => slot_index < self@.slot_count && m@ == meta(mem@, slot_index as int),
                Err(e) => slot_index >= self@.slot_count && error::is_region(
                    e,
                    slot_range_words(slot_index, self@.slot_count),
                ),
            },
    {
        match self.check_slot_index(slot_index) {
            Ok(_) => {},
            Err(e) => return Err(e),
        }
        proof {
            header::law_layout(
                slot_index as int,
                slot_index as int,
                self@.slot_count as int,
                self@.slot_size_bytes as int,
            );
        }
        Ok(SlotMeta::read_from(mem, slot_meta_offset(slot_index)))
    }

    /// Writes a slot's metadata.
    pub fn write_slot_meta(&self, mem: &mut [u8], slot_index: u32, m: SlotMeta) -> (r: Result<()>)
        requires
            self@.fits(old(mem)@),
        ensures
            match r {
                Ok(_) => slot_index < self@.slot_count && final(mem)@ == with_meta(
                    old(mem)@,
                    slot_index as int,
                    m@,
                ),
                Err(e) => slot_index >= self@.slot_count && error::is_region(
                    e,
                    slot_range_words(slot_index, self@.slot_count),
                ) && final(mem)@ == old(mem)@,
            },
    {
        match self.check_slot_index(slot_index) {
            Ok(_) => {},
            Err(e) => return Err(e),
        }
        proof {
            header::law_layout(
                slot_index as int,
                slot_index as int,
                self@.slot_count as int,
                self@.slot_size_bytes as int,
            );
        }
        copy_in(mem, slot_meta_offset(slot_index), m.to_bytes().as_slice());
        Ok(())
    }

    /// Copies `payload` to the start of a slot's payload area.
    pub fn write_slot_payload(&self, mem: &mut [u8], slot_index: u32, payload: &[u8]) -> (r: Result<
        (),
    >)
        requires
            self@.fits(old(mem)@),
        ensures
            match r {
                Ok(_) => slot_index < self@.slot_count && payload@.len() <= self@.slot_size_bytes
                    && final(mem)@ == with_payload(
                    old(mem)@,
                    slot_index as int,
                    self@.slot_count as int,
                    self@.slot_size_bytes as int,
                    payload@,
                ),
                Err(e) => final(mem)@ == old(mem)@ && if slot_index >= self@.slot_count {
                    error::is_region(e, slot_range_words(slot_index, self@.slot_count))
                } else {
                    payload@.len() > self@.slot_size_bytes && error::is_region(
                        e,
                        "payload size "@ + text::dec(payload@.len()) + " exceeds slot capacity "@
                            + text::dec(self@.slot_size_bytes as nat),
                    )
                },
            },
    {
        match self.check_slot_index(slot_index) {
            Ok(_) => {},
            Err(e) => return Err(e),
        }
        if payload.len() > self.slot_size_bytes as usize {
            let mut m = String::from_str("payload size ");
            text::push_dec(&mut m, payload.len() as u64);
            m.append(" exceeds slot capacity ");
            text::push_dec(&mut m, self.slot_size_bytes as u64);
            return Err(TesseraPoolError::Region(m));
        }
        proof {
            header::law_layout(
                slot_index as int,
                slot_index as int,
                self@.slot_count as int,
                self@.slot_size_bytes as int,
            );
        }
        copy_in(
            mem,
            slot_payload_offset(slot_index, self.slot_count, self.slot_size_bytes),
            payload,
        );
        Ok(())
    }

    /// Copies out the first `payload_len` bytes of a slot's payload.
    pub fn read_slot_payload(&self, mem: &[u8], slot_index: u32, payload_len: u32) -> (r: Result<
        Vec<u8>,
    >)
        requires
            self@.fits(mem@),
        ensures
            match r {
                Ok(out) => slot_index < self@.slot_count && payload_len <= self@.slot_size_bytes
                    && out@ == payload(
                    mem@,
                    slot_index as int,
                    self@.slot_count as int,
                    self@.slot_size_bytes as int,
                    payload_len as int,
                ),
                Err(e) => if slot_index >= self@.slot_count {
                    error::is_region(e, slot_range_words(slot_index, self@.slot_count))
                } else {
                    payload_len > self@.slot_size_bytes && error::is_region(
                        e,
                        "payload_len "@ + text::dec(payload_len as nat) + " exceeds slot capacity "@
                            + text::dec(self@.slot_size_bytes as nat),
                    )
                },
            },
    {
        match self.check_slot_index(slot_index) {
            Ok(_) => {},
            Err(e) => return Err(e),
        }
        if payload_len > self.slot_size_bytes {
            let mut m = String::from_str("payload_len ");
            text::push_dec(&mut m, payload_len as u64);
            m.append(" exceeds slot capacity ");
            text::push_dec(&mut m, self.slot_size_bytes as u64);
            return Err(TesseraPoolError::Region(m));
        }
        proof {
            header::law_layout(
                slot_index as int,
                slot_index as int,
                self@.slot_count as int,
                self@.slot_size_bytes as int,
            );
        }
        Ok(
            copy_out(
                mem,
                slot_payload_offset(slot_index, self.slot_count, self.slot_size_bytes),
                payload_len as usize,
            ),
        )
    }

    /// Whether the segment's name is to be removed: only by the creator,
    /// and only once, since a successor may hold the name afterwards.
    pub fn unlink(&self) -> (r: Result<UnlinkStep>)
        ensures
            match lifecycle::unlink_asked(self@.owner, self@.unlinked) {
                Some(step) => r == Ok::<UnlinkStep, TesseraPoolError>(step),
                None => r matches Err(e) && error::is_region(e, attacher_unlink_words()),
            },
    {
        if self.manually_unlinked {
            return Ok(UnlinkStep::Done);
        }
        if !self.is_owner {
            return Err(
                TesseraPoolError::Region(
                    String::from_str(
                        "Region::unlink called by an attacher (is_owner=false). Only the creator may unlink the shared-memory name. Drop this Region to release the attacher's mapping; the creator decides when to unlink.",
                    ),
                ),
            );
        }
        Ok(UnlinkStep::Call)
    }

    /// Whether the name goes with the handle: a creator that has not given
    /// it back removes it when the handle is dropped.
    pub fn unlinks_on_drop(&self) -> (r: bool)
        ensures
            r == lifecycle::name_goes_with_handle(self@.owner, self@.unlinked),
    {
        self.is_owner && !self.manually_unlinked
    }

    /// Takes in what came of removing the name: where it is gone, the
    /// region remembers so; where the call failed, nothing changes and the
    /// caller may try again.
    pub fn finish_unlink(&mut self, rc: i32, errno: Option<i32>, error: &str) -> (r: Result<()>)
        ensures
            match r {
                Ok(_) => lifecycle::name_is_gone(rc, errno) && final(self)@ == (RegionView {
                    unlinked: true,
                    ..old(self)@
                }),
                Err(e) => !lifecycle::name_is_gone(rc, errno) && error::is_region(
                    e,
                    lifecycle::unlink_failure_text(old(self)@.name, error@, errno),
                ) && final(self)@ == old(self)@,
            },
    {
        match lifecycle::judge_unlink(self.shm_name.as_str(), rc, errno, error) {
            Ok(_) => {},
            Err(m) => return Err(TesseraPoolError::Region(m)),
        }
        self.manually_unlinked = true;
        Ok(())
    }
}

} // verus!
