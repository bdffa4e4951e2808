//! A mapped channel segment: its stamping, checking and the accessors of its
//! counters and slots.
//!
//! The mapped bytes are passed to each accessor; a `Region` holds what is
//! known about them. The counters and the per-slot words that several
//! processes share are also given by their offsets, for atomic access.
use vstd::prelude::*;

use crate::bytes;
use crate::bytes::{bytes_eq, copy_in, copy_out, push_le, read_u32, read_u64};
use crate::channel::error;
use crate::channel::error::{Result, TesseraChannelError};
use crate::channel::header;
use crate::channel::header::{
    region_size_bytes, slot_header_offset, slot_payload_offset, Header, HeaderView, SlotHeader,
    FORMAT_VERSION, MAGIC,
};
use crate::channel::namespace;
use crate::channel::namespace::NamespaceHandle;
use crate::lifecycle;
use crate::lifecycle::{CreateStep, MapOutcome, UnlinkStep};
use crate::text;

verus! {

/// Offset of the head counter.
pub const HEAD_FIELD_OFFSET: usize = 32;

/// Offset of the tail counter.
pub const TAIL_FIELD_OFFSET: usize = 40;

/// Offset of the sequence word in a slot header.
pub const SLOT_SEQUENCE_FIELD_OFFSET: usize = 0;

/// Offset of the ready word in a slot header.
pub const SLOT_READY_FIELD_OFFSET: usize = 8;

/// Offset of the message length in a slot header.
pub const SLOT_LENGTH_FIELD_OFFSET: usize = 16;

/// Offset of the timestamp in a slot header.
pub const SLOT_TIMESTAMP_FIELD_OFFSET: usize = 24;

/// One mapped channel segment.
#[derive(Debug)]
pub struct Region {
    slot_count: u32,
    slot_size_bytes: u32,
    shm_name: String,
    is_owner: bool,
    manually_unlinked: bool,
}

/// What a `Region` knows of its segment.
pub struct RegionView {
    /// Number of slots.
    pub slot_count: u32,
    /// Payload bytes per slot.
    pub slot_size_bytes: u32,
    /// Name of the segment.
    pub name: Seq<char>,
    /// Created, not attached.
    pub owner: bool,
    /// The name was given back.
    pub unlinked: bool,
}

impl View for Region {
    type V = RegionView;

    closed spec fn view(&self) -> RegionView {
        RegionView {
            slot_count: self.slot_count,
            slot_size_bytes: self.slot_size_bytes,
            name: self.shm_name@,
            owner: self.is_owner,
            unlinked: self.manually_unlinked,
        }
    }
}

impl RegionView {
    /// The mapping is long enough for the segment.
    pub open spec fn fits(self, mem: Seq<u8>) -> bool {
        header::segment_len(self.slot_count as int, self.slot_size_bytes as int) <= mem.len()
            <= usize::MAX
    }

    /// The queue that the segment holds.
    pub open spec fn queue(self, mem: Seq<u8>) -> QueueView {
        queue_of(mem, self.slot_count as nat, self.slot_size_bytes as int)
    }
}

/// What one slot holds.
#[verifier::ext_equal]
pub struct SlotView {
    /// Position stamped by the last sender.
    pub sequence: u64,
    /// Nonzero while a message waits here.
    pub ready: u64,
    /// Message length.
    pub length: u32,
    /// Time of sending.
    pub timestamp: u64,
    /// All payload bytes of the slot.
    pub payload: Seq<u8>,
}

impl SlotView {
    /// The message in the slot: as many bytes as its length says, as far as
    /// the slot has them.
    pub open spec fn message(self) -> Seq<u8> {
        if self.length as nat <= self.payload.len() {
            self.payload.take(self.length as int)
        } else {
            self.payload
        }
    }
}

/// What the shared part of a segment holds.
#[verifier::ext_equal]
pub struct QueueView {
    /// Position of the next message to receive.
    pub head: u64,
    /// Position of the next message to send.
    pub tail: u64,
    /// The slots.
    pub slots: Seq<SlotView>,
}

/// The slot that starts at `at`.
pub open spec fn slot_at(mem: Seq<u8>, at: int, size: int) -> SlotView {
    SlotView {
        sequence: bytes::u64_at(mem, at),
        ready: bytes::u64_at(mem, at + 8),
        length: bytes::u32_at(mem, at + 16),
        timestamp: bytes::u64_at(mem, at + 24),
        payload: bytes::range(mem, at + 56, size),
    }
}

/// The queue that a segment of `n` slots of `size` bytes holds.
pub open spec fn queue_of(mem: Seq<u8>, n: nat, size: int) -> QueueView {
    QueueView {
        head: bytes::u64_at(mem, 32),
        tail: bytes::u64_at(mem, 40),
        slots: Seq::new(n, |i: int| slot_at(mem, header::slot_start(i, size), size)),
    }
}

impl QueueView {
    /// The queue with another slot `i`.
    pub open spec fn with_slot(self, i: int, s: SlotView) -> QueueView {
        QueueView { slots: self.slots.update(i, s), ..self }
    }
}

/// The part of the header that never changes after creation.
pub open spec fn same_header(a: Seq<u8>, b: Seq<u8>) -> bool {
    &&& a.len() == b.len()
    &&& bytes::range(a, 0, 32) == bytes::range(b, 0, 32)
    &&& bytes::range(a, 48, 72) == bytes::range(b, 48, 72)
}

/// Header of a fresh segment.
pub open spec fn fresh_header(
    digest: Seq<u8>,
    epoch_micros: u64,
    slot_count: u32,
    slot_size_bytes: u32,
) -> HeaderView {
    HeaderView {
        magic: MAGIC,
        format_version: FORMAT_VERSION,
        pad0: 0,
        epoch_micros,
        slot_count,
        slot_size_bytes,
        head: 0,
        tail: 0,
        handle_blake3: digest,
        reserved: Seq::new(40, |i: int| 0u8),
    }
}

/// Words for a slot index outside the segment.
pub open spec fn slot_range_words(slot_index: u32, slot_count: u32) -> Seq<char> {
    "slot_index "@ + text::dec(slot_index as nat) + " out of range (slot_count="@ + text::dec(
        slot_count as nat,
    ) + ")"@
}

/// Why a geometry is refused at creation, where it is.
pub open spec fn create_refusal(slot_count: u32, slot_size_bytes: u32) -> Option<Seq<char>> {
    if slot_count == 0 {
        Some("slot_count must be > 0"@)
    } else if slot_size_bytes == 0 {
        Some("slot_size_bytes must be > 0"@)
    } else if slot_size_bytes % 8 != 0 {
        Some(
            "slot_size_bytes="@ + text::dec(slot_size_bytes as nat)
                + " is not a multiple of 8; slot stride must be 8-byte-aligned for AtomicU64 access on per-slot `sequence` and `ready` fields (round up to "@
                + text::dec(((slot_size_bytes as nat + 7) / 8) * 8) + ")"@,
        )
    } else if header::segment_len(slot_count as int, slot_size_bytes as int) > usize::MAX {
        Some(
            "region size overflow: slot_count="@ + text::dec(slot_count as nat)
                + " * slot_size_bytes="@ + text::dec(slot_size_bytes as nat)
                + " exceeds usize::MAX. Reduce one or both."@,
        )
    } else {
        None
    }
}

/// Why a geometry is refused before a segment is opened, where it is.
pub open spec fn attach_refusal(slot_count: u32, slot_size_bytes: u32) -> Option<Seq<char>> {
    if slot_count == 0 {
        Some("expected_slot_count must be > 0"@)
    } else if slot_size_bytes == 0 {
        Some("expected_slot_size_bytes must be > 0"@)
    } else if slot_size_bytes % 8 != 0 {
        Some(
            "expected_slot_size_bytes="@ + text::dec(slot_size_bytes as nat)
                + " is not a multiple of 8; senders must match the receiver's 8-aligned geometry"@,
        )
    } else {
        None
    }
}

/// Words for a name that is taken.
pub open spec fn exists_words(name: Seq<char>) -> Seq<char> {
    "Channel region '"@ + name
        + "' already exists. Refusing to clobber. Possible causes: another Receiver is alive (do not create a second), OR a prior Receiver crashed without unlinking. For recovery from a crashed Receiver, retry with `force_recreate=true` — but only after confirming no live Receiver exists."@
}

/// Words for a mapping that is too short.
pub open spec fn short_words(name: Seq<char>, need: nat, have: nat) -> Seq<char> {
    "attached SHM region '"@ + name
        + "' is smaller than expected: caller's config requires at least "@ + text::dec(need)
        + " bytes, but the mapped region is only "@ + text::dec(have)
        + " bytes. Possible causes: stale segment from a crashed prior Receiver, wrong namespace handle, or config doesn't match the Receiver's."@
}

/// Words for a sender that tries to remove the name.
pub open spec fn sender_unlink_words() -> Seq<char> {
    "Region::unlink called by a Sender (is_owner=false). Only the Receiver may unlink the shared-memory name. Drop this Region to release the Sender's mapping; the Receiver decides when to unlink."@
}

/// The header is one that a sender with these expectations accepts.
pub open spec fn accepts(
    h: HeaderView,
    digest: Seq<u8>,
    slot_count: u32,
    slot_size_bytes: u32,
) -> bool {
    &&& h.magic == MAGIC
    &&& h.format_version == FORMAT_VERSION
    &&& h.slot_count == slot_count
    &&& h.slot_size_bytes == slot_size_bytes
    &&& h.handle_blake3 == digest
}

/// How a header is refused that a sender does not accept: the magic first,
/// then format and geometry, then the digest.
pub open spec fn refused_with(
    h: HeaderView,
    digest: Seq<u8>,
    slot_count: u32,
    slot_size_bytes: u32,
    e: TesseraChannelError,
) -> bool {
    if h.magic != MAGIC {
        error::is_region(
            e,
            "magic mismatch: expected 0x"@ + text::hex(MAGIC as nat) + ", found 0x"@ + text::hex(
                h.magic as nat,
            ) + " (not a Tessera Channel region?)"@,
        )
    } else if h.format_version != FORMAT_VERSION || h.slot_count != slot_count || h.slot_size_bytes
        != slot_size_bytes {
        e matches TesseraChannelError::HeaderMismatch {
            message,
            expected_format,
            found_format,
            expected_count,
            found_count,
            expected_size,
            found_size,
        } && message@ == "format / geometry mismatch"@ && expected_format == FORMAT_VERSION
            && found_format == h.format_version && expected_count == slot_count && found_count
            == h.slot_count && expected_size == slot_size_bytes && found_size == h.slot_size_bytes
    } else {
        error::is_region(
            e,
            "handle digest mismatch on attach — your description derives a different handle than the creator's; verify the description string matches across processes (header_blake3 in SHM differs from BLAKE3("@
                + text::debug_text(namespace::shm_name_of(digest)) + "))"@,
        )
    }
}

/// A fresh mapping, all zeros, becomes an empty queue under its header.
pub proof fn law_fresh_segment_is_empty(mem: Seq<u8>, h: HeaderView, n: nat, size: int)
    requires
        0 <= size,
        header::segment_len(n as int, size) <= mem.len(),
        h.handle_blake3.len() == 32,
        h.reserved.len() == 40,
        h.head == 0,
        h.tail == 0,
        bytes::is_zero(mem),
    ensures
        HeaderView::of(bytes::overwrite(mem, 0, h.bytes())) == h,
        ({
            let q = queue_of(bytes::overwrite(mem, 0, h.bytes()), n, size);
            &&& q.head == 0
            &&& q.tail == 0
            &&& forall|i: int|
                0 <= i < n ==> (#[trigger] q.slots[i]).ready == 0 && q.slots[i].payload.len()
                    == size
        }),
{
    let out = bytes::overwrite(mem, 0, h.bytes());
    header::law_header_round_trip(h);
    assert(0 <= n * (56 + size)) by (nonlinear_arith)
        requires
            0 <= size,
    ;
    assert forall|p: int, k: int| 0 <= p && 0 <= k && p + k <= 120 implies #[trigger] bytes::range(
        out,
        p,
        k,
    ) == bytes::range(h.bytes(), p, k) by {
        assert(bytes::range(out, p, k) =~= bytes::range(h.bytes(), p, k));
    }
    assert(HeaderView::of(out) == HeaderView::of(h.bytes()));
    assert forall|i: int| 0 <= i < n implies (#[trigger] queue_of(out, n, size).slots[i]).ready
        == 0 && queue_of(out, n, size).slots[i].payload.len() == size by {
        header::law_layout(i, i, n as int, size);
        let at = header::slot_start(i, size) + 8;
        bytes::lemma_int_round_trip(0, 0);
        assert(bytes::range(out, at, 8) =~= bytes::le_bytes(0, 8)) by {
            reveal_with_fuel(bytes::le_bytes, 9);
        }
    }
}

/// A sender that asks for what the receiver created is accepted.
pub proof fn law_attach_accepts_created(
    mem: Seq<u8>,
    digest: Seq<u8>,
    epoch: u64,
    n: u32,
    size: u32,
)
    requires
        120 <= mem.len(),
        digest.len() == 32,
    ensures
        accepts(
            HeaderView::of(
                bytes::overwrite(mem, 0, fresh_header(digest, epoch, n, size).bytes()),
            ),
            digest,
            n,
            size,
        ),
{
    let h = fresh_header(digest, epoch, n, size);
    header::law_header_round_trip(h);
    let out = bytes::overwrite(mem, 0, h.bytes());
    assert forall|p: int, k: int| 0 <= p && 0 <= k && p + k <= 120 implies #[trigger] bytes::range(
        out,
        p,
        k,
    ) == bytes::range(h.bytes(), p, k) by {
        assert(bytes::range(out, p, k) =~= bytes::range(h.bytes(), p, k));
    }
    assert(HeaderView::of(out) == HeaderView::of(h.bytes()));
}

/// What writing one of the shared fields does to the queue: that field
/// changes and nothing else.
pub proof fn lemma_counter_change(mem: Seq<u8>, n: nat, size: int, v: u64)
    requires
        0 <= size,
        header::segment_len(n as int, size) <= mem.len(),
    ensures
        queue_of(bytes::overwrite(mem, 32, bytes::le_bytes(v as nat, 8)), n, size) == (QueueView {
            head: v,
            ..queue_of(mem, n, size)
        }),
        queue_of(bytes::overwrite(mem, 40, bytes::le_bytes(v as nat, 8)), n, size) == (QueueView {
            tail: v,
            ..queue_of(mem, n, size)
        }),
        same_header(mem, bytes::overwrite(mem, 32, bytes::le_bytes(v as nat, 8))),
        same_header(mem, bytes::overwrite(mem, 40, bytes::le_bytes(v as nat, 8))),
{
    assert(0 <= n * (56 + size)) by (nonlinear_arith)
        requires
            0 <= size,
    ;
    bytes::lemma_int_round_trip(0, v);
    let w = bytes::le_bytes(v as nat, 8);
    bytes::lemma_overwrite(mem, 32, w);
    bytes::lemma_overwrite(mem, 40, w);
    let a = bytes::overwrite(mem, 32, w);
    let b = bytes::overwrite(mem, 40, w);
    assert forall|i: int| 0 <= i < n implies slot_at(a, header::slot_start(i, size), size)
        == slot_at(mem, header::slot_start(i, size), size) && slot_at(
        b,
        header::slot_start(i, size),
        size,
    ) == slot_at(mem, header::slot_start(i, size), size) by {
        header::law_layout(i, i, n as int, size);
    }
    assert(queue_of(a, n, size).slots =~= queue_of(mem, n, size).slots);
    assert(queue_of(b, n, size).slots =~= queue_of(mem, n, size).slots);
}

/// What writing inside slot `i` does to the queue: nothing outside that
/// slot.
proof fn lemma_slot_frame(mem: Seq<u8>, n: nat, size: int, i: int, off: int, w: Seq<u8>)
    requires
        0 <= size,
        header::segment_len(n as int, size) <= mem.len(),
        0 <= i < n,
        0 <= off,
        off + w.len() <= 56 + size,
    ensures
        ({
            let at = header::slot_start(i, size);
            let out = bytes::overwrite(mem, at + off, w);
            &&& queue_of(out, n, size) == queue_of(mem, n, size).with_slot(
                i,
                slot_at(out, at, size),
            )
            &&& same_header(mem, out)
        }),
{
    let at = header::slot_start(i, size);
    let out = bytes::overwrite(mem, at + off, w);
    header::law_layout(i, i, n as int, size);
    bytes::lemma_overwrite(mem, at + off, w);
    assert forall|j: int| 0 <= j < n && j != i implies slot_at(
        out,
        header::slot_start(j, size),
        size,
    ) == slot_at(mem, header::slot_start(j, size), size) by {
        header::law_layout(i, j, n as int, size);
        header::law_layout(j, i, n as int, size);
    }
    assert(queue_of(out, n, size).slots =~= queue_of(mem, n, size).with_slot(
        i,
        slot_at(out, at, size),
    ).slots);
}

/// What writing one field of slot `i` does to the queue: that field changes
/// and nothing else.
pub proof fn lemma_slot_change(
    mem: Seq<u8>,
    n: nat,
    size: int,
    i: int,
    word: u64,
    half: u32,
    msg: Seq<u8>,
)
    requires
        0 <= size,
        header::segment_len(n as int, size) <= mem.len(),
        0 <= i < n,
        msg.len() <= size,
    ensures
        ({
            let at = header::slot_start(i, size);
            let q = queue_of(mem, n, size);
            let s = q.slots[i];
            let w = bytes::le_bytes(word as nat, 8);
            let h = bytes::le_bytes(half as nat, 4);
            &&& queue_of(bytes::overwrite(mem, at, w), n, size) == q.with_slot(
                i,
                SlotView { sequence: word, ..s },
            )
            &&& queue_of(bytes::overwrite(mem, at + 8, w), n, size) == q.with_slot(
                i,
                SlotView { ready: word, ..s },
            )
            &&& queue_of(bytes::overwrite(mem, at + 16, h), n, size) == q.with_slot(
                i,
                SlotView { length: half, ..s },
            )
            &&& queue_of(bytes::overwrite(mem, at + 24, w), n, size) == q.with_slot(
                i,
                SlotView { timestamp: word, ..s },
            )
            &&& queue_of(bytes::overwrite(mem, at + 56, msg), n, size) == q.with_slot(
                i,
                SlotView { payload: bytes::overwrite(s.payload, 0, msg), ..s },
            )
            &&& same_header(mem, bytes::overwrite(mem, at, w))
            &&& same_header(mem, bytes::overwrite(mem, at + 8, w))
            &&& same_header(mem, bytes::overwrite(mem, at + 16, h))
            &&& same_header(mem, bytes::overwrite(mem, at + 24, w))
            &&& same_header(mem, bytes::overwrite(mem, at + 56, msg))
        }),
{
    let at = header::slot_start(i, size);
    let w = bytes::le_bytes(word as nat, 8);
    let h = bytes::le_bytes(half as nat, 4);
    bytes::lemma_int_round_trip(half, word);
    header::law_layout(i, i, n as int, size);
    lemma_slot_frame(mem, n, size, i, 0, w);
    lemma_slot_frame(mem, n, size, i, 8, w);
    lemma_slot_frame(mem, n, size, i, 16, h);
    lemma_slot_frame(mem, n, size, i, 24, w);
    lemma_slot_frame(mem, n, size, i, 56, msg);
    bytes::lemma_overwrite(mem, at, w);
    bytes::lemma_overwrite(mem, at + 8, w);
    bytes::lemma_overwrite(mem, at + 16, h);
    bytes::lemma_overwrite(mem, at + 24, w);
    bytes::lemma_overwrite(mem, at + 56, msg);
    let s = slot_at(mem, at, size);
    assert(queue_of(mem, n, size).slots[i] == s);
    assert(slot_at(bytes::overwrite(mem, at, w), at, size) == (SlotView { sequence: word, ..s }));
    assert(slot_at(bytes::overwrite(mem, at + 8, w), at, size) == (SlotView { ready: word, ..s }));
    assert(slot_at(bytes::overwrite(mem, at + 16, h), at, size) == (SlotView { length: half, ..s }));
    assert(slot_at(bytes::overwrite(mem, at + 24, w), at, size) == (SlotView {
        timestamp: word,
        ..s
    }));
    let out = bytes::overwrite(mem, at + 56, msg);
    assert(bytes::range(out, at + 56, size) =~= bytes::overwrite(s.payload, 0, msg));
    assert(slot_at(out, at, size) == (SlotView {
        payload: bytes::overwrite(s.payload, 0, msg),
        ..s
    }));
}

/// Writes a 64-bit word.
fn put_u64(mem: &mut [u8], at: usize, v: u64)
    requires
        at + 8 <= old(mem)@.len(),
    ensures
        final(mem)@ == bytes::overwrite(old(mem)@, at as int, bytes::le_bytes(v as nat, 8)),
{
    let mut w: Vec<u8> = Vec::new();
    push_le(&mut w, v, 8);
    proof {
        bytes::lemma_int_round_trip(0, v);
        assert(w@ =~= bytes::le_bytes(v as nat, 8));
    }
    copy_in(mem, at, w.as_slice());
}

/// Writes a 32-bit word.
fn put_u32(mem: &mut [u8], at: usize, v: u32)
    requires
        at + 4 <= old(mem)@.len(),
    ensures
        final(mem)@ == bytes::overwrite(old(mem)@, at as int, bytes::le_bytes(v as nat, 4)),
{
    let mut w: Vec<u8> = Vec::new();
    push_le(&mut w, v as u64, 4);
    proof {
        bytes::lemma_int_round_trip(v, 0);
        assert(w@ =~= bytes::le_bytes(v as nat, 4));
    }
    copy_in(mem, at, w.as_slice());
}

impl Region {
    /// Size of the segment to create, or why the geometry is refused.
    pub fn plan_create(slot_count: u32, slot_size_bytes: u32) -> (r: Result<usize>)
        ensures
            match create_refusal(slot_count, slot_size_bytes) {
                Some(words) => r matches Err(e) && error::is_config(e, words),
                None => r == Ok::<usize, TesseraChannelError>(
                    header::segment_len(slot_count as int, slot_size_bytes as int) as usize,
                ),
            },
    {
        if slot_count == 0 {
            return Err(TesseraChannelError::Config(String::from_str("slot_count must be > 0")));
        }
        if slot_size_bytes == 0 {
            return Err(
                TesseraChannelError::Config(String::from_str("slot_size_bytes must be > 0")),
            );
        }
        if slot_size_bytes % 8 != 0 {
            let mut m = String::from_str("slot_size_bytes=");
            text::push_dec(&mut m, slot_size_bytes as u64);
            m.append(
                " is not a multiple of 8; slot stride must be 8-byte-aligned for AtomicU64 access on per-slot `sequence` and `ready` fields (round up to ",
            );
            text::push_dec(&mut m, ((slot_size_bytes as u64 + 7) / 8) * 8);
            m.append(")");
            return Err(TesseraChannelError::Config(m));
        }
        match region_size_bytes(slot_count, slot_size_bytes) {
            Some(size) => Ok(size),
            None => {
                let mut m = String::from_str("region size overflow: slot_count=");
                text::push_dec(&mut m, slot_count as u64);
                m.append(" * slot_size_bytes=");
                text::push_dec(&mut m, slot_size_bytes as u64);
                m.append(" exceeds usize::MAX. Reduce one or both.");
                Err(TesseraChannelError::Config(m))
            },
        }
    }

    /// Decides what follows an attempt to create the named segment.
    pub fn create_step(
        handle: &NamespaceHandle,
        outcome: MapOutcome,
        retried: bool,
        force_recreate: bool,
    ) -> (r: Result<CreateStep>)
        ensures
            match outcome {
                MapOutcome::Mapped => r == Ok::<CreateStep, TesseraChannelError>(CreateStep::Stamp),
                MapOutcome::Exists(e) => if !retried && force_recreate {
                    r == Ok::<CreateStep, TesseraChannelError>(CreateStep::UnlinkAndRetry)
                } else if !retried {
                    r matches Err(x) && error::is_region(
                        x,
                        exists_words(namespace::shm_name_of(handle@)),
                    )
                } else {
                    r matches Err(x) && error::is_region(
                        x,
                        lifecycle::create_failure_text(retried, e@),
                    )
                },
                MapOutcome::Failed(e) => r matches Err(x) && error::is_region(
                    x,
                    lifecycle::create_failure_text(retried, e@),
                ),
            },
    {
        let mut refusal = String::from_str("Channel region '");
        refusal.append(handle.shm_name().as_str());
        refusal.append(
            "' already exists. Refusing to clobber. Possible causes: another Receiver is alive (do not create a second), OR a prior Receiver crashed without unlinking. For recovery from a crashed Receiver, retry with `force_recreate=true` — but only after confirming no live Receiver exists.",
        );
        match lifecycle::create_step(outcome, retried, force_recreate, refusal) {
            Ok(step) => Ok(step),
            Err(m) => Err(TesseraChannelError::Region(m)),
        }
    }

    /// Receiver path: stamps the header of a fresh mapping. The mapping is
    /// expected to be zeroed, which is an empty slot table.
    pub fn create(
        mem: &mut [u8],
        handle: &NamespaceHandle,
        slot_count: u32,
        slot_size_bytes: u32,
        epoch_micros: u64,
    ) -> (r: Result<Region>)
        requires
            create_refusal(slot_count, slot_size_bytes) is None ==> header::segment_len(
                slot_count as int,
                slot_size_bytes as int,
            ) <= old(mem)@.len(),
        ensures
            match create_refusal(slot_count, slot_size_bytes) {
                Some(words) => r matches Err(e) && error::is_config(e, words) && final(mem)@
                    == old(mem)@,
                None => r matches Ok(region) && region@ == (RegionView {
                    slot_count,
                    slot_size_bytes,
                    name: namespace::shm_name_of(handle@),
                    owner: true,
                    unlinked: false,
                }) && final(mem)@ == bytes::overwrite(
                    old(mem)@,
                    0,
                    fresh_header(handle@, epoch_micros, slot_count, slot_size_bytes).bytes(),
                ),
            },
    {
        match Region::plan_create(slot_count, slot_size_bytes) {
            Ok(_) => {},
            Err(e) => return Err(e),
        }
        let h = Header {
            magic: MAGIC,
            format_version: FORMAT_VERSION,
            _pad0: 0,
            epoch_micros,
            slot_count,
            slot_size_bytes,
            head: 0,
            tail: 0,
            handle_blake3: handle.full_digest(),
            _reserved: [0u8; 40],
        };
        proof {
            assert(h@ =~= fresh_header(handle@, epoch_micros, slot_count, slot_size_bytes));
            assert(0 <= slot_count * (56 + slot_size_bytes)) by (nonlinear_arith);
        }
        copy_in(mem, 0, h.to_bytes().as_slice());
        Ok(
            Region {
                slot_count,
                slot_size_bytes,
                shm_name: handle.shm_name(),
                is_owner: true,
                manually_unlinked: false,
            },
        )
    }

    /// Checks the geometry a sender asks for, before a segment is opened.
    pub fn plan_attach(expected_slot_count: u32, expected_slot_size_bytes: u32) -> (r: Result<()>)
        ensures
            match attach_refusal(expected_slot_count, expected_slot_size_bytes) {
                Some(words) => r matches Err(e) && error::is_config(e, words),
                None => r is Ok,
            },
    {
        if expected_slot_count == 0 {
            return Err(
                TesseraChannelError::Config(String::from_str("expected_slot_count must be > 0")),
            );
        }
        if expected_slot_size_bytes == 0 {
            return Err(
                TesseraChannelError::Config(
                    String::from_str("expected_slot_size_bytes must be > 0"),
                ),
            );
        }
        if expected_slot_size_bytes % 8 != 0 {
            let mut m = String::from_str("expected_slot_size_bytes=");
            text::push_dec(&mut m, expected_slot_size_bytes as u64);
            m.append(
                " is not a multiple of 8; senders must match the receiver's 8-aligned geometry",
            );
            return Err(TesseraChannelError::Config(m));
        }
        Ok(())
    }

    /// Sender path: checks the length and the header of an existing mapping
    /// against what the caller expects. A mapping that is too short is
    /// refused before anything in it is read.
    pub fn attach(
        mem: &[u8],
        handle: &NamespaceHandle,
        expected_slot_count: u32,
        expected_slot_size_bytes: u32,
    ) -> (r: Result<Region>)
        ensures
            ({
                let n = expected_slot_count;
                let size = expected_slot_size_bytes;
                let need = header::segment_len(n as int, size as int);
                let h = HeaderView::of(mem@);
                if attach_refusal(n, size) is Some {
                    r matches Err(e) && error::is_config(e, attach_refusal(n, size)->0)
                } else if need > usize::MAX {
                    r matches Err(e) && error::is_config(
                        e,
                        "region size overflow: slot_count="@ + text::dec(n as nat)
                            + " * slot_size_bytes="@ + text::dec(size as nat)
                            + " exceeds usize::MAX"@,
                    )
                } else if mem@.len() < need {
                    r matches Err(e) && error::is_region(
                        e,
                        short_words(namespace::shm_name_of(handle@), need as nat, mem@.len()),
                    )
                } else {
                    match r {
                        Ok(region) => accepts(h, handle@, n, size) && region@ == (RegionView {
                            slot_count: n,
                            slot_size_bytes: size,
                            name: namespace::shm_name_of(handle@),
                            owner: false,
                            unlinked: false,
                        }),
                        Err(e) => !accepts(h, handle@, n, size) && refused_with(
                            h,
                            handle@,
                            n,
                            size,
                            e,
                        ),
                    }
                }
            }),
    {
        match Region::plan_attach(expected_slot_count, expected_slot_size_bytes) {
            Ok(_) => {},
            Err(e) => return Err(e),
        }
        let expected_size: usize = match region_size_bytes(
            expected_slot_count,
            expected_slot_size_bytes,
        ) {
            Some(size) => size,
            None => {
                let mut m = String::from_str("region size overflow: slot_count=");
                text::push_dec(&mut m, expected_slot_count as u64);
                m.append(" * slot_size_bytes=");
                text::push_dec(&mut m, expected_slot_size_bytes as u64);
                m.append(" exceeds usize::MAX");
                return Err(TesseraChannelError::Config(m));
            },
        };
        let shm_name = handle.shm_name();
        if mem.len() < expected_size {
            let mut m = String::from_str("attached SHM region '");
            m.append(shm_name.as_str());
            m.append("' is smaller than expected: caller's config requires at least ");
            text::push_dec(&mut m, expected_size as u64);
            m.append(" bytes, but the mapped region is only ");
            text::push_dec(&mut m, mem.len() as u64);
            m.append(
                " bytes. Possible causes: stale segment from a crashed prior Receiver, wrong namespace handle, or config doesn't match the Receiver's.",
            );
            return Err(TesseraChannelError::Region(m));
        }
        let region = Region {
            slot_count: expected_slot_count,
            slot_size_bytes: expected_slot_size_bytes,
            shm_name,
            is_owner: false,
            manually_unlinked: false,
        };
        proof {
            assert(0 <= expected_slot_count * (56 + expected_slot_size_bytes)) by (nonlinear_arith);
        }
        let h = region.read_header(mem);
        if h.magic != MAGIC {
            let mut m = String::from_str("magic mismatch: expected 0x");
            text::push_hex(&mut m, MAGIC);
            m.append(", found 0x");
            text::push_hex(&mut m, h.magic);
            m.append(" (not a Tessera Channel region?)");
            return Err(TesseraChannelError::Region(m));
        }
        if h.format_version != FORMAT_VERSION || h.slot_count != expected_slot_count
            || h.slot_size_bytes != expected_slot_size_bytes {
            return Err(
                TesseraChannelError::HeaderMismatch {
                    message: String::from_str("format / geometry mismatch"),
                    expected_format: FORMAT_VERSION,
                    found_format: h.format_version,
                    expected_count: expected_slot_count,
                    found_count: h.slot_count,
                    expected_size: expected_slot_size_bytes,
                    found_size: h.slot_size_bytes,
                },
            );
        }
        if !bytes_eq(h.handle_blake3.as_slice(), handle.full_digest().as_slice()) {
            let mut m = String::from_str(
                "handle digest mismatch on attach — your description derives a different handle than the creator's; verify the description string matches across processes (header_blake3 in SHM differs from BLAKE3(",
            );
            m.append(text::debug_string(handle.shm_name().as_str()).as_str());
            m.append("))");
            return Err(TesseraChannelError::Region(m));
        }
        Ok(region)
    }

    /// Whether this region was created, as opposed to attached.
    pub fn is_owner(&self) -> (r: bool)
        ensures
            r == self@.owner,
    {
        self.is_owner
    }

    /// Number of slots.
    pub fn slot_count(&self) -> (r: u32)
        ensures
            r == self@.slot_count,
    {
        self.slot_count
    }

    /// Payload bytes per slot.
    pub fn slot_size_bytes(&self) -> (r: u32)
        ensures
            r == self@.slot_size_bytes,
    {
        self.slot_size_bytes
    }

    /// Name of the segment.
    pub fn shm_name(&self) -> (r: &str)
        ensures
            r@ == self@.name,
    {
        self.shm_name.as_str()
    }

    /// Wall-clock microseconds at creation, as the header says.
    pub fn epoch_micros(&self, mem: &[u8]) -> (r: u64)
        requires
            mem@.len() >= Header::SIZE,
        ensures
            r == HeaderView::of(mem@).epoch_micros,
    {
        self.read_header(mem).epoch_micros
    }

    /// The header of the segment.
    pub fn read_header(&self, mem: &[u8]) -> (h: Header)
        requires
            mem@.len() >= Header::SIZE,
        ensures
            h@ == HeaderView::of(mem@),
    {
        Header::from_bytes(mem)
    }

    /// Offset of the head counter, for atomic access.
    pub fn head_atomic(&self) -> (r: usize)
        ensures
            r == HEAD_FIELD_OFFSET,
            r % 8 == 0,
            r + 8 <= Header::SIZE,
    {
        HEAD_FIELD_OFFSET
    }

    /// Offset of the tail counter, for atomic access.
    pub fn tail_atomic(&self) -> (r: usize)
        ensures
            r == TAIL_FIELD_OFFSET,
            r % 8 == 0,
            r + 8 <= Header::SIZE,
    {
        TAIL_FIELD_OFFSET
    }

    fn check_slot_index(&self, slot_index: u32) -> (r: Result<()>)
        ensures
            match r {
                Ok(_) => slot_index < self@.slot_count,
                Err(e) => slot_index >= self@.slot_count && error::is_region(
                    e,
                    slot_range_words(slot_index, self@.slot_count),
                ),
            },
    {
        if slot_index >= self.slot_count {
            let mut m = String::from_str("slot_index ");
            text::push_dec(&mut m, slot_index as u64);
            m.append(" out of range (slot_count=");
            text::push_dec(&mut m, self.slot_count as u64);
            m.append(")");
            return Err(TesseraChannelError::Region(m));
        }
        Ok(())
    }

    /// Offset of a word in a slot header.
    fn slot_word_offset(&self, slot_index: u32, field: usize) -> (r: Result<usize>)
        requires
            header::segment_len(self@.slot_count as int, self@.slot_size_bytes as int)
                <= usize::MAX,
            field + 8 <= SlotHeader::SIZE,
        ensures
            match r {
                Ok(at) => {
                    &&& slot_index < self@.slot_count
                    &&& at == header::slot_start(slot_index as int, self@.slot_size_bytes as int)
                        + field
                    &&& at + 8 <= header::segment_len(
                        self@.slot_count as int,
                        self@.slot_size_bytes as int,
                    )
                    &&& self@.slot_size_bytes % 8 == 0 && field % 8 == 0 ==> at % 8 == 0
                },
                Err(e) => slot_index >= self@.slot_count && error::is_region(
                    e,
                    slot_range_words(slot_index, self@.slot_count),
                ),
            },
    {
        match self.check_slot_index(slot_index) {
            Ok(_) => {},
            Err(e) => return Err(e),
        }
        proof {
            header::law_layout(
                slot_index as int,
                slot_index as int,
                self@.slot_count as int,
                self@.slot_size_bytes as int,
            );
        }
        Ok(slot_header_offset(slot_index, self.slot_size_bytes) + field)
    }

    /// Offset of a slot's sequence word, for atomic access.
    pub fn slot_sequence_atomic(&self, slot_index: u32) -> (r: Result<usize>)
        requires
            header::segment_len(self@.slot_count as int, self@.slot_size_bytes as int)
                <= usize::MAX,
        ensures
            match r {
                Ok(at) => {
                    &&& slot_index < self@.slot_count
                    &&& at == header::slot_start(slot_index as int, self@.slot_size_bytes as int)
                    &&& at + 8 <= header::segment_len(
                        self@.slot_count as int,
                        self@.slot_size_bytes as int,
                    )
                    &&& self@.slot_size_bytes % 8 == 0 ==> at % 8 == 0
                },
                Err(e) => slot_index >= self@.slot_count && error::is_region(
                    e,
                    slot_range_words(slot_index, self@.slot_count),
                ),
            },
    {
        self.slot_word_offset(slot_index, SLOT_SEQUENCE_FIELD_OFFSET)
    }

    /// Offset of a slot's ready word, for atomic access.
    pub fn slot_ready_atomic(&self, slot_index: u32) -> (r: Result<usize>)
        requires
            header::segment_len(self@.slot_count as int, self@.slot_size_bytes as int)
                <= usize::MAX,
        ensures
            match r {
                Ok(at) => {
                    &&& slot_index < self@.slot_count
                    &&& at == header::slot_start(slot_index as int, self@.slot_size_bytes as int)
                        + 8
                    &&& at + 8 <= header::segment_len(
                        self@.slot_count as int,
                        self@.slot_size_bytes as int,
                    )
                    &&& self@.slot_size_bytes % 8 == 0 ==> at % 8 == 0
                },
                Err(e) => slot_index >= self@.slot_count && error::is_region(
                    e,
                    slot_range_words(slot_index, self@.slot_count),
                ),
            },
    {
        self.slot_word_offset(slot_index, SLOT_READY_FIELD_OFFSET)
    }

    /// Offset of a slot's payload, inside which all its payload bytes lie.
    pub fn slot_payload_ptr(&self, slot_index: u32) -> (r: Result<usize>)
        requires
            header::segment_len(self@.slot_count as int, self@.slot_size_bytes as int)
                <= usize::MAX,
        ensures
            match r {
                Ok(at) => {
                    &&& slot_index < self@.slot_count
                    &&& at == header::slot_start(slot_index as int, self@.slot_size_bytes as int)
                        + 56
                    &&& at + self@.slot_size_bytes <= header::segment_len(
                        self@.slot_count as int,
                        self@.slot_size_bytes as int,
                    )
                },
                Err(e) => slot_index >= self@.slot_count && error::is_region(
                    e,
                    slot_range_words(slot_index, self@.slot_count),
                ),
            },
    {
        match self.check_slot_index(slot_index) {
            Ok(_) => {},
            Err(e) => return Err(e),
        }
        proof {
            header::law_layout(
                slot_index as int,
                slot_index as int,
                self@.slot_count as int,
                self@.slot_size_bytes as int,
            );
        }
        Ok(slot_payload_offset(slot_index, self.slot_size_bytes))
    }

    /// The head counter.
    pub fn load_head(&self, mem: &[u8]) -> (r: u64)
        requires
            self@.fits(mem@),
        ensures
            r == self@.queue(mem@).head,
    {
        proof {
            assert(0 <= self@.slot_count * (56 + self@.slot_size_bytes)) by (nonlinear_arith);
        }
        read_u64(mem, HEAD_FIELD_OFFSET)
    }

    /// The tail counter.
    pub fn load_tail(&self, mem: &[u8]) -> (r: u64)
        requires
            self@.fits(mem@),
        ensures
            r == self@.queue(mem@).tail,
    {
        proof {
            assert(0 <= self@.slot_count * (56 + self@.slot_size_bytes)) by (nonlinear_arith);
        }
        read_u64(mem, TAIL_FIELD_OFFSET)
    }

    /// Sets the head counter.
    pub fn store_head(&self, mem: &mut [u8], v: u64)
        requires
            self@.fits(old(mem)@),
        ensures
            self@.queue(final(mem)@) == (QueueView { head: v, ..self@.queue(old(mem)@) }),
            same_header(old(mem)@, final(mem)@),
    {
        proof {
            assert(0 <= self@.slot_count * (56 + self@.slot_size_bytes)) by (nonlinear_arith);
            lemma_counter_change(
                mem@,
                self@.slot_count as nat,
                self@.slot_size_bytes as int,
                v,
            );
        }
        put_u64(mem, HEAD_FIELD_OFFSET, v);
    }

    /// Sets the tail counter.
    pub fn store_tail(&self, mem: &mut [u8], v: u64)
        requires
            self@.fits(old(mem)@),
        ensures
            self@.queue(final(mem)@) == (QueueView { tail: v, ..self@.queue(old(mem)@) }),
            same_header(old(mem)@, final(mem)@),
    {
        proof {
            assert(0 <= self@.slot_count * (56 + self@.slot_size_bytes)) by (nonlinear_arith);
            lemma_counter_change(
                mem@,
                self@.slot_count as nat,
                self@.slot_size_bytes as int,
                v,
            );
        }
        put_u64(mem, TAIL_FIELD_OFFSET, v);
    }

    /// A slot's sequence word.
    pub fn load_sequence(&self, mem: &[u8], slot_index: u32) -> (r: u64)
        requires
            self@.fits(mem@),
            slot_index < self@.slot_count,
        ensures
            r == self@.queue(mem@).slots[slot_index as int].sequence,
    {
        proof {
            header::law_layout(
                slot_index as int,
                slot_index as int,
                self@.slot_count as int,
                self@.slot_size_bytes as int,
            );
        }
        read_u64(mem, slot_header_offset(slot_index, self.slot_size_bytes))
    }

    /// A slot's ready word.
    pub fn load_ready(&self, mem: &[u8], slot_index: u32) -> (r: u64)
        requires
            self@.fits(mem@),
            slot_index < self@.slot_count,
        ensures
            r == self@.queue(mem@).slots[slot_index as int].ready,
    {
        proof {
            header::law_layout(
                slot_index as int,
                slot_index as int,
                self@.slot_count as int,
                self@.slot_size_bytes as int,
            );
        }
        read_u64(
            mem,
            slot_header_offset(slot_index, self.slot_size_bytes) + SLOT_READY_FIELD_OFFSET,
        )
    }

    /// Sets a slot's sequence word.
    pub fn store_sequence(&self, mem: &mut [u8], slot_index: u32, v: u64)
        requires
            self@.fits(old(mem)@),
            slot_index < self@.slot_count,
        ensures
            self@.queue(final(mem)@) == self@.queue(old(mem)@).with_slot(
                slot_index as int,
                SlotView { sequence: v, ..self@.queue(old(mem)@).slots[slot_index as int] },
            ),
            same_header(old(mem)@, final(mem)@),
    {
        proof {
            header::law_layout(
                slot_index as int,
                slot_index as int,
                self@.slot_count as int,
                self@.slot_size_bytes as int,
            );
            lemma_slot_change(
                mem@,
                self@.slot_count as nat,
                self@.slot_size_bytes as int,
                slot_index as int,
                v,
                0,
                Seq::empty(),
            );
        }
        put_u64(mem, slot_header_offset(slot_index, self.slot_size_bytes), v);
    }

    /// Sets a slot's ready word.
    pub fn store_ready(&self, mem: &mut [u8], slot_index: u32, v: u64)
        requires
            self@.fits(old(mem)@),
            slot_index < self@.slot_count,
        ensures
            self@.queue(final(mem)@) == self@.queue(old(mem)@).with_slot(
                slot_index as int,
                SlotView { ready: v, ..self@.queue(old(mem)@).slots[slot_index as int] },
            ),
            same_header(old(mem)@, final(mem)@),
    {
        proof {
            header::law_layout(
                slot_index as int,
                slot_index as int,
                self@.slot_count as int,
                self@.slot_size_bytes as int,
            );
            lemma_slot_change(
                mem@,
                self@.slot_count as nat,
                self@.slot_size_bytes as int,
                slot_index as int,
                v,
                0,
                Seq::empty(),
            );
        }
        put_u64(
            mem,
            slot_header_offset(slot_index, self.slot_size_bytes) + SLOT_READY_FIELD_OFFSET,
            v,
        );
    }

    /// Writes length and timestamp of a slot.
    pub fn write_slot_metadata(
        &self,
        mem: &mut [u8],
        slot_index: u32,
        length: u32,
        timestamp_nanos: u64,
    ) -> (r: Result<()>)
        requires
            self@.fits(old(mem)@),
        ensures
            same_header(old(mem)@, final(mem)@),
            match r {
                Ok(_) => slot_index < self@.slot_count && self@.queue(final(mem)@) == self@.queue(
                    old(mem)@,
                ).with_slot(
                    slot_index as int,
                    SlotView {
                        length,
                        timestamp: timestamp_nanos,
                        ..self@.queue(old(mem)@).slots[slot_index as int]
                    },
                ),
                Err(e) => slot_index >= self@.slot_count && error::is_region(
                    e,
                    slot_range_words(slot_index, self@.slot_count),
                ) && final(mem)@ == old(mem)@,
            },
    {
        match self.check_slot_index(slot_index) {
            Ok(_) => {},
            Err(e) => return Err(e),
        }
        let ghost q0 = self@.queue(mem@);
        proof {
            header::law_layout(
                slot_index as int,
                slot_index as int,
                self@.slot_count as int,
                self@.slot_size_bytes as int,
            );
            lemma_slot_change(
                mem@,
                self@.slot_count as nat,
                self@.slot_size_bytes as int,
                slot_index as int,
                0,
                length,
                Seq::empty(),
            );
        }
        let base: usize = slot_header_offset(slot_index, self.slot_size_bytes);
        put_u32(mem, base + SLOT_LENGTH_FIELD_OFFSET, length);
        proof {
            lemma_slot_change(
                mem@,
                self@.slot_count as nat,
                self@.slot_size_bytes as int,
                slot_index as int,
                timestamp_nanos,
                0,
                Seq::empty(),
            );
        }
        put_u64(mem, base + SLOT_TIMESTAMP_FIELD_OFFSET, timestamp_nanos);
        proof {
            assert(self@.queue(mem@) =~= q0.with_slot(
                slot_index as int,
                SlotView { length, timestamp: timestamp_nanos, ..q0.slots[slot_index as int] },
            ));
        }
        Ok(())
    }

    /// Reads length and timestamp of a slot.
    pub fn read_slot_metadata(&self, mem: &[u8], slot_index: u32) -> (r: Result<(u32, u64)>)
        requires
            self@.fits(mem@),
        ensures
            match r {
                Ok((length, timestamp)) => {
                    let s = self@.queue(mem@).slots[slot_index as int];
                    &&& slot_index < self@.slot_count
                    &&& length == s.length
                    &&& timestamp == s.timestamp
                },
                Err(e) => slot_index >= self@.slot_count && error::is_region(
                    e,
                    slot_range_words(slot_index, self@.slot_count),
                ),
            },
    {
        match self.check_slot_index(slot_index) {
            Ok(_) => {},
            Err(e) => return Err(e),
        }
        proof {
            header::law_layout(
                slot_index as int,
                slot_index as int,
                self@.slot_count as int,
                self@.slot_size_bytes as int,
            );
        }
        let base: usize = slot_header_offset(slot_index, self.slot_size_bytes);
        let length: u32 = read_u32(mem, base + SLOT_LENGTH_FIELD_OFFSET);
        let timestamp: u64 = read_u64(mem, base + SLOT_TIMESTAMP_FIELD_OFFSET);
        Ok((length, timestamp))
    }

    /// Copies a message to the start of a slot's payload.
    pub fn write_slot_payload(&self, mem: &mut [u8], slot_index: u32, message: &[u8])
        requires
            self@.fits(old(mem)@),
            slot_index < self@.slot_count,
            message@.len() <= self@.slot_size_bytes,
        ensures
            ({
                let s = self@.queue(old(mem)@).slots[slot_index as int];
                self@.queue(final(mem)@) == self@.queue(old(mem)@).with_slot(
                    slot_index as int,
                    SlotView { payload: bytes::overwrite(s.payload, 0, message@), ..s },
                )
            }),
            same_header(old(mem)@, final(mem)@),
    {
        proof {
            header::law_layout(
                slot_index as int,
                slot_index as int,
                self@.slot_count as int,
                self@.slot_size_bytes as int,
            );
            lemma_slot_change(
                mem@,
                self@.slot_count as nat,
                self@.slot_size_bytes as int,
                slot_index as int,
                0,
                0,
                message@,
            );
        }
        copy_in(mem, slot_payload_offset(slot_index, self.slot_size_bytes), message);
    }

    /// How much of a slot is its message, by the length in its header. A
    /// length beyond the slot's capacity is cut to it.
    pub fn message_len(&self, length: u32) -> (r: u32)
        ensures
            r == if length <= self@.slot_size_bytes {
                length
            } else {
                self@.slot_size_bytes
            },
    {
        if length <= self.slot_size_bytes {
            length
        } else {
            self.slot_size_bytes
        }
    }

    /// Copies out the message in a slot. A length beyond the slot's capacity
    /// is cut to it.
    pub fn read_message(&self, mem: &[u8], slot_index: u32) -> (out: Vec<u8>)
        requires
            self@.fits(mem@),
            slot_index < self@.slot_count,
        ensures
            out@ == self@.queue(mem@).slots[slot_index as int].message(),
    {
        proof {
            header::law_layout(
                slot_index as int,
                slot_index as int,
                self@.slot_count as int,
                self@.slot_size_bytes as int,
            );
        }
        let base: usize = slot_header_offset(slot_index, self.slot_size_bytes);
        let length: u32 = read_u32(mem, base + SLOT_LENGTH_FIELD_OFFSET);
        let out = copy_out(
            mem,
            slot_payload_offset(slot_index, self.slot_size_bytes),
            self.message_len(length) as usize,
        );
        assert(out@ =~= self@.queue(mem@).slots[slot_index as int].message());
        out
    }

    /// Whether the segment's name is to be removed: only by the receiver,
    /// and only once, since a successor may hold the name afterwards.
    pub fn unlink(&self) -> (r: Result<UnlinkStep>)
        ensures
            match lifecycle::unlink_asked(self@.owner, self@.unlinked) {
                Some(step) => r == Ok::<UnlinkStep, TesseraChannelError>(step),
                None => r matches Err(e) && error::is_region(e, sender_unlink_words()),
            },
    {
        if self.manually_unlinked {
            return Ok(UnlinkStep::Done);
        }
        if !self.is_owner {
            return Err(
                TesseraChannelError::Region(
                    String::from_str(
                        "Region::unlink called by a Sender (is_owner=false). Only the Receiver may unlink the shared-memory name. Drop this Region to release the Sender's mapping; the Receiver decides when to unlink.",
                    ),
                ),
            );
        }
        Ok(UnlinkStep::Call)
    }

    /// Whether the name goes with the handle: a creator that has not given
    /// it back removes it when the handle is dropped.
    pub fn unlinks_on_drop(&self) -> (r: bool)
        ensures
            r == lifecycle::name_goes_with_handle(self@.owner, self@.unlinked),
    {
        self.is_owner && !self.manually_unlinked
    }

    /// Takes in what came of removing the name: where it is gone, the
    /// region remembers so; where the call failed, nothing changes and the
    /// caller may try again.
    pub fn finish_unlink(&mut self, rc: i32, errno: Option<i32>, error: &str) -> (r: Result<()>)
        ensures
            match r {
                Ok(_) => lifecycle::name_is_gone(rc, errno) && final(self)@ == (RegionView {
                    unlinked: true,
                    ..old(self)@
                }),
                Err(e) => !lifecycle::name_is_gone(rc, errno) && error::is_region(
                    e,
                    lifecycle::unlink_failure_text(old(self)@.name, error@, errno),
                ) && final(self)@ == old(self)@,
            },
    {
        match lifecycle::judge_unlink(self.shm_name.as_str(), rc, errno, error) {
            Ok(_) => {},
            Err(m) => return Err(TesseraChannelError::Region(m)),
        }
        self.manually_unlinked = true;
        Ok(())
    }
}

} // verus!
