//! Ring handles: opening, publishing and polling.
//!
//! The operations here run an attempt on the mapped bytes to its end, for a
//! caller with the segment to itself. Processes that share a segment run
//! the attempts of [`crate::ring::protocol`] on atomic words instead.
use vstd::prelude::*;

use std::sync::Arc;

use crate::bytes;
use crate::ring::accounts;
use crate::ring::error;
use crate::ring::error::{Result, TesseraRingError};
use crate::ring::header;
use crate::ring::header::GlobalHeaderView;
use crate::ring::laws;
use crate::ring::namespace;
use crate::ring::namespace::NamespaceHandle;
use crate::ring::protocol;
use crate::ring::protocol::{
    Action, PollAttempt, PollPhase, PublishAttempt, PublishPhase, ODD_SEQUENCE_SPIN_BUDGET,
};
use crate::ring::region;
use crate::ring::region::{Region, RegionView, SectionView, SlotView};
use crate::ring::sections;
use crate::ring::sections::SectionConfig;
use crate::text;

verus! {

/// Construction parameters of a ring.
#[derive(Clone, Debug)]
pub struct RingConfig {
    /// Names the segment: processes with the same description meet there.
    pub description: String,
    /// The sections, in any order.
    pub sections: Vec<SectionConfig>,
    /// Create the segment, as opposed to attaching to it.
    pub is_owner: bool,
    /// Creator only: remove an existing segment of that name. The caller
    /// asserts that its creator is gone.
    pub force_recreate: bool,
}

/// How to get at the segment of a ring.
#[derive(Debug)]
pub enum OpenPlan {
    /// Create a segment of this name and size.
    Create {
        /// Segment name.
        name: String,
        /// Segment size in bytes.
        size: usize,
    },
    /// Open the segment of this name.
    Attach {
        /// Segment name.
        name: String,
    },
}

/// Name of the segment that a configuration leads to.
pub open spec fn config_name(c: RingConfig) -> Seq<char> {
    namespace::shm_name_of(crate::namespace::description_digest(c.description@))
}

impl RingConfig {
    /// Configuration of a creator with a single section.
    pub fn single_section(
        description: String,
        section_id: u32,
        slot_count: u32,
        slot_size_bytes: u32,
    ) -> (r: RingConfig)
        ensures
            r.description == description,
            r.sections@ == seq![SectionConfig { section_id, slot_count, slot_size_bytes }],
            r.is_owner,
            !r.force_recreate,
    {
        let mut list: Vec<SectionConfig> = Vec::new();
        list.push(SectionConfig::new(section_id, slot_count, slot_size_bytes));
        assert(list@ =~= seq![SectionConfig { section_id, slot_count, slot_size_bytes }]);
        RingConfig { description, sections: list, is_owner: true, force_recreate: false }
    }

    /// Checks the section list and says how to get at the segment.
    pub fn plan(&self) -> (r: Result<OpenPlan>)
        ensures
            if self.is_owner {
                match region::create_refusal(self.sections@) {
                    Some(words) => r matches Err(e) && error::is_config(e, words),
                    None => r matches Ok(OpenPlan::Create { name, size }) && name@ == config_name(
                        *self,
                    ) && size == header::segment_len(
                        sections::pairs(sections::canonical(self.sections@)),
                    ),
                }
            } else {
                match sections::list_refusal(self.sections@) {
                    Some(words) => r matches Err(e) && error::is_config(e, words),
                    None => r matches Ok(OpenPlan::Attach { name }) && name@ == config_name(*self),
                }
            },
    {
        let name = NamespaceHandle::derive(self.description.as_str()).shm_name();
        if self.is_owner {
            match Region::plan_create(self.sections.as_slice()) {
                Ok(size) => {
                    proof {
                        let ps = sections::pairs(sections::canonical(self.sections@));
                        header::lemma_data_start(ps, 0, ps.len());
                    }
                    Ok(OpenPlan::Create { name, size })
                },
                Err(e) => Err(e),
            }
        } else {
            match sections::validate_section_config(self.sections.as_slice()) {
                Ok(_) => Ok(OpenPlan::Attach { name }),
                Err(e) => Err(e),
            }
        }
    }
}

/// `Arc::clone` of std: another pointer to the same region.
#[verifier::external_body]
fn share_region(r: &Arc<Region>) -> (s: Arc<Region>)
    ensures
        s == *r,
{
    Arc::clone(r)
}

/// Handle of a ring, from which writers and readers are issued.
#[derive(Clone, Debug)]
pub struct Ring {
    region: Arc<Region>,
}

impl View for Ring {
    type V = RegionView;

    closed spec fn view(&self) -> RegionView {
        self.region@
    }
}

/// Handle to publish with. Any number may publish at once.
#[derive(Clone, Debug)]
pub struct Writer {
    region: Arc<Region>,
}

impl View for Writer {
    type V = RegionView;

    closed spec fn view(&self) -> RegionView {
        self.region@
    }
}

/// Handle to poll one section with. Readers keep their own cursors and do
/// not affect one another.
#[derive(Clone, Debug)]
pub struct Reader {
    region: Arc<Region>,
    section_id: u32,
    ordinal: u32,
    cursor: u64,
    dropped: u64,
}

/// What a reader knows.
pub struct ReaderView {
    /// Its segment.
    pub region: RegionView,
    /// Its section.
    pub section_id: u32,
    /// Ordinal of its section.
    pub ordinal: u32,
    /// Next position to deliver.
    pub cursor: u64,
    /// Positions that were passed over.
    pub dropped: u64,
}

impl View for Reader {
    type V = ReaderView;

    closed spec fn view(&self) -> ReaderView {
        ReaderView {
            region: self.region@,
            section_id: self.section_id,
            ordinal: self.ordinal,
            cursor: self.cursor,
            dropped: self.dropped,
        }
    }
}

impl Ring {
    /// The handle is as its constructor makes it.
    pub closed spec fn wf(&self) -> bool {
        self.region.wf()
    }
}

impl Writer {
    /// The handle is as its constructor makes it.
    pub closed spec fn wf(&self) -> bool {
        self.region.wf()
    }
}

impl Reader {
    /// The handle is as its constructor makes it.
    pub closed spec fn wf(&self) -> bool {
        &&& self.region.wf()
        &&& self.ordinal < self.region@.sections.len()
        &&& self.region@.sections[self.ordinal as int].section_id == self.section_id
    }
}

/// One event, copied out of the ring.
#[derive(Clone, Debug)]
pub struct Event {
    /// Section it was published to.
    pub section_id: u32,
    /// Position at which it was published.
    pub position: u64,
    /// Wall-clock nanoseconds at publish.
    pub timestamp_nanos: u64,
    /// Event bytes.
    pub payload: Vec<u8>,
}

/// What an event says.
pub struct EventView {
    pub section_id: u32,
    pub position: u64,
    pub timestamp_nanos: u64,
    pub payload: Seq<u8>,
}

impl View for Event {
    type V = EventView;

    open spec fn view(&self) -> EventView {
        EventView {
            section_id: self.section_id,
            position: self.position,
            timestamp_nanos: self.timestamp_nanos,
            payload: self.payload@,
        }
    }
}

/// What the events say.
pub open spec fn views(events: Seq<Event>) -> Seq<EventView> {
    Seq::new(events.len(), |i: int| events[i]@)
}

/// A reader's cursor and counts.
#[derive(Clone, Copy, Debug, PartialEq, Eq)]
pub struct ReaderStats {
    /// Its section.
    pub section_id: u32,
    /// Next position to deliver.
    pub cursor: u64,
    /// Writer position at the time.
    pub latest: u64,
    /// Positions that were passed over.
    pub dropped: u64,
}

/// Some section has this identifier.
pub open spec fn knows(list: Seq<SectionConfig>, section_id: u32) -> bool {
    exists|k: int| 0 <= k < list.len() && (#[trigger] list[k]).section_id == section_id
}

/// Ordinal of the section with this identifier.
pub open spec fn ordinal_of(list: Seq<SectionConfig>, section_id: u32) -> int {
    choose|k: int| 0 <= k < list.len() && (#[trigger] list[k]).section_id == section_id
}

/// `e` says that there is no such section.
pub open spec fn is_unknown(
    list: Seq<SectionConfig>,
    section_id: u32,
    e: TesseraRingError,
) -> bool {
    e matches TesseraRingError::UnknownSection { section_id: id, configured } && id == section_id
        && configured@ == sections::ids(list)
}

/// The section after an uncontended publish: the position moves on, and its
/// slot holds the event, stable again.
pub open spec fn after_publish(
    s: SectionView,
    n: u32,
    payload: Seq<u8>,
    timestamp: u64,
) -> SectionView {
    let i = protocol::slot_of(s.position, n) as int;
    let t = s.slots[i];
    SectionView {
        position: protocol::next_count(s.position),
        slots: s.slots.update(
            i,
            SlotView {
                sequence: protocol::next_count(protocol::next_count(t.sequence)),
                position: s.position,
                length: payload.len() as u32,
                timestamp,
                payload: bytes::overwrite(t.payload, 0, payload),
            },
        ),
    }
}

/// The slot of the next event is in the hands of a writer.
pub open spec fn next_slot_is_held(s: SectionView, n: u32) -> bool {
    s.slots[protocol::slot_of(s.position, n) as int].sequence % 2 != 0
}

/// The slot of position `p`.
pub open spec fn slot(s: SectionView, p: int, n: u32) -> SlotView {
    s.slots[p % n as int]
}

/// From where a reader at `cursor` delivers: past what may be overwritten.
pub open spec fn poll_start(cursor: u64, latest: u64, n: u32) -> u64 {
    if cursor < protocol::oldest(latest, n) {
        protocol::oldest(latest, n)
    } else {
        cursor
    }
}

/// The slot is in the hands of a writer or has the event of position `p`.
pub open spec fn settled(t: SlotView, p: int) -> bool {
    t.sequence % 2 != 0 || (t.position == p && !protocol::never_published(t.sequence, t.position))
}

/// Every slot between the positions is either held by a writer or has the
/// event of its position.
pub open spec fn pollable(s: SectionView, n: u32, from: int, to: int) -> bool {
    forall|p: int| from <= p < to ==> settled(#[trigger] slot(s, p, n), p)
}

/// The events of the stable slots between the positions, in order.
pub open spec fn events_between(
    s: SectionView,
    n: u32,
    section_id: u32,
    from: int,
    to: int,
) -> Seq<EventView>
    decreases to - from,
{
    if to <= from {
        Seq::empty()
    } else {
        let before = events_between(s, n, section_id, from, to - 1);
        let t = slot(s, to - 1, n);
        if t.sequence % 2 == 0 {
            before.push(
                EventView {
                    section_id,
                    position: t.position,
                    timestamp_nanos: t.timestamp,
                    payload: t.event(),
                },
            )
        } else {
            before
        }
    }
}

/// How many slots between the positions are held by a writer.
pub open spec fn held_between(s: SectionView, n: u32, from: int, to: int) -> nat
    decreases to - from,
{
    if to <= from {
        0
    } else {
        held_between(s, n, from, to - 1) + if slot(s, to - 1, n).sequence % 2 != 0 {
            1nat
        } else {
            0nat
        }
    }
}

proof fn lemma_held_bound(s: SectionView, n: u32, from: int, to: int)
    requires
        from <= to,
    ensures
        held_between(s, n, from, to) <= to - from,
    decreases to - from,
{
    if from < to {
        lemma_held_bound(s, n, from, to - 1);
    }
}

/// How far an uncontended publish has got.
spec fn publish_stage(
    s: SectionView,
    phase: PublishPhase,
    n: u32,
    payload: Seq<u8>,
    timestamp: u64,
) -> SectionView {
    let i = protocol::slot_of(s.position, n) as int;
    let claimed = SectionView { position: protocol::next_count(s.position), ..s };
    let t0 = s.slots[i];
    let t1 = SlotView { sequence: protocol::next_count(t0.sequence), ..t0 };
    let t2 = SlotView {
        position: s.position,
        length: payload.len() as u32,
        timestamp,
        ..t1
    };
    let t3 = SlotView { payload: bytes::overwrite(t0.payload, 0, payload), ..t2 };
    match phase {
        PublishPhase::Claim => s,
        PublishPhase::LoadSequence { .. } => claimed,
        PublishPhase::Enter { .. } => claimed,
        PublishPhase::WriteFields { .. } => claimed.with_slot(i, t1),
        PublishPhase::CopyPayload { .. } => claimed.with_slot(i, t2),
        PublishPhase::Leave { .. } => claimed.with_slot(i, t3),
        PublishPhase::Published => after_publish(s, n, payload, timestamp),
        PublishPhase::Stuck { .. } => claimed,
    }
}

/// What an uncontended publish knows.
spec fn publish_knows(s: SectionView, phase: PublishPhase, n: u32) -> bool {
    let t = s.slots[protocol::slot_of(s.position, n) as int];
    match phase {
        PublishPhase::Claim => true,
        PublishPhase::LoadSequence { position, held, spins } => {
            &&& position == s.position
            &&& spins > 0 ==> held == t.sequence
            &&& spins <= ODD_SEQUENCE_SPIN_BUDGET
        },
        PublishPhase::Enter { position, sequence } => position == s.position && sequence
            == t.sequence && t.sequence % 2 == 0,
        PublishPhase::WriteFields { position, sequence } => position == s.position && sequence
            == t.sequence && t.sequence % 2 == 0,
        PublishPhase::CopyPayload { position, sequence } => position == s.position && sequence
            == t.sequence && t.sequence % 2 == 0,
        PublishPhase::Leave { position, sequence } => position == s.position && sequence
            == t.sequence && t.sequence % 2 == 0,
        PublishPhase::Published => t.sequence % 2 == 0,
        PublishPhase::Stuck { position, sequence } => position == s.position && sequence
            == t.sequence && t.sequence % 2 != 0,
    }
}

/// Steps left of an uncontended publish.
spec fn publish_rank(phase: PublishPhase) -> int {
    match phase {
        PublishPhase::Claim => 400,
        PublishPhase::LoadSequence { position, held, spins } => 300 - spins,
        PublishPhase::Enter { .. } => 4,
        PublishPhase::WriteFields { .. } => 3,
        PublishPhase::CopyPayload { .. } => 2,
        PublishPhase::Leave { .. } => 1,
        PublishPhase::Published => 0,
        PublishPhase::Stuck { .. } => 0,
    }
}

/// Order of a reader's steps at one position.
pub open spec fn poll_rank(phase: PollPhase) -> int {
    match phase {
        PollPhase::LoadLatest => 300,
        PollPhase::LoadBefore { spins } => 200 - spins,
        PollPhase::Copy { .. } => 2,
        PollPhase::LoadAfter { .. } => 1,
        PollPhase::Done => 0,
    }
}

impl Ring {
    /// Opens a ring over its mapped segment. The creator stamps the mapping;
    /// an attacher checks it.
    pub fn open(config: RingConfig, mem: &mut [u8], epoch_micros: u64) -> (r: Result<Ring>)
        requires
            config.is_owner && region::create_refusal(config.sections@) is None
                ==> header::segment_len(sections::pairs(sections::canonical(config.sections@)))
                <= old(mem)@.len(),
        ensures
            ({
                let list = config.sections@;
                let canonical = sections::canonical(list);
                let digest = crate::namespace::description_digest(config.description@);
                let need = header::segment_len(sections::pairs(canonical));
                let h = GlobalHeaderView::of(bytes::range(old(mem)@, 0, 128));
                let view = RegionView {
                    sections: canonical,
                    name: namespace::shm_name_of(digest),
                    owner: config.is_owner,
                    unlinked: false,
                };
                if config.is_owner {
                    match region::create_refusal(list) {
                        Some(words) => {
                            &&& r matches Err(e) && error::is_config(e, words)
                            &&& final(mem)@ == old(mem)@
                        },
                        None => {
                            &&& r matches Ok(ring) && ring.wf() && ring@ == view
                            &&& final(mem)@ == region::stamped(
                                old(mem)@,
                                region::fresh_header(digest, epoch_micros, list.len() as u32),
                                canonical,
                                list.len(),
                            )
                        },
                    }
                } else {
                    final(mem)@ == old(mem)@ && if sections::list_refusal(list) is Some {
                        r matches Err(e) && error::is_config(e, sections::list_refusal(list)->0)
                    } else if region::too_large(list) {
                        r matches Err(e) && error::is_config(
                            e,
                            "region size overflow across "@ + text::dec(list.len())
                                + " sections (caller's per-section slot_count * slot_size_bytes exceeds usize::MAX)"@,
                        )
                    } else if old(mem)@.len() < need {
                        r matches Err(e) && error::is_region(
                            e,
                            region::short_words(
                                namespace::shm_name_of(digest),
                                need as nat,
                                list.len(),
                                old(mem)@.len(),
                            ),
                        )
                    } else if !region::accepts(h, digest, list.len()) {
                        r matches Err(e) && region::refused_with(h, digest, list.len(), e)
                    } else {
                        match r {
                            Ok(ring) => region::sections_match(old(mem)@, canonical) && ring.wf()
                                && ring@ == view,
                            Err(e) => exists|k: int|
                                region::section_refused_with(old(mem)@, canonical, k, e),
                        }
                    }
                }
            }),
            final(mem)@.len() == old(mem)@.len(),
            r matches Ok(ring) ==> ring@.fits(final(mem)@),
            config.is_owner && bytes::is_zero(old(mem)@) ==> (r matches Ok(ring) ==> forall|k: int|
                0 <= k < ring@.sections.len() ==> laws::holds_log(
                    #[trigger] ring@.ring(final(mem)@)[k],
                    ring@.sections[k].slot_count,
                    ring@.sections[k].slot_size_bytes as int,
                    Seq::empty(),
                )),
    {
        assert(mem@.len() == mem.len());
        let handle = NamespaceHandle::derive(config.description.as_str());
        let region = if config.is_owner {
            Region::create(mem, &handle, config.sections.as_slice(), epoch_micros)
        } else {
            Region::attach(mem, &handle, config.sections.as_slice())
        };
        proof {
            if config.is_owner && bytes::is_zero(old(mem)@) && region is Ok {
                let list = sections::canonical(config.sections@);
                let ps = sections::pairs(list);
                let h = region::fresh_header(handle@, epoch_micros, list.len() as u32);
                sections::lemma_canonical_len(config.sections@);
                assert forall|k: int| 0 <= k < list.len() implies laws::holds_log(
                    #[trigger] region::ring_of(mem@, ps)[k],
                    list[k].slot_count,
                    list[k].slot_size_bytes as int,
                    Seq::empty(),
                ) by {
                    region::law_fresh_ring_is_empty(old(mem)@, h, list, k as nat);
                    laws::law_fresh_section(
                        region::ring_of(mem@, ps)[k],
                        list[k].slot_count,
                        list[k].slot_size_bytes as int,
                    );
                }
            }
        }
        match region {
            Ok(region) => Ok(Ring { region: Arc::new(region) }),
            Err(e) => Err(e),
        }
    }

    /// Issues a writer.
    pub fn writer(&self) -> (w: Writer)
        requires
            self.wf(),
        ensures
            w.wf(),
            w@ == self@,
    {
        Writer { region: share_region(&self.region) }
    }

    /// Issues a reader of one section, which starts at the current writer
    /// position: it sees what is published from now on.
    pub fn reader(&self, mem: &[u8], section_id: u32) -> (r: Result<Reader>)
        requires
            self.wf(),
            self@.fits(mem@),
        ensures
            match r {
                Ok(reader) => {
                    let k = ordinal_of(self@.sections, section_id);
                    &&& knows(self@.sections, section_id)
                    &&& reader.wf()
                    &&& reader@.region == self@
                    &&& reader@.section_id == section_id
                    &&& reader@.ordinal == k
                    &&& reader@.cursor == self@.ring(mem@)[k].position
                    &&& reader@.dropped == 0
                },
                Err(e) => !knows(self@.sections, section_id) && is_unknown(
                    self@.sections,
                    section_id,
                    e,
                ),
            },
            accounts::issued(self@, self@.ring(mem@), section_id, match r {
                Ok(reader) => Ok(reader@),
                Err(e) => Err(e),
            }),
    {
        let ordinal: u32 = match self.region.section_ordinal(section_id) {
            Ok(k) => k,
            Err(e) => return Err(e),
        };
        proof {
            lemma_ordinal(self@.sections, section_id, ordinal as int);
        }
        let cursor: u64 = self.region.load_position(mem, ordinal);
        Ok(
            Reader {
                region: share_region(&self.region),
                section_id,
                ordinal,
                cursor,
                dropped: 0,
            },
        )
    }

    /// Whether this handle created the segment.
    pub fn is_owner(&self) -> (r: bool)
        ensures
            r == self@.owner,
    {
        self.region.is_owner()
    }

    /// The sections, in canonical order.
    pub fn sections(&self) -> (r: &[SectionConfig])
        ensures
            r@ == self@.sections,
    {
        self.region.sections()
    }

    /// The segment of this handle.
    pub fn region(&self) -> (r: &Region)
        requires
            self.wf(),
        ensures
            r@ == self@,
            r.wf(),
    {
        &self.region
    }
}

/// In a list in order, a section's ordinal is where its identifier is.
proof fn lemma_ordinal(list: Seq<SectionConfig>, section_id: u32, k: int)
    requires
        sections::ascending(list),
        0 <= k < list.len(),
        list[k].section_id == section_id,
    ensures
        knows(list, section_id),
        ordinal_of(list, section_id) == k,
{
    assert(knows(list, section_id));
    let j = ordinal_of(list, section_id);
    if j < k {
        assert(list[j].section_id < list[k].section_id);
    } else if k < j {
        assert(list[k].section_id < list[j].section_id);
    }
}

/// Performs one access of a reader on the mapped bytes.
fn look(region: &Region, mem: &[u8], ordinal: u32, action: Action) -> (r: u64)
    requires
        region.wf(),
        region@.fits(mem@),
        ordinal < region@.sections.len(),
        match action {
            Action::LoadPosition => true,
            Action::LoadSequence { slot } => slot < region@.sections[ordinal as int].slot_count,
            Action::CopyOut { slot } => slot < region@.sections[ordinal as int].slot_count,
            _ => false,
        },
    ensures
        forall|payload: Seq<u8>, timestamp: u64|
            #[trigger] protocol::performed(
                region@.ring(mem@)[ordinal as int],
                action,
                payload,
                timestamp,
            ) == (region@.ring(mem@)[ordinal as int], r),
{
    match action {
        Action::LoadPosition => region.load_position(mem, ordinal),
        Action::LoadSequence { slot } => region.load_sequence(mem, ordinal, slot),
        Action::CopyOut { slot } => {
            match region.read_slot_header_fields(mem, ordinal, slot) {
                Ok((position, _, _)) => position,
                Err(_) => 0,
            }
        },
        _ => 0,
    }
}

/// Performs one access of a writer on the mapped bytes.
fn perform(
    region: &Region,
    mem: &mut [u8],
    ordinal: u32,
    action: Action,
    payload: &[u8],
    timestamp_nanos: u64,
) -> (r: u64)
    requires
        region.wf(),
        region@.fits(old(mem)@),
        ordinal < region@.sections.len(),
        payload@.len() <= region@.sections[ordinal as int].slot_size_bytes,
        match action {
            Action::LoadSequence { slot } => slot < region@.sections[ordinal as int].slot_count,
            Action::ExchangeSequence { slot, expected, desired } => slot
                < region@.sections[ordinal as int].slot_count,
            Action::WriteFields { slot, position } => slot
                < region@.sections[ordinal as int].slot_count,
            Action::CopyIn { slot } => slot < region@.sections[ordinal as int].slot_count,
            Action::StoreSequence { slot, value } => slot
                < region@.sections[ordinal as int].slot_count,
            Action::ClaimPosition => true,
            _ => false,
        },
    ensures
        ({
            let k = ordinal as int;
            let (after, word) = protocol::performed(
                region@.ring(old(mem)@)[k],
                action,
                payload@,
                timestamp_nanos,
            );
            &&& region@.ring(final(mem)@) == region@.ring(old(mem)@).update(k, after)
            &&& r == word
        }),
        region::same_headers(old(mem)@, final(mem)@, region@.sections.len() as int),
{
    let ghost before = region@.ring(mem@);
    let word: u64 = match action {
        Action::ClaimPosition => {
            let position: u64 = region.load_position(mem, ordinal);
            region.store_position(mem, ordinal, position.wrapping_add(1));
            position
        },
        Action::LoadSequence { slot } => region.load_sequence(mem, ordinal, slot),
        Action::ExchangeSequence { slot, expected, desired } => {
            if region.load_sequence(mem, ordinal, slot) == expected {
                region.store_sequence(mem, ordinal, slot, desired);
                1
            } else {
                0
            }
        },
        Action::WriteFields { slot, position } => {
            let _ = region.write_slot_header_fields(
                mem,
                ordinal,
                slot,
                position,
                payload.len() as u32,
                timestamp_nanos,
            );
            0
        },
        Action::CopyIn { slot } => {
            let _ = region.write_slot_payload(mem, ordinal, slot, payload);
            0
        },
        Action::StoreSequence { slot, value } => {
            region.store_sequence(mem, ordinal, slot, value);
            0
        },
        _ => 0,
    };
    assert(before.update(ordinal as int, before[ordinal as int]) =~= before);
    word
}

/// What an attempt to publish came to; `None` while it is not over.
pub fn publish_outcome(section_id: u32, attempt: &PublishAttempt) -> (r: Option<Result<()>>)
    requires
        attempt.slot_count > 0,
    ensures
        r == match attempt.phase {
            PublishPhase::Published => Some(Ok::<(), TesseraRingError>(())),
            PublishPhase::Stuck { position, sequence } => Some(
                Err::<(), TesseraRingError>(
                    TesseraRingError::SlotStuck {
                        section_id,
                        slot_index: protocol::slot_of(position, attempt.slot_count),
                        position,
                        stuck_sequence: sequence,
                    },
                ),
            ),
            _ => None,
        },
{
    match attempt.phase {
        PublishPhase::Published => Some(Ok(())),
        PublishPhase::Stuck { position, sequence } => Some(
            Err(
                TesseraRingError::SlotStuck {
                    section_id,
                    slot_index: (position % (attempt.slot_count as u64)) as u32,
                    position,
                    stuck_sequence: sequence,
                },
            ),
        ),
        _ => None,
    }
}

impl Writer {
    /// The segment of this handle.
    pub fn region(&self) -> (r: &Region)
        requires
            self.wf(),
        ensures
            r@ == self@,
            r.wf(),
    {
        &self.region
    }

    /// Checks an event before anything is claimed for it: its section and
    /// its length. Returns ordinal and slot count of the section.
    pub fn check_event(&self, section_id: u32, event_size: usize) -> (r: Result<(u32, u32)>)
        requires
            self.wf(),
        ensures
            match r {
                Ok((k, n)) => {
                    &&& knows(self@.sections, section_id)
                    &&& k == ordinal_of(self@.sections, section_id)
                    &&& k < self@.sections.len()
                    &&& self@.sections[k as int].section_id == section_id
                    &&& n == self@.sections[k as int].slot_count
                    &&& event_size <= self@.sections[k as int].slot_size_bytes
                },
                Err(e) => if !knows(self@.sections, section_id) {
                    is_unknown(self@.sections, section_id, e)
                } else {
                    let size = self@.sections[ordinal_of(
                        self@.sections,
                        section_id,
                    )].slot_size_bytes;
                    &&& event_size > size
                    &&& e == (TesseraRingError::OversizedEvent {
                        section_id,
                        event_size,
                        slot_size: size as usize,
                    })
                },
            },
    {
        let ordinal: u32 = match self.region.section_ordinal(section_id) {
            Ok(k) => k,
            Err(e) => return Err(e),
        };
        proof {
            lemma_ordinal(self@.sections, section_id, ordinal as int);
        }
        let slot_size: u32 = match self.region.slot_capacity(ordinal) {
            Ok(size) => size,
            Err(e) => return Err(e),
        };
        if event_size > slot_size as usize {
            return Err(
                TesseraRingError::OversizedEvent {
                    section_id,
                    event_size,
                    slot_size: slot_size as usize,
                },
            );
        }
        match self.region.slot_count(ordinal) {
            Ok(n) => Ok((ordinal, n)),
            Err(e) => Err(e),
        }
    }

    /// Publishes one event to a section, over the oldest one if the ring is
    /// full. A slot that another writer holds is not taken over: the event
    /// is refused, and its position stays empty.
    pub fn publish(&self, mem: &mut [u8], section_id: u32, payload: &[u8], timestamp_nanos: u64) -> (r:
        Result<()>)
        requires
            self.wf(),
            self@.fits(old(mem)@),
        ensures
            region::same_headers(old(mem)@, final(mem)@, self@.sections.len() as int),
            ({
                let list = self@.sections;
                let k = ordinal_of(list, section_id);
                let n = list[k].slot_count;
                let before = self@.ring(old(mem)@);
                let after = self@.ring(final(mem)@);
                let s = before[k];
                if !knows(list, section_id) {
                    &&& r matches Err(e) && is_unknown(list, section_id, e)
                    &&& after == before
                } else if payload@.len() > list[k].slot_size_bytes {
                    &&& r == Err::<(), TesseraRingError>(
                        TesseraRingError::OversizedEvent {
                            section_id,
                            event_size: payload@.len() as usize,
                            slot_size: list[k].slot_size_bytes as usize,
                        },
                    )
                    &&& after == before
                } else if next_slot_is_held(s, n) {
                    &&& r == Err::<(), TesseraRingError>(
                        TesseraRingError::SlotStuck {
                            section_id,
                            slot_index: protocol::slot_of(s.position, n),
                            position: s.position,
                            stuck_sequence: s.slots[protocol::slot_of(
                                s.position,
                                n,
                            ) as int].sequence,
                        },
                    )
                    &&& after == before.update(
                        k,
                        SectionView { position: protocol::next_count(s.position), ..s },
                    )
                } else {
                    &&& r is Ok
                    &&& after == before.update(
                        k,
                        after_publish(s, n, payload@, timestamp_nanos),
                    )
                }
            }),
            accounts::published(
                self@.sections,
                self@.ring(old(mem)@),
                section_id,
                payload@,
                timestamp_nanos,
                r,
                self@.ring(final(mem)@),
            ),
    {
        let (ordinal, n) = match self.check_event(section_id, payload.len()) {
            Ok(p) => p,
            Err(e) => return Err(e),
        };
        let mut attempt = PublishAttempt::start(n);
        let ghost mem0 = mem@;
        let ghost ring0 = self@.ring(mem@);
        let ghost k = ordinal as int;
        let ghost s0 = ring0[k];
        assert(ring0.update(k, s0) =~= ring0);
        loop
            invariant
                self.wf(),
                self@.fits(mem@),
                mem0 == old(mem)@,
                mem@.len() == mem0.len(),
                knows(self@.sections, section_id),
                k == ordinal_of(self@.sections, section_id),
                k == ordinal,
                0 <= k < self@.sections.len(),
                payload@.len() <= self@.sections[k].slot_size_bytes,
                n == self@.sections[k].slot_count,
                n > 0,
                attempt.slot_count == n,
                ring0 == self@.ring(mem0),
                s0 == ring0[k],
                s0.slots.len() == n,
                ring0.len() == self@.sections.len(),
                publish_knows(s0, attempt.phase, n),
                self@.ring(mem@) == ring0.update(
                    k,
                    publish_stage(s0, attempt.phase, n, payload@, timestamp_nanos),
                ),
                region::same_headers(mem0, mem@, self@.sections.len() as int),
            decreases publish_rank(attempt.phase),
        {
            if let Some(outcome) = publish_outcome(section_id, &attempt) {
                return outcome;
            }
            let action = attempt.action();
            let ghost stage = publish_stage(s0, attempt.phase, n, payload@, timestamp_nanos);
            let word: u64 = perform(&self.region, mem, ordinal, action, payload, timestamp_nanos);
            attempt.observe(word);
            proof {
                let next = publish_stage(s0, attempt.phase, n, payload@, timestamp_nanos);
                let (done, w) = protocol::performed(stage, action, payload@, timestamp_nanos);
                assert(done =~= next);
                assert(self@.ring(mem@) =~= ring0.update(k, next));
            }
        }
    }
}

impl Reader {
    /// The segment of this handle.
    pub fn region(&self) -> (r: &Region)
        requires
            self.wf(),
        ensures
            r@ == self@.region,
            r.wf(),
    {
        &self.region
    }

    /// Section of this reader.
    pub fn section_id(&self) -> (r: u32)
        ensures
            r == self@.section_id,
    {
        self.section_id
    }

    /// Ordinal of the reader's section.
    pub fn ordinal(&self) -> (r: u32)
        ensures
            r == self@.ordinal,
    {
        self.ordinal
    }

    /// Next position to deliver.
    pub fn cursor(&self) -> (r: u64)
        ensures
            r == self@.cursor,
    {
        self.cursor
    }

    /// Positions that were passed over.
    pub fn dropped(&self) -> (r: u64)
        ensures
            r == self@.dropped,
    {
        self.dropped
    }

    /// Cursor and counts, with the writer position.
    pub fn stats(&self, mem: &[u8]) -> (r: Result<ReaderStats>)
        requires
            self.wf(),
            self@.region.fits(mem@),
        ensures
            r == Ok::<ReaderStats, TesseraRingError>(
                ReaderStats {
                    section_id: self@.section_id,
                    cursor: self@.cursor,
                    latest: self@.region.ring(mem@)[self@.ordinal as int].position,
                    dropped: self@.dropped,
                },
            ),
    {
        let latest: u64 = self.region.load_position(mem, self.ordinal);
        Ok(
            ReaderStats {
                section_id: self.section_id,
                cursor: self.cursor,
                latest,
                dropped: self.dropped,
            },
        )
    }

    /// Begins to drain the section, step by step.
    pub fn start_poll(&self) -> (r: Result<PollAttempt>)
        requires
            self.wf(),
        ensures
            r matches Ok(a) && a.ok() && a == (PollAttempt {
                slot_count: self@.region.sections[self@.ordinal as int].slot_count,
                cursor: self@.cursor,
                dropped: self@.dropped,
                latest: 0,
                phase: PollPhase::LoadLatest,
            }),
    {
        proof {
            let c = self.region@.sections[self.ordinal as int];
            assert(c.slot_count > 0);
        }
        match self.region.slot_count(self.ordinal) {
            Ok(n) => Ok(PollAttempt::start(n, self.cursor, self.dropped)),
            Err(e) => Err(e),
        }
    }

    /// Takes over cursor and count of a draining that is over.
    pub fn finish_poll(&mut self, attempt: &PollAttempt)
        ensures
            old(self).wf() ==> final(self).wf(),
            final(self)@ == (ReaderView {
                cursor: attempt.cursor,
                dropped: attempt.dropped,
                ..old(self)@
            }),
    {
        self.cursor = attempt.cursor;
        self.dropped = attempt.dropped;
    }

    /// How much of a slot is its event, by the length in its header. A
    /// length beyond the slot's capacity is cut to it.
    pub fn event_len(&self, length: u32) -> (r: u32)
        requires
            self.wf(),
        ensures
            ({
                let cap = self@.region.sections[self@.ordinal as int].slot_size_bytes;
                r == if length <= cap {
                    length
                } else {
                    cap
                }
            }),
    {
        let cap: u32 = match self.region.slot_capacity(self.ordinal) {
            Ok(cap) => cap,
            Err(_) => 0,
        };
        if length <= cap {
            length
        } else {
            cap
        }
    }

    /// Copies a slot out: position, timestamp and event. A length beyond the
    /// slot's capacity is cut to it.
    fn copy_slot(&self, mem: &[u8], slot_index: u32) -> (e: Event)
        requires
            self.wf(),
            self@.region.fits(mem@),
            slot_index < self@.region.sections[self@.ordinal as int].slot_count,
        ensures
            ({
                let t = self@.region.ring(mem@)[self@.ordinal as int].slots[slot_index as int];
                e@ == (EventView {
                    section_id: self@.section_id,
                    position: t.position,
                    timestamp_nanos: t.timestamp,
                    payload: t.event(),
                })
            }),
    {
        let ghost c = self.region@.sections[self.ordinal as int];
        let (position, length, timestamp): (u64, u32, u64) =
            match self.region.read_slot_header_fields(mem, self.ordinal, slot_index) {
            Ok(fields) => fields,
            Err(_) => (0, 0, 0),
        };
        let payload: Vec<u8> = match self.region.read_slot_payload(
            mem,
            self.ordinal,
            slot_index,
            self.event_len(length),
        ) {
            Ok(payload) => payload,
            Err(_) => Vec::new(),
        };
        proof {
            let t = self@.region.ring(mem@)[self@.ordinal as int].slots[slot_index as int];
            let ps = self@.region.pairs();
            header::law_layout(
                ps,
                self.ordinal as nat,
                slot_index as int,
                self.ordinal as nat,
                slot_index as int,
            );
            assert(t.payload.len() == c.slot_size_bytes);
            assert(payload@ =~= t.event());
        }
        Event { section_id: self.section_id, position, timestamp_nanos: timestamp, payload }
    }

    /// Says whether every position that a poll would look at is settled: its
    /// slot holds its event or is in the hands of a writer. Between the claim
    /// of a position and its first store a slot is neither, and a poll would
    /// go round until the writer gets on.
    pub fn can_poll(&self, mem: &[u8]) -> (b: bool)
        requires
            self.wf(),
            self@.region.fits(mem@),
        ensures
            ({
                let v = self@;
                let s = v.region.ring(mem@)[v.ordinal as int];
                let n = v.region.sections[v.ordinal as int].slot_count;
                b == pollable(s, n, poll_start(v.cursor, s.position, n) as int, s.position as int)
            }),
    {
        let mut attempt = match self.start_poll() {
            Ok(a) => a,
            Err(_) => return false,
        };
        let ordinal: u32 = self.ordinal;
        let n: u32 = attempt.slot_count;
        let ghost s = self@.region.ring(mem@)[ordinal as int];
        let latest: u64 = look(&self.region, mem, ordinal, Action::LoadPosition);
        proof {
            let (_, w) = protocol::performed(s, Action::LoadPosition, Seq::empty(), 0);
            assert(latest == w);
        }
        attempt.observe(latest);
        let mut p: u64 = attempt.cursor;
        let ghost from = p as int;
        while p < latest
            invariant
                self.wf(),
                self@.region.fits(mem@),
                ordinal == self@.ordinal,
                ordinal < self@.region.sections.len(),
                n == self@.region.sections[ordinal as int].slot_count,
                n > 0,
                s == self@.region.ring(mem@)[ordinal as int],
                latest == s.position,
                from == poll_start(self@.cursor, latest, n),
                from <= p,
                from <= latest ==> p <= latest,
                pollable(s, n, from, p as int),
            decreases latest - p,
        {
            let at: u32 = (p % (n as u64)) as u32;
            let sequence: u64 = look(&self.region, mem, ordinal, Action::LoadSequence { slot: at });
            let position: u64 = look(&self.region, mem, ordinal, Action::CopyOut { slot: at });
            proof {
                let (_, w) = protocol::performed(
                    s,
                    Action::LoadSequence { slot: at },
                    Seq::empty(),
                    0,
                );
                assert(sequence == w);
                let (_, w) = protocol::performed(s, Action::CopyOut { slot: at }, Seq::empty(), 0);
                assert(position == w);
                assert(slot(s, p as int, n) == s.slots[at as int]);
            }
            if sequence % 2 == 0 && (position != p || (sequence == 0 && position == 0)) {
                return false;
            }
            p = p + 1;
        }
        true
    }

    /// Delivers every event from the cursor to the writer position, in the
    /// order of publishing. What was overwritten meanwhile, or is held by a
    /// writer, is counted as dropped.
    pub fn poll(&mut self, mem: &[u8]) -> (r: Result<Vec<Event>>)
        requires
            old(self).wf(),
            old(self)@.region.fits(mem@),
            ({
                let v = old(self)@;
                let s = v.region.ring(mem@)[v.ordinal as int];
                let n = v.region.sections[v.ordinal as int].slot_count;
                pollable(s, n, poll_start(v.cursor, s.position, n) as int, s.position as int)
            }),
        ensures
            final(self).wf(),
            ({
                let v = old(self)@;
                let s = v.region.ring(mem@)[v.ordinal as int];
                let n = v.region.sections[v.ordinal as int].slot_count;
                let from = poll_start(v.cursor, s.position, n);
                let to = s.position;
                &&& r matches Ok(events) && views(events@) == events_between(
                    s,
                    n,
                    v.section_id,
                    from as int,
                    to as int,
                )
                &&& final(self)@ == (ReaderView {
                    cursor: if from < to {
                        to
                    } else {
                        from
                    },
                    dropped: protocol::count_up(
                        v.dropped,
                        (from - v.cursor) + held_between(s, n, from as int, to as int),
                    ),
                    ..v
                })
            }),
            accounts::polled(
                old(self)@,
                old(self)@.region.ring(mem@)[old(self)@.ordinal as int],
                match r {
                    Ok(events) => Ok(views(events@)),
                    Err(e) => Err(e),
                },
                final(self)@,
            ),
    {
        let mut attempt = match self.start_poll() {
            Ok(a) => a,
            Err(e) => return Err(e),
        };
        let mut events: Vec<Event> = Vec::new();
        let mut copied: Event = Event {
            section_id: self.section_id,
            position: 0,
            timestamp_nanos: 0,
            payload: Vec::new(),
        };
        let ordinal: u32 = self.ordinal;
        let ghost v = self@;
        let ghost ring0 = v.region.ring(mem@);
        let ghost s = ring0[ordinal as int];
        let ghost n = v.region.sections[ordinal as int].slot_count;
        let ghost from = poll_start(v.cursor, s.position, n);
        let ghost to = s.position;
        assert(views(events@) =~= Seq::<EventView>::empty());
        loop
            invariant
                self.wf(),
                self@ == v,
                self.ordinal == ordinal,
                self.section_id == v.section_id,
                ordinal == v.ordinal,
                ordinal < v.region.sections.len(),
                v == old(self)@,
                v.region.fits(mem@),
                ring0 == v.region.ring(mem@),
                ring0.len() == v.region.sections.len(),
                s == ring0[ordinal as int],
                n == v.region.sections[ordinal as int].slot_count,
                n > 0,
                s.slots.len() == n,
                from == poll_start(v.cursor, s.position, n),
                to == s.position,
                pollable(s, n, from as int, to as int),
                attempt.ok(),
                attempt.slot_count == n,
                attempt.phase is LoadLatest || attempt.latest == to,
                from <= attempt.cursor || (attempt.cursor == v.cursor && attempt.phase is LoadLatest
                    && attempt.dropped == v.dropped),
                attempt.cursor <= from || attempt.cursor <= to,
                attempt.phase is Done ==> attempt.cursor >= to,
                attempt.phase matches PollPhase::LoadBefore { spins }
                    ==> spins <= ODD_SEQUENCE_SPIN_BUDGET,
                attempt.phase matches PollPhase::Copy { before } ==> before == slot(
                    s,
                    attempt.cursor as int,
                    n,
                ).sequence && before % 2 == 0,
                attempt.phase matches PollPhase::LoadAfter { before, position } ==> {
                    let t = slot(s, attempt.cursor as int, n);
                    &&& before == t.sequence
                    &&& before % 2 == 0
                    &&& position == t.position
                    &&& copied@ == (EventView {
                        section_id: v.section_id,
                        position: t.position,
                        timestamp_nanos: t.timestamp,
                        payload: t.event(),
                    })
                },
                from <= attempt.cursor ==> attempt.phase is LoadLatest && attempt.cursor == v.cursor
                    && attempt.dropped == v.dropped && events@.len() == 0 || {
                    &&& views(events@) == events_between(
                        s,
                        n,
                        v.section_id,
                        from as int,
                        attempt.cursor as int,
                    )
                    &&& attempt.dropped == protocol::count_up(
                        v.dropped,
                        (from - v.cursor) + held_between(
                            s,
                            n,
                            from as int,
                            attempt.cursor as int,
                        ),
                    )
                },
                attempt.cursor < from ==> events@.len() == 0,
            decreases
                    (if attempt.cursor < to {
                        to - attempt.cursor
                    } else {
                        0
                    }),
                    poll_rank(attempt.phase),
        {
            if let PollPhase::Done = attempt.phase {
                self.finish_poll(&attempt);
                return Ok(events);
            }
            let action = attempt.action();
            if let Action::CopyOut { slot } = action {
                copied = self.copy_slot(mem, slot);
            }
            let ghost before = attempt;
            let word: u64 = look(&self.region, mem, ordinal, action);
            let deliver: bool = attempt.observe(word);
            proof {
                let (_, w) = protocol::performed(s, action, Seq::empty(), 0);
                assert(word == w);
                if from <= before.cursor {
                    lemma_held_bound(s, n, from as int, before.cursor as int);
                }
            }
            if deliver {
                let ghost had = events@;
                let e: Event = Event {
                    section_id: copied.section_id,
                    position: copied.position,
                    timestamp_nanos: copied.timestamp_nanos,
                    payload: copied.payload,
                };
                copied = Event {
                    section_id: 0,
                    position: 0,
                    timestamp_nanos: 0,
                    payload: Vec::new(),
                };
                events.push(e);
                assert(views(events@) =~= views(had).push(e@));
            }
        }
    }
}

} // verus!
