//! Tests of the ring.
use std::cell::RefCell;
use std::collections::HashMap;
use std::rc::Rc;

use tessera::lifecycle::{CreateStep, MapOutcome, UnlinkStep, ENOENT};
use tessera::ring::header::{
    region_size_bytes, section_data_size, section_header_offset, section_table_offset,
    sections_data_offset, slot_stride, GlobalHeader, SectionHeader, SlotHeader, FORMAT_VERSION,
    MAGIC,
};
use tessera::ring::protocol::{Action, PollAttempt, PublishAttempt, ODD_SEQUENCE_SPIN_BUDGET};
use tessera::ring::region::{
    Region, LENGTH_FIELD_OFFSET, POSITION_FIELD_OFFSET, SEQUENCE_FIELD_OFFSET,
    TIMESTAMP_FIELD_OFFSET, WRITER_POSITION_FIELD_OFFSET,
};
use tessera::ring::sections::{canonicalize, validate_section_config};
use tessera::ring::{
    NamespaceHandle, OpenPlan, Ring, RingConfig, SectionConfig, TesseraRingError,
};

const EPOCH: u64 = 1_700_000_000_000_000;

type Shared = Rc<RefCell<Vec<u8>>>;

/// Named segments, as a system keeps them.
struct Names {
    table: HashMap<String, Shared>,
}

impl Names {
    fn new() -> Names {
        Names { table: HashMap::new() }
    }

    fn map(
        &mut self,
        handle: &NamespaceHandle,
        len: usize,
        force: bool,
    ) -> Result<Shared, TesseraRingError> {
        let name = handle.shm_name();
        let mut retried = false;
        loop {
            let outcome = if self.table.contains_key(&name) {
                MapOutcome::Exists("mapping exists".to_string())
            } else {
                MapOutcome::Mapped
            };
            match Region::create_step(handle, outcome, retried, force)? {
                CreateStep::Stamp => {
                    let mem = Rc::new(RefCell::new(vec![0u8; len]));
                    self.table.insert(name, mem.clone());
                    return Ok(mem);
                }
                CreateStep::UnlinkAndRetry => {
                    self.table.remove(&name);
                    retried = true;
                }
            }
        }
    }

    fn create(
        &mut self,
        handle: &NamespaceHandle,
        sections: &[SectionConfig],
        force: bool,
    ) -> Result<(Region, Shared), TesseraRingError> {
        let len = Region::plan_create(sections)?;
        let mem = self.map(handle, len, force)?;
        let region = Region::create(&mut mem.borrow_mut(), handle, sections, EPOCH)?;
        Ok((region, mem))
    }

    fn attach(
        &self,
        handle: &NamespaceHandle,
        sections: &[SectionConfig],
    ) -> Result<(Region, Shared), TesseraRingError> {
        match self.table.get(&handle.shm_name()) {
            Some(mem) => {
                let region = Region::attach(&mem.borrow(), handle, sections)?;
                Ok((region, mem.clone()))
            }
            None => Err(TesseraRingError::Region("no such segment".to_string())),
        }
    }

    fn unlink(&mut self, region: &mut Region) -> Result<(), TesseraRingError> {
        match region.unlink()? {
            UnlinkStep::Done => Ok(()),
            UnlinkStep::Call => {
                if self.table.remove(region.shm_name()).is_some() {
                    region.finish_unlink(0, None, "")
                } else {
                    region.finish_unlink(-1, Some(ENOENT), "no such file")
                }
            }
        }
    }

    fn drop_region(&mut self, region: Region) {
        if region.unlinks_on_drop() {
            self.table.remove(region.shm_name());
        }
    }

    fn open(&mut self, config: RingConfig) -> Result<(Ring, Shared), TesseraRingError> {
        let handle = NamespaceHandle::derive(&config.description);
        let mem = match config.plan()? {
            OpenPlan::Create { name, size } => {
                assert_eq!(name, handle.shm_name());
                self.map(&handle, size, config.force_recreate)?
            }
            OpenPlan::Attach { name } => self.table.get(&name).expect("segment").clone(),
        };
        let ring = Ring::open(config, &mut mem.borrow_mut(), EPOCH)?;
        Ok((ring, mem))
    }
}

fn handle(tag: &str) -> NamespaceHandle {
    NamespaceHandle::derive(&format!("tessera-ring-test/{tag}"))
}

fn config(tag: &str, sections: Vec<SectionConfig>) -> RingConfig {
    RingConfig {
        description: format!("tessera-ring-state-test/{tag}"),
        sections,
        is_owner: true,
        force_recreate: false,
    }
}

fn open(tag: &str, sections: Vec<SectionConfig>) -> (Ring, Shared) {
    Names::new().open(config(tag, sections)).expect("open")
}

fn single_section(slot_count: u32, slot_size_bytes: u32) -> Vec<SectionConfig> {
    vec![SectionConfig::new(0, slot_count, slot_size_bytes)]
}

// --- the handle -----------------------------------------------------

#[test]
fn publish_then_poll_returns_event_payload() {
    let (ring, mem) = open("simple-publish", single_section(8, 256));
    let mem = &mut *mem.borrow_mut();
    let mut reader = ring.reader(mem, 0).expect("reader");
    let writer = ring.writer();
    writer.publish(mem, 0, b"hello tessera", 77).expect("publish");
    let events = reader.poll(mem).expect("poll");
    assert_eq!(events.len(), 1);
    assert_eq!(events[0].section_id, 0);
    assert_eq!(events[0].position, 0);
    assert_eq!(events[0].payload, b"hello tessera");
    assert_eq!(events[0].timestamp_nanos, 77);
    assert_eq!(reader.cursor(), 1);
    assert_eq!(reader.dropped(), 0);
}

#[test]
fn multiple_publishes_arrive_in_order() {
    let (ring, mem) = open("ordered-publishes", single_section(16, 32));
    let mem = &mut *mem.borrow_mut();
    let mut reader = ring.reader(mem, 0).expect("reader");
    let writer = ring.writer();
    for i in 0..10 {
        let msg = format!("event-{i}");
        writer.publish(mem, 0, msg.as_bytes(), i).expect("publish");
    }
    let events = reader.poll(mem).expect("poll");
    assert_eq!(events.len(), 10);
    for (i, event) in events.iter().enumerate() {
        assert_eq!(event.position, i as u64);
        assert_eq!(event.payload, format!("event-{i}").into_bytes());
    }
    assert_eq!(reader.dropped(), 0);
}

#[test]
fn reader_lapped_accounts_dropped_events() {
    let (ring, mem) = open("lapped-reader", single_section(4, 16));
    let mem = &mut *mem.borrow_mut();
    let mut reader = ring.reader(mem, 0).expect("reader");
    let writer = ring.writer();
    for i in 0..10u32 {
        writer.publish(mem, 0, &i.to_le_bytes(), 0).expect("publish");
    }
    let events = reader.poll(mem).expect("poll");
    assert_eq!(events.len(), 4);
    assert_eq!(reader.dropped(), 6);
    for (i, event) in events.iter().enumerate() {
        assert_eq!(event.position, 6 + i as u64);
        assert_eq!(event.payload, (6 + i as u32).to_le_bytes());
    }
}

#[test]
fn fresh_reader_starts_at_current_writer_position() {
    let (ring, mem) = open("fresh-reader-now", single_section(8, 16));
    let mem = &mut *mem.borrow_mut();
    let writer = ring.writer();
    for i in 0..3u32 {
        writer.publish(mem, 0, &i.to_le_bytes(), 0).expect("pre-publish");
    }
    let mut reader = ring.reader(mem, 0).expect("reader");
    assert_eq!(reader.cursor(), 3);
    let idle = reader.poll(mem).expect("idle poll");
    assert_eq!(idle.len(), 0);
    assert_eq!(reader.dropped(), 0);
    writer.publish(mem, 0, b"new", 0).expect("post-publish");
    let events = reader.poll(mem).expect("poll");
    assert_eq!(events.len(), 1);
    assert_eq!(events[0].position, 3);
    assert_eq!(events[0].payload, b"new");
}

#[test]
fn multiple_readers_each_see_full_stream() {
    let (ring, mem) = open("multi-reader", single_section(16, 16));
    let mem = &mut *mem.borrow_mut();
    let mut r1 = ring.reader(mem, 0).expect("r1");
    let mut r2 = ring.reader(mem, 0).expect("r2");
    let writer = ring.writer();
    for i in 0..5u32 {
        writer.publish(mem, 0, &i.to_le_bytes(), 0).expect("publish");
    }
    let e1 = r1.poll(mem).expect("r1 poll");
    let e2 = r2.poll(mem).expect("r2 poll");
    assert_eq!(e1.len(), 5);
    assert_eq!(e2.len(), 5);
    for (a, b) in e1.iter().zip(e2.iter()) {
        assert_eq!(a.position, b.position);
        assert_eq!(a.payload, b.payload);
    }
}

#[test]
fn multi_section_publish_is_isolated() {
    let (ring, mem) =
        open("multi-section", vec![SectionConfig::new(0, 8, 16), SectionConfig::new(1, 8, 32)]);
    let mem = &mut *mem.borrow_mut();
    let mut r0 = ring.reader(mem, 0).expect("r0");
    let mut r1 = ring.reader(mem, 1).expect("r1");
    let writer = ring.writer();
    writer.publish(mem, 0, b"a-section-0", 0).expect("pub 0");
    writer.publish(mem, 1, b"b-section-1", 0).expect("pub 1");
    writer.publish(mem, 0, b"c-section-0", 0).expect("pub 0 again");
    let e0 = r0.poll(mem).expect("r0 poll");
    let e1 = r1.poll(mem).expect("r1 poll");
    assert_eq!(e0.len(), 2);
    assert_eq!(e1.len(), 1);
    assert_eq!(e0[0].payload, b"a-section-0");
    assert_eq!(e0[1].payload, b"c-section-0");
    assert_eq!(e1[0].payload, b"b-section-1");
    assert_eq!(e0[0].position, 0);
    assert_eq!(e0[1].position, 1);
    assert_eq!(e1[0].position, 0);
}

#[test]
fn publish_rejects_oversized_event() {
    let (ring, mem) = open("oversized", single_section(4, 16));
    let writer = ring.writer();
    let big = vec![0u8; 17];
    let err = writer.publish(&mut mem.borrow_mut(), 0, &big, 0).unwrap_err();
    match err {
        TesseraRingError::OversizedEvent { section_id, event_size, slot_size } => {
            assert_eq!(section_id, 0);
            assert_eq!(event_size, 17);
            assert_eq!(slot_size, 16);
        }
        other => panic!("expected OversizedEvent, got {other:?}"),
    }
}

#[test]
fn publish_unknown_section_errors() {
    let (ring, mem) = open("unknown-section", single_section(4, 16));
    let writer = ring.writer();
    let err = writer.publish(&mut mem.borrow_mut(), 99, b"x", 0).unwrap_err();
    match err {
        TesseraRingError::UnknownSection { section_id, configured } => {
            assert_eq!(section_id, 99);
            assert_eq!(configured, vec![0]);
        }
        other => panic!("expected UnknownSection, got {other:?}"),
    }
}

#[test]
fn reader_stats_reports_cursor_latest_dropped() {
    let (ring, mem) = open("stats", single_section(4, 16));
    let mem = &mut *mem.borrow_mut();
    let mut reader = ring.reader(mem, 0).expect("reader");
    let writer = ring.writer();
    for i in 0..6u32 {
        writer.publish(mem, 0, &i.to_le_bytes(), 0).expect("publish");
    }
    let _ = reader.poll(mem).expect("poll");
    let s = reader.stats(mem).expect("stats");
    assert_eq!(s.section_id, 0);
    assert_eq!(s.latest, 6);
    assert_eq!(s.cursor, 6);
    assert_eq!(s.dropped, 2);
}

#[test]
fn attach_opens_existing_region_and_sees_events() {
    let mut names = Names::new();
    let owner_cfg = config("attach-open", single_section(8, 32));
    let attacher_cfg = RingConfig { is_owner: false, ..owner_cfg.clone() };
    let (owner_ring, mem) = names.open(owner_cfg).expect("owner open");
    owner_ring.writer().publish(&mut mem.borrow_mut(), 0, b"from owner", 0).expect("publish");

    let (attacher_ring, seen) = names.open(attacher_cfg).expect("attacher open");
    assert!(!attacher_ring.is_owner());
    let mut attacher_reader = attacher_ring.reader(&seen.borrow(), 0).expect("attacher reader");
    assert_eq!(attacher_reader.cursor(), 1);
    owner_ring.writer().publish(&mut mem.borrow_mut(), 0, b"after attach", 0).expect("publish");
    let events = attacher_reader.poll(&seen.borrow()).expect("poll");
    assert_eq!(events.len(), 1);
    assert_eq!(events[0].payload, b"after attach");
}

#[test]
fn namespace_is_blake3_derived_and_stable() {
    let cfg = config("blake3-stability", single_section(4, 16));
    let desc = cfg.description.clone();
    let handle = NamespaceHandle::derive(&desc);
    let (ring, _mem) = Names::new().open(cfg).expect("open");
    let same_handle = NamespaceHandle::derive(&desc);
    assert_eq!(handle.full_digest(), same_handle.full_digest());
    assert_eq!(handle.full_digest(), *blake3::hash(desc.as_bytes()).as_bytes());
    assert_eq!(ring.region().shm_name(), handle.shm_name());
}

#[test]
fn a_slot_held_by_a_dead_writer_costs_one_event() {
    let (ring, mem) = open("dead-writer", single_section(2, 16));
    let mem = &mut *mem.borrow_mut();
    let mut reader = ring.reader(mem, 0).expect("reader");
    let writer = ring.writer();
    // A writer claimed position 0, entered the slot and never came back.
    ring.region().store_position(mem, 0, 1);
    ring.region().store_sequence(mem, 0, 0, 1);
    writer.publish(mem, 0, b"one", 0).expect("position 1");
    let err = writer.publish(mem, 0, b"two", 0).unwrap_err();
    match err {
        TesseraRingError::SlotStuck { section_id, slot_index, .. } => {
            assert_eq!(section_id, 0);
            assert_eq!(slot_index, 0);
        }
        other => panic!("expected SlotStuck, got {other:?}"),
    }
    writer.publish(mem, 0, b"three", 0).expect("position 3");
    let events = reader.poll(mem).expect("poll");
    assert_eq!(events.len(), 1);
    assert_eq!(events[0].position, 3);
    assert_eq!(events[0].payload, b"three");
    assert_eq!(reader.cursor(), 4);
    assert_eq!(reader.dropped(), 3);
}

#[test]
fn a_claimed_position_is_not_settled_until_its_writer_enters() {
    let (ring, mem) = open("claimed", single_section(2, 16));
    let mem = &mut *mem.borrow_mut();
    let mut reader = ring.reader(mem, 0).expect("reader");
    assert!(reader.can_poll(mem));
    ring.writer().publish(mem, 0, b"zero", 3).expect("position 0");
    assert!(reader.can_poll(mem));
    // Position 1 is claimed; its slot still looks untouched.
    ring.region().store_position(mem, 0, 2);
    assert!(!reader.can_poll(mem));
    // The writer enters its slot.
    ring.region().store_sequence(mem, 0, 1, 1);
    assert!(reader.can_poll(mem));
    let events = reader.poll(mem).expect("poll");
    assert_eq!(events.len(), 1);
    assert_eq!(events[0].payload, b"zero");
    assert_eq!(reader.dropped(), 1);
}

#[test]
fn nothing_is_delivered_for_the_first_position_until_it_is_published() {
    let (ring, mem) = open("first", single_section(2, 16));
    let mem = &mut *mem.borrow_mut();
    let mut reader = ring.reader(mem, 0).expect("reader");
    // Position 0 is claimed; its slot was never written to.
    ring.region().store_position(mem, 0, 1);
    assert!(!reader.can_poll(mem));
    let mut attempt = reader.start_poll().expect("attempt");
    let mut seen = 0;
    for _ in 0..100 {
        assert!(!step(ring.region(), mem, &mut attempt, &mut seen));
    }
    assert_eq!(seen, 0);
    assert_eq!(attempt.cursor, 0);
    // The writer gets on and publishes an empty event.
    ring.region().store_sequence(mem, 0, 0, 1);
    ring.region().write_slot_header_fields(mem, 0, 0, 0, 0, 8).expect("fields");
    ring.region().store_sequence(mem, 0, 0, 2);
    assert!(reader.can_poll(mem));
    let events = reader.poll(mem).expect("poll");
    assert_eq!(events.len(), 1);
    assert_eq!(events[0].position, 0);
    assert_eq!(events[0].timestamp_nanos, 8);
    assert_eq!(events[0].payload, b"");
    assert_eq!(reader.dropped(), 0);
}

#[test]
fn a_reader_is_held_up_by_a_missing_event_only_until_it_is_lapped() {
    let (ring, mem) = open("missing", single_section(2, 16));
    let mem = &mut *mem.borrow_mut();
    let mut reader = ring.reader(mem, 0).expect("reader");
    let writer = ring.writer();
    writer.publish(mem, 0, b"zero", 0).expect("position 0");
    // Position 1 was claimed and given up: its slot stays as it was.
    ring.region().store_position(mem, 0, 2);
    assert!(!reader.can_poll(mem));
    writer.publish(mem, 0, b"two", 0).expect("position 2");
    assert!(!reader.can_poll(mem));
    writer.publish(mem, 0, b"three", 0).expect("position 3");
    assert!(reader.can_poll(mem));
    let events = reader.poll(mem).expect("poll");
    assert_eq!(events.len(), 2);
    assert_eq!(events[0].payload, b"two");
    assert_eq!(events[1].payload, b"three");
    assert_eq!(reader.dropped(), 2);
}

/// A publish, one word at a time, next to a reader.
#[test]
fn a_reader_beside_a_writer_gets_all_or_nothing() {
    let (ring, mem) = open("beside", single_section(2, 16));
    let mem = &mut *mem.borrow_mut();
    let region = ring.region();
    let mut reader = ring.reader(mem, 0).expect("reader");
    let mut publish = PublishAttempt::start(2);
    let mut seen = 0;
    loop {
        match publish.action() {
            Action::ClaimPosition => {
                let p = region.load_position(mem, 0);
                region.store_position(mem, 0, p + 1);
                publish.observe(p);
            }
            Action::LoadPosition => {
                let p = region.load_position(mem, 0);
                publish.observe(p);
            }
            Action::LoadSequence { slot } => {
                let w = region.load_sequence(mem, 0, slot);
                publish.observe(w);
            }
            Action::ExchangeSequence { slot, expected, desired } => {
                let found = region.load_sequence(mem, 0, slot);
                if found == expected {
                    region.store_sequence(mem, 0, slot, desired);
                }
                publish.observe(if found == expected { 1 } else { 0 });
            }
            Action::WriteFields { slot, position } => {
                region.write_slot_header_fields(mem, 0, slot, position, 5, 9).expect("fields");
                publish.observe(0);
            }
            Action::CopyIn { slot } => {
                // Half written: a reader must not take it.
                let mut attempt = reader.start_poll().expect("attempt");
                let mut steps = 0;
                while !step(region, mem, &mut attempt, &mut seen) {
                    steps += 1;
                }
                assert!(steps > 0);
                assert_eq!(seen, 0);
                region.write_slot_payload(mem, 0, slot, b"whole").expect("payload");
                publish.observe(0);
            }
            Action::StoreSequence { slot, value } => {
                region.store_sequence(mem, 0, slot, value);
                publish.observe(0);
            }
            Action::Stop => break,
            other => panic!("not of a writer: {other:?}"),
        }
    }
    let events = reader.poll(mem).expect("poll");
    assert_eq!(events.len(), 1);
    assert_eq!(events[0].payload, b"whole");
    assert_eq!(events[0].timestamp_nanos, 9);
}

/// One step of a poll; true at its end.
fn step(region: &Region, mem: &mut Vec<u8>, attempt: &mut PollAttempt, seen: &mut u32) -> bool {
    match attempt.action() {
        Action::LoadPosition => {
            let p = region.load_position(mem, 0);
            attempt.observe(p);
            false
        }
        Action::LoadSequence { slot } => {
            let w = region.load_sequence(mem, 0, slot);
            if attempt.observe(w) {
                *seen += 1;
            }
            false
        }
        Action::CopyOut { slot } => {
            let (p, _, _) = region.read_slot_header_fields(mem, 0, slot).expect("fields");
            attempt.observe(p);
            false
        }
        Action::Stop => true,
        other => panic!("not of a reader: {other:?}"),
    }
}

#[test]
fn the_budget_for_odd_words_is_bounded() {
    assert_eq!(ODD_SEQUENCE_SPIN_BUDGET, 128);
}

// --- headers --------------------------------------------------------

#[test]
fn global_header_size_matches_documented_layout() {
    assert_eq!(GlobalHeader::SIZE, 128);
}

#[test]
fn section_header_size_matches_documented_layout() {
    assert_eq!(SectionHeader::SIZE, 64);
}

#[test]
fn header_slot_header_size_matches_documented_layout() {
    assert_eq!(SlotHeader::SIZE, 64);
}

#[test]
fn ring_magic_bytes_are_ascii_marker() {
    let bytes = MAGIC.to_le_bytes();
    assert_eq!(&bytes, b"TESRINGv");
}

#[test]
fn global_header_round_trips_through_bytes() {
    let h = GlobalHeader {
        magic: MAGIC,
        format_version: FORMAT_VERSION,
        _pad0: 0,
        epoch_micros: 1_700_000_000_000_000,
        section_count: 3,
        _pad1: 0,
        handle_blake3: [0xAB; 32],
        _reserved: [0; 64],
    };
    let bytes = h.to_bytes();
    let round_tripped = GlobalHeader::read_from(&bytes, 0);
    assert_eq!(round_tripped.magic, MAGIC);
    assert_eq!(round_tripped.format_version, FORMAT_VERSION);
    assert_eq!(round_tripped.section_count, 3);
    assert_eq!(round_tripped.handle_blake3, [0xAB; 32]);
    assert_eq!(round_tripped.epoch_micros, 1_700_000_000_000_000);
}

#[test]
fn section_header_round_trips_through_bytes() {
    let s = SectionHeader {
        section_id: 7,
        slot_count: 4096,
        slot_size_bytes: 2048,
        _pad0: 0,
        writer_position: 0,
        _reserved: [0; 40],
    };
    let bytes = s.to_bytes();
    let round_tripped = SectionHeader::read_from(&bytes, 0);
    assert_eq!(round_tripped.section_id, 7);
    assert_eq!(round_tripped.slot_count, 4096);
    assert_eq!(round_tripped.slot_size_bytes, 2048);
    assert_eq!(round_tripped.writer_position, 0);
}

#[test]
fn header_slot_header_round_trips_through_bytes() {
    let s = SlotHeader {
        sequence: 42,
        position: 1234,
        length: 99,
        _pad0: 0,
        timestamp_nanos: 1_700_000_000_000_000_000,
        _reserved: [0; 32],
    };
    let bytes = s.to_bytes();
    let round_tripped = SlotHeader::read_from(&bytes, 0);
    assert_eq!(round_tripped.sequence, 42);
    assert_eq!(round_tripped.position, 1234);
    assert_eq!(round_tripped.length, 99);
    assert_eq!(round_tripped.timestamp_nanos, 1_700_000_000_000_000_000);
}

#[test]
fn section_table_layout_is_dense_and_in_order() {
    assert_eq!(section_table_offset(), GlobalHeader::SIZE);
    assert_eq!(section_header_offset(0), GlobalHeader::SIZE);
    assert_eq!(section_header_offset(1), GlobalHeader::SIZE + SectionHeader::SIZE);
    assert_eq!(section_header_offset(2), GlobalHeader::SIZE + SectionHeader::SIZE * 2);
}

#[test]
fn sections_data_offset_is_after_table() {
    assert_eq!(sections_data_offset(0), GlobalHeader::SIZE);
    assert_eq!(sections_data_offset(3), GlobalHeader::SIZE + 3 * SectionHeader::SIZE);
}

#[test]
fn slot_stride_includes_header_plus_payload() {
    assert_eq!(slot_stride(0), SlotHeader::SIZE);
    assert_eq!(slot_stride(2048), SlotHeader::SIZE + 2048);
    assert_eq!(slot_stride(64 * 1024), SlotHeader::SIZE + 64 * 1024);
}

#[test]
fn section_data_size_is_stride_times_count() {
    assert_eq!(section_data_size(0, 2048), Some(0));
    assert_eq!(section_data_size(4, 2048), Some(4 * (SlotHeader::SIZE + 2048)));
}

#[test]
fn section_data_size_overflow_returns_none() {
    assert_eq!(section_data_size(u32::MAX, u32::MAX), None);
}

#[test]
fn region_size_is_header_plus_section_table_plus_per_section_data() {
    let sections = [(4_u32, 1024_u32), (8_u32, 512_u32)];
    let expected = GlobalHeader::SIZE
        + 2 * SectionHeader::SIZE
        + 4 * (SlotHeader::SIZE + 1024)
        + 8 * (SlotHeader::SIZE + 512);
    assert_eq!(region_size_bytes(&sections), Some(expected));
    assert_eq!(expected, 9216);
}

#[test]
fn region_size_empty_sections_is_header_only() {
    assert_eq!(region_size_bytes(&[]), Some(GlobalHeader::SIZE));
}

#[test]
fn ring_region_size_overflow_returns_none() {
    let sections = [(u32::MAX, u32::MAX)];
    assert_eq!(region_size_bytes(&sections), None);
}

// --- names ----------------------------------------------------------

#[test]
fn same_description_derives_same_handle() {
    let a = NamespaceHandle::derive("my-app/telemetry");
    let b = NamespaceHandle::derive("my-app/telemetry");
    assert_eq!(a.full_digest(), b.full_digest());
    assert_eq!(a.shm_name(), b.shm_name());
}

#[test]
fn different_descriptions_derive_different_handles() {
    let a = NamespaceHandle::derive("my-app/telemetry");
    let b = NamespaceHandle::derive("my-app/training-events");
    assert_ne!(a.full_digest(), b.full_digest());
    assert_ne!(a.shm_name(), b.shm_name());
}

#[test]
fn shm_name_has_expected_shape() {
    let h = NamespaceHandle::derive("test");
    let name = h.shm_name();
    assert!(name.starts_with("/tessera-ring-"));
    assert_eq!(name.len(), "/tessera-ring-".len() + 32);
    let hex = &name["/tessera-ring-".len()..];
    assert!(hex.chars().all(|c| c.is_ascii_hexdigit()));
}

#[test]
fn ring_and_pool_handles_do_not_collide_for_same_description() {
    let h = NamespaceHandle::derive("shared-description");
    assert!(h.shm_name().starts_with("/tessera-ring-"));
    assert!(!h.shm_name().starts_with("/tessera-pool-"));
    let pool = tessera::pool::NamespaceHandle::derive("shared-description");
    assert_ne!(h.shm_name(), pool.shm_name());
}

#[test]
fn empty_description_is_handled() {
    let h = NamespaceHandle::derive("");
    assert_eq!(h.shm_name(), "/tessera-ring-af1349b9f5f9a1a6a0404dea36dcc949");
}

// --- segments -------------------------------------------------------

#[test]
fn create_writes_valid_global_header() {
    let handle = handle("global-header");
    let (region, mem) = Names::new().create(&handle, &single_section(4, 1024), false).expect("create");
    let h = region.read_global_header(&mem.borrow());
    assert_eq!(h.magic, MAGIC);
    assert_eq!(h.format_version, FORMAT_VERSION);
    assert_eq!(h.section_count, 1);
    assert_eq!(h.handle_blake3, handle.full_digest());
    assert!(h.epoch_micros > 0);
    assert!(region.is_owner());
}

#[test]
fn create_writes_per_section_headers() {
    let sections = vec![SectionConfig::new(0, 4, 1024), SectionConfig::new(7, 8, 512)];
    let (region, mem) =
        Names::new().create(&handle("section-headers"), &sections, false).expect("create");
    let s0 = region.read_section_header(&mem.borrow(), 0).expect("read 0");
    let s1 = region.read_section_header(&mem.borrow(), 1).expect("read 1");
    assert_eq!(s0.section_id, 0);
    assert_eq!(s0.slot_count, 4);
    assert_eq!(s0.slot_size_bytes, 1024);
    assert_eq!(s0.writer_position, 0);
    assert_eq!(s1.section_id, 7);
    assert_eq!(s1.slot_count, 8);
    assert_eq!(s1.slot_size_bytes, 512);
}

#[test]
fn empty_section_list_is_rejected() {
    let err = Names::new().create(&handle("empty-sections"), &[], false).unwrap_err();
    match err {
        TesseraRingError::Config(msg) => assert!(msg.contains("at least one section")),
        other => panic!("expected Config, got {other:?}"),
    }
}

#[test]
fn duplicate_section_id_is_rejected() {
    let sections = vec![SectionConfig::new(5, 4, 256), SectionConfig::new(5, 8, 512)];
    let err = Names::new().create(&handle("duplicate-id"), &sections, false).unwrap_err();
    match err {
        TesseraRingError::Config(msg) => assert!(msg.contains("duplicate")),
        other => panic!("expected Config, got {other:?}"),
    }
}

#[test]
fn region_zero_slot_count_is_rejected() {
    let sections = vec![SectionConfig::new(0, 0, 256)];
    let err = Names::new().create(&handle("zero-slots"), &sections, false).unwrap_err();
    match err {
        TesseraRingError::Config(msg) => assert!(msg.contains("slot_count == 0")),
        other => panic!("expected Config, got {other:?}"),
    }
}

#[test]
fn region_zero_slot_size_is_rejected() {
    let sections = vec![SectionConfig::new(0, 4, 0)];
    let err = Names::new().create(&handle("zero-size"), &sections, false).unwrap_err();
    match err {
        TesseraRingError::Config(msg) => assert!(msg.contains("slot_size_bytes == 0")),
        other => panic!("expected Config, got {other:?}"),
    }
}

#[test]
fn region_slot_size_not_multiple_of_8_is_rejected() {
    for bad_size in [1u32, 7, 17, 100, 1023, 2049] {
        let handle = handle(&format!("misalign-{bad_size}"));
        let sections = vec![SectionConfig::new(0, 4, bad_size)];
        let err = Names::new().create(&handle, &sections, false).unwrap_err();
        match err {
            TesseraRingError::Config(msg) => {
                assert!(
                    msg.contains("not a multiple of 8"),
                    "expected alignment error for size {bad_size}, got: {msg}"
                );
            }
            other => panic!("expected Config error for size {bad_size}, got {other:?}"),
        }
    }
    for good_size in [8u32, 16, 64, 1024, 2048] {
        let handle = handle(&format!("aligned-{good_size}"));
        let sections = vec![SectionConfig::new(0, 4, good_size)];
        let _ok = Names::new()
            .create(&handle, &sections, false)
            .unwrap_or_else(|e| panic!("expected ok for size {good_size}, got {e:?}"));
    }
}

#[test]
fn section_ordinal_maps_id_to_dense_position() {
    let sections = vec![
        SectionConfig::new(10, 4, 256),
        SectionConfig::new(20, 4, 256),
        SectionConfig::new(30, 4, 256),
    ];
    let (region, _) =
        Names::new().create(&handle("ordinal-map"), &sections, false).expect("create");
    assert_eq!(region.section_ordinal(10).unwrap(), 0);
    assert_eq!(region.section_ordinal(20).unwrap(), 1);
    assert_eq!(region.section_ordinal(30).unwrap(), 2);
    match region.section_ordinal(99).unwrap_err() {
        TesseraRingError::UnknownSection { section_id, configured } => {
            assert_eq!(section_id, 99);
            assert_eq!(configured, vec![10, 20, 30]);
        }
        other => panic!("expected UnknownSection, got {other:?}"),
    }
}

#[test]
fn attach_reads_creators_headers() {
    let handle = handle("attach-roundtrip");
    let sections = vec![SectionConfig::new(0, 4, 256), SectionConfig::new(1, 8, 128)];
    let mut names = Names::new();
    let (creator, mem) = names.create(&handle, &sections, false).expect("create");
    let (attacher, seen) = names.attach(&handle, &sections).expect("attach");
    assert!(!attacher.is_owner());
    assert_eq!(attacher.epoch_micros(&seen.borrow()), creator.epoch_micros(&mem.borrow()));
    let s0 = attacher.read_section_header(&seen.borrow(), 0).expect("read 0");
    assert_eq!(s0.section_id, 0);
    assert_eq!(s0.slot_count, 4);
    assert_eq!(s0.slot_size_bytes, 256);
}

#[test]
fn attach_rejects_section_geometry_mismatch() {
    let handle = handle("section-geometry");
    let mut names = Names::new();
    let _creator =
        names.create(&handle, &[SectionConfig::new(0, 8, 1024)], false).expect("create");
    let err = names.attach(&handle, &[SectionConfig::new(0, 4, 1024)]).unwrap_err();
    match err {
        TesseraRingError::SectionConfigMismatch {
            section_id,
            expected_count,
            found_count,
            ..
        } => {
            assert_eq!(section_id, 0);
            assert_eq!(expected_count, 4);
            assert_eq!(found_count, 8);
        }
        other => panic!("expected SectionConfigMismatch, got {other:?}"),
    }
}

#[test]
fn attach_rejects_section_count_mismatch() {
    let handle = handle("section-count");
    let mut names = Names::new();
    let creator_sections = vec![SectionConfig::new(0, 4, 256), SectionConfig::new(1, 4, 256)];
    let _creator = names.create(&handle, &creator_sections, false).expect("create");
    let err = names.attach(&handle, &[SectionConfig::new(0, 4, 256)]).unwrap_err();
    match err {
        TesseraRingError::HeaderMismatch { message, .. } => {
            assert!(message.contains("section_count"));
        }
        other => panic!("expected HeaderMismatch, got {other:?}"),
    }
}

#[test]
fn write_then_read_section_header_roundtrips() {
    let (region, mem) = Names::new()
        .create(&handle("section-header-roundtrip"), &[SectionConfig::new(7, 4, 256)], false)
        .expect("create");
    let sh = SectionHeader {
        section_id: 7,
        slot_count: 4,
        slot_size_bytes: 256,
        _pad0: 0,
        writer_position: 1_234_567,
        _reserved: [0; 40],
    };
    region.write_section_header(&mut mem.borrow_mut(), 0, sh).expect("write");
    let read = region.read_section_header(&mem.borrow(), 0).expect("read");
    assert_eq!(read.section_id, 7);
    assert_eq!(read.writer_position, 1_234_567);
}

#[test]
fn write_then_read_slot_header_roundtrips() {
    let (region, mem) = Names::new()
        .create(&handle("slot-header-roundtrip"), &single_section(4, 256), false)
        .expect("create");
    let sh = SlotHeader {
        sequence: 42,
        position: 1024,
        length: 99,
        _pad0: 0,
        timestamp_nanos: 1_700_000_000_000_000_000,
        _reserved: [0; 32],
    };
    region.write_slot_header(&mut mem.borrow_mut(), 0, 2, sh).expect("write");
    let read = region.read_slot_header(&mem.borrow(), 0, 2).expect("read");
    assert_eq!(read.sequence, 42);
    assert_eq!(read.position, 1024);
    assert_eq!(read.length, 99);
    assert_eq!(read.timestamp_nanos, 1_700_000_000_000_000_000);
}

#[test]
fn region_write_then_read_slot_payload_roundtrips() {
    let (region, mem) = Names::new()
        .create(&handle("slot-payload-roundtrip"), &single_section(2, 64), false)
        .expect("create");
    let payload: Vec<u8> = (0..32).collect();
    region.write_slot_payload(&mut mem.borrow_mut(), 0, 0, &payload).expect("write");
    let read = region.read_slot_payload(&mem.borrow(), 0, 0, 32).expect("read");
    assert_eq!(read, payload);
    let other = region.read_slot_payload(&mem.borrow(), 0, 1, 32).expect("read other");
    assert_eq!(other, vec![0u8; 32]);
}

#[test]
fn slot_index_out_of_range_errors() {
    let (region, mem) =
        Names::new().create(&handle("slot-oor"), &single_section(2, 64), false).expect("create");
    let err = region.read_slot_header(&mem.borrow(), 0, 99).unwrap_err();
    match err {
        TesseraRingError::Region(msg) => assert!(msg.contains("out of range")),
        other => panic!("expected Region error, got {other:?}"),
    }
}

#[test]
fn multi_section_different_geometry_isolated_in_memory() {
    let sections = vec![SectionConfig::new(0, 4, 64), SectionConfig::new(1, 4, 128)];
    let (region, mem) =
        Names::new().create(&handle("multi-section-isolation"), &sections, false).expect("create");
    let mem = &mut *mem.borrow_mut();
    let pat_a = vec![0xAAu8; 64];
    let pat_b = vec![0xBBu8; 128];
    region.write_slot_payload(mem, 0, 0, &pat_a).expect("write a");
    region.write_slot_payload(mem, 1, 0, &pat_b).expect("write b");
    let read_a = region.read_slot_payload(mem, 0, 0, 64).expect("read a");
    let read_b = region.read_slot_payload(mem, 1, 0, 128).expect("read b");
    assert_eq!(read_a, pat_a);
    assert_eq!(read_b, pat_b);
    let untouched = region.read_slot_payload(mem, 0, 1, 64).expect("read slot1");
    assert_eq!(untouched, vec![0u8; 64]);
}

#[test]
fn ring_cross_process_attach_via_shared_handle() {
    let handle = handle("cross-attach");
    let sections = single_section(4, 128);
    let mut names = Names::new();
    let (creator, mem) = names.create(&handle, &sections, false).expect("create");
    creator.write_slot_payload(&mut mem.borrow_mut(), 0, 2, b"hello attacher").expect("write");

    let (attacher, seen) = names.attach(&handle, &sections).expect("attach");
    let read = attacher
        .read_slot_payload(&seen.borrow(), 0, 2, b"hello attacher".len() as u32)
        .expect("read");
    assert_eq!(read.as_slice(), b"hello attacher");
}

#[test]
fn writer_position_field_offset_matches_layout() {
    let sh = SectionHeader {
        section_id: 0,
        slot_count: 0,
        slot_size_bytes: 0,
        _pad0: 0,
        writer_position: u64::MAX,
        _reserved: [0; 40],
    };
    let bytes = sh.to_bytes();
    assert_eq!(bytes.iter().position(|b| *b == 0xFF), Some(WRITER_POSITION_FIELD_OFFSET));
}

#[test]
fn region_slot_header_field_offsets_match_layout() {
    let blank = SlotHeader {
        sequence: 0,
        position: 0,
        length: 0,
        _pad0: 0,
        timestamp_nanos: 0,
        _reserved: [0; 32],
    };
    let first = |h: SlotHeader| h.to_bytes().iter().position(|b| *b == 0xFF);
    assert_eq!(first(SlotHeader { sequence: u64::MAX, ..blank }), Some(SEQUENCE_FIELD_OFFSET));
    assert_eq!(first(SlotHeader { position: u64::MAX, ..blank }), Some(POSITION_FIELD_OFFSET));
    assert_eq!(first(SlotHeader { length: u32::MAX, ..blank }), Some(LENGTH_FIELD_OFFSET));
    assert_eq!(
        first(SlotHeader { timestamp_nanos: u64::MAX, ..blank }),
        Some(TIMESTAMP_FIELD_OFFSET)
    );
}

#[test]
fn writer_position_atomic_starts_at_zero_and_supports_fetch_add() {
    let handle = handle("writer-pos-atomic");
    let sections = single_section(4, 64);
    let mut names = Names::new();
    let (region, mem) = names.create(&handle, &sections, false).expect("create");
    let at = region.writer_position_atomic(0).expect("atomic view");
    assert_eq!(at, 128 + WRITER_POSITION_FIELD_OFFSET);
    assert_eq!(region.load_position(&mem.borrow(), 0), 0);
    let first = region.load_position(&mem.borrow(), 0);
    region.store_position(&mut mem.borrow_mut(), 0, first + 1);
    let second = region.load_position(&mem.borrow(), 0);
    region.store_position(&mut mem.borrow_mut(), 0, second + 1);
    assert_eq!(first, 0);
    assert_eq!(second, 1);
    assert_eq!(region.load_position(&mem.borrow(), 0), 2);
    let (attacher, seen) = names.attach(&handle, &sections).expect("attach");
    assert_eq!(attacher.load_position(&seen.borrow(), 0), 2);
    assert_eq!(&seen.borrow()[at..at + 8], 2u64.to_le_bytes());
}

#[test]
fn slot_sequence_atomic_starts_at_zero() {
    let (region, mem) = Names::new()
        .create(&handle("slot-seq-atomic"), &single_section(4, 64), false)
        .expect("create");
    for i in 0..4 {
        let at = region.slot_sequence_atomic(0, i).expect("seq view");
        assert_eq!(at, 192 + i as usize * 128);
        assert_eq!(region.load_sequence(&mem.borrow(), 0, i), 0);
    }
}

#[test]
fn unsafe_payload_ptr_writes_visible_via_read_slot_payload() {
    let (region, mem) =
        Names::new().create(&handle("payload-ptr"), &single_section(2, 32), false).expect("create");
    let data = b"hello via raw ptr";
    let at = region.slot_payload_ptr(0, 1).expect("ptr");
    mem.borrow_mut()[at..at + data.len()].copy_from_slice(data);
    let read = region.read_slot_payload(&mem.borrow(), 0, 1, data.len() as u32).expect("read");
    assert_eq!(read.as_slice(), data);
}

#[test]
fn write_then_read_slot_header_fields_via_unsafe_path() {
    let (region, mem) = Names::new()
        .create(&handle("header-fields-unsafe"), &single_section(2, 64), false)
        .expect("create");
    region
        .write_slot_header_fields(&mut mem.borrow_mut(), 0, 1, 42, 7, 1_700_000_000_000_000_000)
        .expect("write");
    let (pos, len, ts) = region.read_slot_header_fields(&mem.borrow(), 0, 1).expect("read");
    assert_eq!(pos, 42);
    assert_eq!(len, 7);
    assert_eq!(ts, 1_700_000_000_000_000_000);
}

#[test]
fn region_force_recreate_clobbers_existing_region() {
    let handle = handle("force-recreate");
    let sections = single_section(4, 64);
    let mut names = Names::new();
    let _first = names.create(&handle, &sections, false).expect("create 1");
    let refused = names.create(&handle, &sections, false);
    assert!(matches!(refused, Err(TesseraRingError::Region(_))));
    let _second = names.create(&handle, &sections, true).expect("force_recreate");
}

#[test]
fn creator_and_attacher_with_different_list_order_interoperate() {
    let handle = handle("section-order-interop");
    let mut names = Names::new();
    let creator_sections = vec![
        SectionConfig::new(0, 4, 256),
        SectionConfig::new(7, 8, 128),
        SectionConfig::new(3, 4, 64),
    ];
    let (creator, mem) = names.create(&handle, &creator_sections, false).expect("create");

    let attacher_sections = vec![
        SectionConfig::new(3, 4, 64),
        SectionConfig::new(7, 8, 128),
        SectionConfig::new(0, 4, 256),
    ];
    let (attacher, seen) = names.attach(&handle, &attacher_sections).expect("attach");

    let creator_ord = creator.section_ordinal(7).unwrap();
    let attacher_ord = attacher.section_ordinal(7).unwrap();
    assert_eq!(
        creator_ord, attacher_ord,
        "section_id 7 must map to the same canonical ordinal on both sides"
    );

    creator
        .write_slot_payload(&mut mem.borrow_mut(), creator_ord, 0, b"hello via reordered config")
        .unwrap();
    let read = attacher
        .read_slot_payload(
            &seen.borrow(),
            attacher_ord,
            0,
            b"hello via reordered config".len() as u32,
        )
        .unwrap();
    assert_eq!(read.as_slice(), b"hello via reordered config");
}

#[test]
fn region_unlink_removes_shm_name_for_owner() {
    let handle = handle("explicit-unlink");
    let sections = single_section(4, 64);
    let mut names = Names::new();
    let (mut owner, _) = names.create(&handle, &sections, false).expect("create");
    let _attacher = names.attach(&handle, &sections).expect("attach pre-unlink");
    names.unlink(&mut owner).expect("unlink");
    let post_attach = names.attach(&handle, &sections);
    assert!(post_attach.is_err(), "expected attach to fail after explicit unlink, got Ok");
    names.unlink(&mut owner).expect("second unlink");
}

#[test]
fn region_unlink_disables_drop_time_unlink_for_handoff_safety() {
    let handle = handle("handoff-no-clobber");
    let sections_a = single_section(2, 64);
    let sections_b = single_section(4, 128);
    let mut names = Names::new();
    let (mut owner_a, _) = names.create(&handle, &sections_a, false).expect("A create");
    names.unlink(&mut owner_a).expect("A unlink");
    let _owner_b = names.create(&handle, &sections_b, false).expect("B create after A unlink");
    names.drop_region(owner_a);
    let (attacher, _) = names.attach(&handle, &sections_b).expect("attach to B after A's drop");
    assert_eq!(attacher.section_count(), 1);
    assert_eq!(attacher.section_config(0).unwrap().slot_count(), 4);
}

#[test]
fn region_stale_owners_second_unlink_does_not_clobber_successor() {
    let handle = handle("stale-double-unlink");
    let sections_a = single_section(2, 64);
    let sections_b = single_section(4, 128);
    let mut names = Names::new();
    let (mut owner_a, _) = names.create(&handle, &sections_a, false).expect("A create");
    names.unlink(&mut owner_a).expect("A first unlink");
    let _owner_b = names.create(&handle, &sections_b, false).expect("B create after A unlink");
    names.unlink(&mut owner_a).expect("A second unlink should be a no-op");
    let (attacher, _) =
        names.attach(&handle, &sections_b).expect("attach B after A's stale 2nd unlink");
    assert_eq!(attacher.section_config(0).unwrap().slot_count(), 4);
    names.drop_region(attacher);
    names.drop_region(owner_a);
    let _attacher2 = names.attach(&handle, &sections_b).expect("attach B after A's drop");
}

#[test]
fn region_unlink_rejects_attacher_calls() {
    let handle = handle("attacher-unlink-rejected");
    let sections = single_section(4, 64);
    let mut names = Names::new();
    let _creator = names.create(&handle, &sections, false).expect("create");
    let (mut attacher, _) = names.attach(&handle, &sections).expect("attach");
    let err = names.unlink(&mut attacher).unwrap_err();
    match err {
        TesseraRingError::Region(msg) => {
            assert!(
                msg.contains("attacher") || msg.contains("Only the creator"),
                "expected attacher-rejection error, got: {msg}"
            );
        }
        other => panic!("expected Region error, got {other:?}"),
    }
}

#[test]
fn region_attach_rejects_undersized_region() {
    let handle = handle("undersized");
    let mut names = Names::new();
    let _creator = names.create(&handle, &[SectionConfig::new(0, 1, 8)], false).expect("create");
    let err = names.attach(&handle, &[SectionConfig::new(0, 100, 1024)]).unwrap_err();
    match err {
        TesseraRingError::Region(msg) => {
            assert!(
                msg.contains("smaller than expected") || msg.contains("Bailing out"),
                "expected size-mismatch bounds error, got: {msg}"
            );
        }
        other => panic!("expected Region bounds error, got {other:?}"),
    }
}

#[test]
fn a_short_segment_is_refused_in_these_words() {
    let handle = handle("short-words");
    let mut names = Names::new();
    let _creator = names.create(&handle, &[SectionConfig::new(0, 1, 8)], false).expect("create");
    match names.attach(&handle, &[SectionConfig::new(0, 100, 1024)]).unwrap_err() {
        TesseraRingError::Region(msg) => {
            assert_eq!(
                msg,
                format!(
                    "attached SHM region '{}' is smaller than expected: caller's section config requires at least 108992 bytes (GlobalHeader 128 + section table + per-section slot data for 1 sections), but the mapped region is only 264 bytes. Possible causes: stale SHM segment from a prior crashed peer, wrong namespace handle, or caller's section config doesn't match the creator's. Bailing out before any raw byte access (Codex P1 #2).",
                    handle.shm_name()
                )
            );
        }
        other => panic!("expected Region bounds error, got {other:?}"),
    }
}

#[test]
fn sections_are_put_in_the_order_of_their_ids() {
    let list = vec![
        SectionConfig::new(9, 1, 8),
        SectionConfig::new(2, 2, 8),
        SectionConfig::new(5, 3, 8),
    ];
    let ids: Vec<u32> = canonicalize(&list).iter().map(|s| s.section_id()).collect();
    assert_eq!(ids, vec![2, 5, 9]);
    assert!(validate_section_config(&list).is_ok());
}

#[test]
fn ring_errors_in_words() {
    let e = TesseraRingError::UnknownSection { section_id: 4, configured: vec![1, 2] };
    assert_eq!(e.message(), "unknown section_id: 4 (configured sections: [1, 2])");
    let e = TesseraRingError::OversizedEvent { section_id: 1, event_size: 9, slot_size: 8 };
    assert_eq!(e.message(), "event size 9 exceeds section 1 slot_size_bytes 8");
}
