//! Tests of the channel.
use std::cell::RefCell;
use std::collections::{HashMap, HashSet};
use std::rc::Rc;

use tessera::channel::header::{
    region_size_bytes, slot_array_offset, slot_header_offset, slot_payload_offset, slot_stride,
    Header, SlotHeader, FORMAT_VERSION, MAGIC,
};
use tessera::channel::protocol::{Action, RecvAttempt, RecvPhase, SendAttempt, SendPhase};
use tessera::channel::region::{
    Region, HEAD_FIELD_OFFSET, SLOT_LENGTH_FIELD_OFFSET, SLOT_READY_FIELD_OFFSET,
    SLOT_SEQUENCE_FIELD_OFFSET, SLOT_TIMESTAMP_FIELD_OFFSET, TAIL_FIELD_OFFSET,
};
use tessera::channel::{
    Channel, ChannelConfig, ChannelRole, ChannelRoleSnapshot, NamespaceHandle, OpenPlan,
    RecvOutcome, TesseraChannelError, Wait,
};
use tessera::lifecycle::{CreateStep, MapOutcome, UnlinkStep, ENOENT};

const EPOCH: u64 = 1_700_000_000_000_000;
const NOW: u64 = 1_700_000_000_000_000_000;

/// Named segments, as a system keeps them.
struct Names {
    table: HashMap<String, Rc<RefCell<Vec<u8>>>>,
}

impl Names {
    fn new() -> Names {
        Names { table: HashMap::new() }
    }

    fn create(
        &mut self,
        handle: &NamespaceHandle,
        count: u32,
        size: u32,
        force: bool,
    ) -> Result<(Region, Rc<RefCell<Vec<u8>>>), TesseraChannelError> {
        let len = Region::plan_create(count, size)?;
        let name = handle.shm_name();
        let mut retried = false;
        loop {
            let outcome = if self.table.contains_key(&name) {
                MapOutcome::Exists("mapping exists".to_string())
            } else {
                MapOutcome::Mapped
            };
            match Region::create_step(handle, outcome, retried, force)? {
                CreateStep::Stamp => {
                    let mem = Rc::new(RefCell::new(vec![0u8; len]));
                    let region = Region::create(&mut mem.borrow_mut(), handle, count, size, EPOCH)?;
                    self.table.insert(name, mem.clone());
                    return Ok((region, mem));
                }
                CreateStep::UnlinkAndRetry => {
                    self.table.remove(&name);
                    retried = true;
                }
            }
        }
    }

    fn attach(
        &self,
        handle: &NamespaceHandle,
        count: u32,
        size: u32,
    ) -> Result<(Region, Rc<RefCell<Vec<u8>>>), TesseraChannelError> {
        match self.table.get(&handle.shm_name()) {
            Some(mem) => {
                let region = Region::attach(&mem.borrow(), handle, count, size)?;
                Ok((region, mem.clone()))
            }
            None => Err(TesseraChannelError::Region("no such segment".to_string())),
        }
    }

    fn unlink(&mut self, region: &mut Region) -> Result<(), TesseraChannelError> {
        match region.unlink()? {
            UnlinkStep::Done => Ok(()),
            UnlinkStep::Call => {
                if self.table.remove(region.shm_name()).is_some() {
                    region.finish_unlink(0, None, "")
                } else {
                    region.finish_unlink(-1, Some(ENOENT), "no such file")
                }
            }
        }
    }

    fn drop_region(&mut self, region: Region) {
        if region.unlinks_on_drop() {
            self.table.remove(region.shm_name());
        }
    }
}

fn config(tag: &str, count: u32, size: u32, role: ChannelRole) -> ChannelConfig {
    ChannelConfig {
        description: format!("tessera-channel-state-test/{tag}"),
        slot_count: count,
        slot_size_bytes: size,
        role,
        force_recreate: false,
    }
}

fn open_receiver_and_sender(tag: &str, count: u32, size: u32) -> (Channel, Channel, Vec<u8>) {
    let c = config(tag, count, size, ChannelRole::Receiver);
    let len = match c.plan().expect("plan") {
        OpenPlan::Create { size, .. } => size,
        other => panic!("a receiver creates, got {other:?}"),
    };
    let mut mem = vec![0u8; len];
    let recv = Channel::open(c, &mut mem, EPOCH).expect("receiver open");
    let send = Channel::open(config(tag, count, size, ChannelRole::Sender), &mut mem, 0)
        .expect("sender open");
    (recv, send, mem)
}

fn send(c: &Channel, mem: &mut [u8], message: &[u8]) {
    assert!(c.send(mem, message, NOW).expect("send"), "there is room");
}

fn recv(c: &Channel, mem: &mut [u8]) -> Vec<u8> {
    c.recv(mem).expect("recv").expect("a message is there")
}

fn handle(tag: &str) -> NamespaceHandle {
    NamespaceHandle::derive(&format!("tessera-channel-test/{tag}"))
}

fn word(mem: &[u8], at: usize) -> u64 {
    u64::from_le_bytes(mem[at..at + 8].try_into().unwrap())
}

fn set_word(mem: &mut [u8], at: usize, v: u64) {
    mem[at..at + 8].copy_from_slice(&v.to_le_bytes());
}

// --- the handle -----------------------------------------------------

#[test]
fn try_recv_returns_promptly_when_head_slot_claimed_but_not_ready() {
    let c = config("try-recv-not-ready", 4, 16, ChannelRole::Receiver);
    let handle = NamespaceHandle::derive(&c.description);
    let mut mem = vec![0u8; region_size_bytes(4, 16).unwrap()];
    let receiver = Channel::open(c, &mut mem, EPOCH).expect("receiver open");
    let region = Region::attach(&mem, &handle, 4, 16).expect("attach region");
    let tail = region.tail_atomic();
    let claimed = word(&mem, tail);
    set_word(&mut mem, tail, claimed + 1);

    let err = receiver.try_recv(&mut mem).unwrap_err();
    assert!(
        matches!(err, TesseraChannelError::ChannelEmpty { .. }),
        "expected ChannelEmpty, got {err:?}"
    );
    assert!(matches!(receiver.try_recv_inner(&mut mem), Ok(RecvOutcome::NotReady)));
}

#[test]
fn send_then_recv_returns_payload() {
    let (r, s, mut mem) = open_receiver_and_sender("simple", 4, 64);
    send(&s, &mut mem, b"hello channel");
    let got = recv(&r, &mut mem);
    assert_eq!(got, b"hello channel");
    let (h, t) = r.positions(&mem);
    assert_eq!(h, 1);
    assert_eq!(t, 1);
}

#[test]
fn multiple_messages_arrive_in_order() {
    let (r, s, mut mem) = open_receiver_and_sender("ordered", 8, 32);
    for i in 0..5u32 {
        send(&s, &mut mem, &i.to_le_bytes());
    }
    for i in 0..5u32 {
        let got = recv(&r, &mut mem);
        assert_eq!(got, i.to_le_bytes());
    }
}

#[test]
fn two_receivers_in_turn_get_one_message_each() {
    let (rx, tx, mut mem) = open_receiver_and_sender("two-receivers", 4, 64);
    let other = rx.clone();
    send(&tx, &mut mem, b"first");
    send(&tx, &mut mem, b"second");
    let (head, _) = rx.positions(&mem);
    assert_eq!(recv(&other, &mut mem), b"first");
    assert_eq!(recv(&rx, &mut mem), b"second");
    assert_eq!(rx.positions(&mem).0, head + 2);
    assert!(matches!(
        other.try_recv(&mut mem),
        Err(TesseraChannelError::ChannelEmpty { .. })
    ));
}

#[test]
fn try_send_fails_fast_when_full() {
    let (_r, s, mut mem) = open_receiver_and_sender("try-send-full", 2, 16);
    s.try_send(&mut mem, b"a", NOW).expect("first");
    s.try_send(&mut mem, b"b", NOW).expect("second");
    let err = s.try_send(&mut mem, b"c", NOW).unwrap_err();
    assert!(matches!(err, TesseraChannelError::ChannelFull { slot_count: 2 }));
}

#[test]
fn try_recv_fails_fast_when_empty() {
    let (r, _s, mut mem) = open_receiver_and_sender("try-recv-empty", 4, 16);
    let err = r.try_recv(&mut mem).unwrap_err();
    assert!(matches!(err, TesseraChannelError::ChannelEmpty { head: 0 }));
}

#[test]
fn send_timeout_returns_timeout_on_full() {
    let (_r, s, mut mem) = open_receiver_and_sender("send-timeout", 1, 16);
    send(&s, &mut mem, b"a");
    assert!(!s.send_timeout(&mut mem, b"b", NOW, 10_000, false).expect("still waiting"));
    let err = s.send_timeout(&mut mem, b"b", NOW, 10_000, true).unwrap_err();
    assert!(matches!(
        err,
        TesseraChannelError::Timeout { timeout_micros: 10_000, head: 0, tail: 1 }
    ));
}

#[test]
fn recv_timeout_returns_timeout_on_empty() {
    let (r, _s, mut mem) = open_receiver_and_sender("recv-timeout", 4, 16);
    assert!(r.recv_timeout(&mut mem, 10_000, false).expect("still waiting").is_none());
    let err = r.recv_timeout(&mut mem, 10_000, true).unwrap_err();
    assert!(matches!(err, TesseraChannelError::Timeout { .. }));
}

#[test]
fn role_mismatch_errors() {
    let (r, s, mut mem) = open_receiver_and_sender("role-mismatch", 4, 16);
    let err = r.send(&mut mem, b"x", NOW).unwrap_err();
    assert!(matches!(err, TesseraChannelError::RoleMismatch { .. }));
    let err = s.recv(&mut mem).unwrap_err();
    assert!(matches!(err, TesseraChannelError::RoleMismatch { .. }));
}

#[test]
fn role_mismatch_names_both_roles() {
    let (r, _s, mut mem) = open_receiver_and_sender("role-names", 4, 16);
    match r.try_send(&mut mem, b"x", NOW).unwrap_err() {
        TesseraChannelError::RoleMismatch { actual, required } => {
            assert_eq!(actual, ChannelRoleSnapshot::Receiver);
            assert_eq!(required, ChannelRoleSnapshot::Sender);
        }
        other => panic!("expected RoleMismatch, got {other:?}"),
    }
}

#[test]
fn oversized_payload_rejected() {
    let (_r, s, mut mem) = open_receiver_and_sender("oversized", 4, 16);
    let big = vec![0u8; 17];
    let err = s.try_send(&mut mem, &big, NOW).unwrap_err();
    match err {
        TesseraChannelError::OversizedPayload { payload_size, slot_size } => {
            assert_eq!(payload_size, 17);
            assert_eq!(slot_size, 16);
        }
        other => panic!("expected OversizedPayload, got {other:?}"),
    }
}

#[test]
fn ring_wraps_correctly_after_full_drain() {
    let (r, s, mut mem) = open_receiver_and_sender("wraparound", 4, 16);
    for cycle in 0..3 {
        for i in 0..4u32 {
            let msg = format!("c{cycle}-i{i}");
            send(&s, &mut mem, msg.as_bytes());
        }
        for i in 0..4u32 {
            let msg = format!("c{cycle}-i{i}");
            let got = recv(&r, &mut mem);
            assert_eq!(got, msg.as_bytes());
        }
    }
    let (h, t) = r.positions(&mem);
    assert_eq!(h, 12);
    assert_eq!(t, 12);
}

#[test]
fn empty_and_full_size_messages_come_back_whole() {
    let (r, s, mut mem) = open_receiver_and_sender("sizes", 2, 16);
    send(&s, &mut mem, b"");
    send(&s, &mut mem, &[7u8; 16]);
    assert_eq!(recv(&r, &mut mem), Vec::<u8>::new());
    assert_eq!(recv(&r, &mut mem), vec![7u8; 16]);
}

#[test]
fn a_full_channel_waits_when_told_to() {
    let (r, s, mut mem) = open_receiver_and_sender("waits", 1, 8);
    send(&s, &mut mem, b"one");
    assert!(!s.send(&mut mem, b"two", NOW).expect("send"));
    assert_eq!(recv(&r, &mut mem), b"one");
    assert!(s.send(&mut mem, b"two", NOW).expect("send"));
    assert!(matches!(s.judge_send(false, Wait::Forever, true, 0, 1), Ok(false)));
    assert!(matches!(
        s.judge_send(false, Wait::Never, false, 0, 1),
        Err(TesseraChannelError::ChannelFull { slot_count: 1 })
    ));
}

// --- many senders, step by step -------------------------------------

/// Performs one access of an attempt, as shared memory would.
fn perform(region: &Region, mem: &mut [u8], action: Action, message: &[u8]) -> (u64, Vec<u8>) {
    let mut copied = Vec::new();
    let word = match action {
        Action::LoadHead => region.load_head(mem),
        Action::LoadTail => region.load_tail(mem),
        Action::ExchangeTail { expected, desired } => {
            if region.load_tail(mem) == expected {
                region.store_tail(mem, desired);
                1
            } else {
                0
            }
        }
        Action::CopyIn { slot } => {
            region.write_slot_payload(mem, slot, message);
            0
        }
        Action::WriteMetadata { slot } => {
            region.write_slot_metadata(mem, slot, message.len() as u32, NOW).unwrap();
            0
        }
        Action::StoreSequence { slot, value } => {
            region.store_sequence(mem, slot, value);
            0
        }
        Action::LoadReady { slot } => region.load_ready(mem, slot),
        Action::LoadSequence { slot } => region.load_sequence(mem, slot),
        Action::CopyOut { slot } => {
            copied = region.read_message(mem, slot);
            0
        }
        Action::StoreReady { slot, value } => {
            region.store_ready(mem, slot, value);
            0
        }
        Action::StoreHead { value } => {
            region.store_head(mem, value);
            0
        }
        Action::Stop => 0,
    };
    (word, copied)
}

struct Producer {
    next: u32,
    attempt: Option<SendAttempt>,
}

/// Runs producers and the consumer one access at a time, in an order drawn
/// from `seed`, until everything arrived.
fn run_interleaved(tag: &str, count: u32, producers: u32, per_producer: u32, mut seed: u64) -> Vec<Vec<u8>> {
    let handle = handle(tag);
    let mut mem = vec![0u8; region_size_bytes(count, 16).unwrap()];
    let region = Region::create(&mut mem, &handle, count, 16, EPOCH).expect("create");
    let mut senders: Vec<Producer> =
        (0..producers).map(|_| Producer { next: 0, attempt: None }).collect();
    let mut receiving = RecvAttempt::start(count);
    let mut got = Vec::new();
    let mut received = Vec::new();
    let total = (producers * per_producer) as usize;
    while received.len() < total {
        seed = seed.wrapping_mul(6364136223846793005).wrapping_add(1442695040888963407);
        let pick = ((seed >> 33) % (producers as u64 + 1)) as u32;
        if pick == producers {
            let (w, copied) = perform(&region, &mut mem, receiving.action(), b"");
            if matches!(receiving.action(), Action::CopyOut { .. }) {
                got = copied;
            }
            receiving.observe(w);
            match receiving.phase {
                RecvPhase::Got => {
                    received.push(got.clone());
                    receiving = RecvAttempt::start(count);
                }
                RecvPhase::Empty | RecvPhase::NotReady => receiving = RecvAttempt::start(count),
                RecvPhase::Mismatch { .. } => panic!("sequence mismatch"),
                _ => {}
            }
        } else {
            let p = &mut senders[pick as usize];
            if p.next == per_producer {
                continue;
            }
            let mut msg = [0u8; 8];
            msg[..4].copy_from_slice(&pick.to_le_bytes());
            msg[4..].copy_from_slice(&p.next.to_le_bytes());
            let mut a = p.attempt.take().unwrap_or_else(|| SendAttempt::start(count));
            let (w, _) = perform(&region, &mut mem, a.action(), &msg);
            a.observe(w);
            match a.phase {
                SendPhase::Sent => p.next += 1,
                SendPhase::Full => {}
                _ => p.attempt = Some(a),
            }
        }
    }
    received
}

fn check_all_arrived(received: &[Vec<u8>], producers: u32, per_producer: u32) {
    let total = (producers * per_producer) as usize;
    let mut seen = HashSet::new();
    let mut last: HashMap<u32, u32> = HashMap::new();
    for msg in received {
        assert_eq!(msg.len(), 8);
        let pid = u32::from_le_bytes(msg[..4].try_into().unwrap());
        let seq = u32::from_le_bytes(msg[4..].try_into().unwrap());
        assert!(pid < producers, "pid {pid} out of range");
        assert!(seq < per_producer, "seq {seq} out of range");
        assert!(seen.insert((pid, seq)), "duplicate ({pid}, {seq})");
        if let Some(before) = last.insert(pid, seq) {
            assert!(before < seq, "messages of one sender arrive in order");
        }
    }
    assert_eq!(seen.len(), total, "every message must arrive exactly once");
}

#[test]
fn tight_ring_concurrent_senders_no_overcommit_or_corruption() {
    for seed in [1, 2, 3] {
        let received = run_interleaved("tight-ring-mpsc", 2, 6, 200, seed);
        check_all_arrived(&received, 6, 200);
    }
}

#[test]
fn concurrent_multiple_producers_single_consumer_preserves_all_messages() {
    for seed in [4, 5, 6] {
        let received = run_interleaved("mpsc-stress", 16, 4, 100, seed);
        check_all_arrived(&received, 4, 100);
    }
}

// --- headers --------------------------------------------------------

#[test]
fn header_size_matches_documented_layout() {
    assert_eq!(Header::SIZE, 120);
}

#[test]
fn slot_header_size_matches_documented_layout() {
    assert_eq!(SlotHeader::SIZE, 56);
}

#[test]
fn magic_bytes_are_ascii_marker() {
    let bytes = MAGIC.to_le_bytes();
    assert_eq!(&bytes, b"TESCHANv");
}

fn sample_header(head: u64, tail: u64) -> Header {
    Header {
        magic: MAGIC,
        format_version: FORMAT_VERSION,
        _pad0: 0,
        epoch_micros: 1_700_000_000_000_000,
        slot_count: 8,
        slot_size_bytes: 4096,
        head,
        tail,
        handle_blake3: [0xAB; 32],
        _reserved: [0; 40],
    }
}

fn sample_slot_header() -> SlotHeader {
    SlotHeader {
        sequence: 42,
        ready: 1,
        length: 99,
        _pad0: 0,
        timestamp_nanos: 1_700_000_000_000_000_000,
        _reserved: [0; 24],
    }
}

#[test]
fn header_round_trips_through_bytes() {
    let bytes = sample_header(0, 0).to_bytes();
    assert_eq!(bytes.len(), Header::SIZE);
    let round_tripped = Header::from_bytes(&bytes);
    assert_eq!(round_tripped.magic, MAGIC);
    assert_eq!(round_tripped.format_version, FORMAT_VERSION);
    assert_eq!(round_tripped.slot_count, 8);
    assert_eq!(round_tripped.slot_size_bytes, 4096);
    assert_eq!(round_tripped.handle_blake3, [0xAB; 32]);
}

#[test]
fn slot_header_round_trips_through_bytes() {
    let bytes = sample_slot_header().to_bytes();
    assert_eq!(bytes.len(), SlotHeader::SIZE);
    let round_tripped = SlotHeader::from_bytes(&bytes);
    assert_eq!(round_tripped.sequence, 42);
    assert_eq!(round_tripped.ready, 1);
    assert_eq!(round_tripped.length, 99);
}

#[test]
fn region_size_is_header_plus_slots() {
    let n = 4_u32;
    let slot_size = 1024_u32;
    let expected = Header::SIZE + (n as usize) * (SlotHeader::SIZE + slot_size as usize);
    assert_eq!(region_size_bytes(n, slot_size), Some(expected));
    assert_eq!(expected, 4440);
}

#[test]
fn region_size_overflow_returns_none() {
    assert_eq!(region_size_bytes(u32::MAX, u32::MAX), None);
}

#[test]
fn slot_offsets_are_disjoint_and_in_order() {
    let slot_size = 256_u32;
    assert_eq!(slot_array_offset(), Header::SIZE);
    assert_eq!(slot_header_offset(0, slot_size), Header::SIZE);
    assert_eq!(
        slot_header_offset(1, slot_size),
        Header::SIZE + SlotHeader::SIZE + slot_size as usize
    );
    assert_eq!(
        slot_payload_offset(0, slot_size),
        slot_header_offset(0, slot_size) + SlotHeader::SIZE
    );
    assert_eq!(slot_stride(slot_size), 312);
}

#[test]
fn head_and_tail_offsets_are_8_aligned() {
    assert_eq!(HEAD_FIELD_OFFSET % 8, 0, "Header.head must be 8-aligned for AtomicU64 cast");
    assert_eq!(TAIL_FIELD_OFFSET % 8, 0, "Header.tail must be 8-aligned for AtomicU64 cast");
}

#[test]
fn slot_sequence_and_ready_offsets_are_8_aligned() {
    assert_eq!(SLOT_SEQUENCE_FIELD_OFFSET % 8, 0);
    assert_eq!(SLOT_READY_FIELD_OFFSET % 8, 0);
}

// --- segments -------------------------------------------------------

#[test]
fn head_field_offset_matches_layout() {
    let bytes = sample_header(0x1122_3344_5566_7788, 0).to_bytes();
    assert_eq!(word(&bytes, HEAD_FIELD_OFFSET), 0x1122_3344_5566_7788);
    assert_eq!(HEAD_FIELD_OFFSET, 32);
}

#[test]
fn tail_field_offset_matches_layout() {
    let bytes = sample_header(0, 0x1122_3344_5566_7788).to_bytes();
    assert_eq!(word(&bytes, TAIL_FIELD_OFFSET), 0x1122_3344_5566_7788);
    assert_eq!(TAIL_FIELD_OFFSET, 40);
}

#[test]
fn slot_header_field_offsets_match_layout() {
    let bytes = sample_slot_header().to_bytes();
    assert_eq!(word(&bytes, SLOT_SEQUENCE_FIELD_OFFSET), 42);
    assert_eq!(word(&bytes, SLOT_READY_FIELD_OFFSET), 1);
    let at = SLOT_LENGTH_FIELD_OFFSET;
    assert_eq!(u32::from_le_bytes(bytes[at..at + 4].try_into().unwrap()), 99);
    assert_eq!(word(&bytes, SLOT_TIMESTAMP_FIELD_OFFSET), 1_700_000_000_000_000_000);
}

#[test]
fn create_writes_valid_header() {
    let handle = handle("create-header");
    let (region, mem) = Names::new().create(&handle, 4, 1024, false).expect("create");
    let h = region.read_header(&mem.borrow());
    assert_eq!(h.magic, MAGIC);
    assert_eq!(h.format_version, FORMAT_VERSION);
    assert_eq!(h.slot_count, 4);
    assert_eq!(h.slot_size_bytes, 1024);
    assert_eq!(h.head, 0);
    assert_eq!(h.tail, 0);
    assert_eq!(h.handle_blake3, handle.full_digest());
    assert!(h.epoch_micros > 0);
    assert!(region.is_owner());
}

#[test]
fn zero_slot_count_is_rejected() {
    let err = Names::new().create(&handle("zero-slots"), 0, 64, false).unwrap_err();
    assert!(matches!(err, TesseraChannelError::Config(_)));
}

#[test]
fn zero_slot_size_is_rejected() {
    let err = Names::new().create(&handle("zero-size"), 4, 0, false).unwrap_err();
    assert!(matches!(err, TesseraChannelError::Config(_)));
}

#[test]
fn slot_size_not_multiple_of_8_is_rejected() {
    for bad in [1u32, 7, 17, 100, 1023] {
        let handle = handle(&format!("misalign-{bad}"));
        let err = Names::new().create(&handle, 4, bad, false).unwrap_err();
        match err {
            TesseraChannelError::Config(msg) => {
                assert!(
                    msg.contains("not a multiple of 8"),
                    "expected alignment error for {bad}, got: {msg}"
                );
            }
            other => panic!("expected Config, got {other:?}"),
        }
    }
    for good in [8u32, 16, 64, 1024, 2048] {
        let handle = handle(&format!("aligned-{good}"));
        let _ = Names::new()
            .create(&handle, 4, good, false)
            .unwrap_or_else(|e| panic!("expected ok for {good}, got {e:?}"));
    }
}

#[test]
fn attach_reads_creators_header() {
    let handle = handle("attach-roundtrip");
    let mut names = Names::new();
    let (creator, mem) = names.create(&handle, 4, 256, false).expect("create");
    let (attacher, seen) = names.attach(&handle, 4, 256).expect("attach");
    assert!(!attacher.is_owner());
    assert_eq!(attacher.epoch_micros(&seen.borrow()), creator.epoch_micros(&mem.borrow()));
}

#[test]
fn attach_rejects_geometry_mismatch() {
    let handle = handle("geometry-mismatch");
    let mut names = Names::new();
    let _creator = names.create(&handle, 8, 1024, false).expect("create");
    let err = names.attach(&handle, 4, 1024).unwrap_err();
    match err {
        TesseraChannelError::HeaderMismatch { expected_count, found_count, .. } => {
            assert_eq!(expected_count, 4);
            assert_eq!(found_count, 8);
        }
        other => panic!("expected HeaderMismatch, got {other:?}"),
    }
}

#[test]
fn attach_rejects_undersized_region() {
    let handle = handle("undersized");
    let mut names = Names::new();
    let _creator = names.create(&handle, 1, 8, false).expect("create");
    let err = names.attach(&handle, 100, 1024).unwrap_err();
    match err {
        TesseraChannelError::Region(msg) => {
            assert!(msg.contains("smaller than expected"), "expected bounds error, got: {msg}");
        }
        other => panic!("expected Region, got {other:?}"),
    }
}

#[test]
fn attach_rejects_another_description() {
    let mem = {
        let mut mem = vec![0u8; region_size_bytes(2, 64).unwrap()];
        Region::create(&mut mem, &handle("one"), 2, 64, EPOCH).expect("create");
        mem
    };
    let err = Region::attach(&mem, &handle("two"), 2, 64).unwrap_err();
    assert!(matches!(err, TesseraChannelError::Region(_)));
    let blank = vec![0u8; mem.len()];
    let err = Region::attach(&blank, &handle("one"), 2, 64).unwrap_err();
    assert!(err.message().contains("magic"), "got: {}", err.message());
}

#[test]
fn head_tail_atomics_start_at_zero_and_support_fetch_add() {
    let handle = handle("head-tail-atomic");
    let mut names = Names::new();
    let (region, mem) = names.create(&handle, 4, 64, false).expect("create");
    assert_eq!(word(&mem.borrow(), region.head_atomic()), 0);
    assert_eq!(word(&mem.borrow(), region.tail_atomic()), 0);
    let prev = region.load_tail(&mem.borrow());
    region.store_tail(&mut mem.borrow_mut(), prev + 1);
    assert_eq!(prev, 0);
    assert_eq!(word(&mem.borrow(), region.tail_atomic()), 1);

    let (attacher, seen) = names.attach(&handle, 4, 64).expect("attach");
    assert_eq!(word(&seen.borrow(), attacher.tail_atomic()), 1);
}

#[test]
fn slot_sequence_and_ready_atomics_start_at_zero() {
    let (region, mem) =
        Names::new().create(&handle("slot-atomics-zero"), 4, 64, false).expect("create");
    for i in 0..4 {
        assert_eq!(word(&mem.borrow(), region.slot_sequence_atomic(i).unwrap()), 0);
        assert_eq!(word(&mem.borrow(), region.slot_ready_atomic(i).unwrap()), 0);
    }
    assert!(matches!(region.slot_ready_atomic(4), Err(TesseraChannelError::Region(_))));
}

#[test]
fn slot_metadata_round_trips_via_unsafe_path() {
    let (region, mem) = Names::new().create(&handle("slot-metadata"), 2, 64, false).expect("create");
    region
        .write_slot_metadata(&mut mem.borrow_mut(), 1, 42, 1_700_000_000_000_000_000)
        .unwrap();
    let (length, ts) = region.read_slot_metadata(&mem.borrow(), 1).unwrap();
    assert_eq!(length, 42);
    assert_eq!(ts, 1_700_000_000_000_000_000);
}

#[test]
fn slot_payload_ptr_writes_visible_via_attacher_read() {
    let handle = handle("payload-ptr");
    let mut names = Names::new();
    let (region, mem) = names.create(&handle, 2, 64, false).expect("create");
    let data = b"hello channel via raw ptr";
    let at = region.slot_payload_ptr(0).unwrap();
    mem.borrow_mut()[at..at + data.len()].copy_from_slice(data);
    let (attacher, seen) = names.attach(&handle, 2, 64).expect("attach");
    let at = attacher.slot_payload_ptr(0).unwrap();
    assert_eq!(&seen.borrow()[at..at + data.len()], data);
}

#[test]
fn unlink_removes_shm_name_for_receiver() {
    let handle = handle("explicit-unlink");
    let mut names = Names::new();
    let (mut creator, _mem) = names.create(&handle, 4, 64, false).expect("create");
    let _attacher_pre = names.attach(&handle, 4, 64).expect("attach pre-unlink");
    names.unlink(&mut creator).expect("unlink");
    let post = names.attach(&handle, 4, 64);
    assert!(post.is_err(), "attach should fail after unlink");
    names.unlink(&mut creator).expect("second unlink");
}

#[test]
fn unlink_rejects_sender_calls() {
    let handle = handle("sender-unlink-rejected");
    let mut names = Names::new();
    let _creator = names.create(&handle, 4, 64, false).expect("create");
    let (mut attacher, _mem) = names.attach(&handle, 4, 64).expect("attach");
    let err = names.unlink(&mut attacher).unwrap_err();
    match err {
        TesseraChannelError::Region(msg) => {
            assert!(
                msg.contains("Sender") || msg.contains("Only the Receiver"),
                "expected sender-rejection error, got: {msg}"
            );
        }
        other => panic!("expected Region, got {other:?}"),
    }
}

#[test]
fn unlink_handoff_safety_drop_does_not_clobber_successor() {
    let handle = handle("handoff-no-clobber");
    let mut names = Names::new();
    let (mut a, _) = names.create(&handle, 2, 64, false).expect("A create");
    names.unlink(&mut a).expect("A unlink");
    let _b = names.create(&handle, 4, 128, false).expect("B create after A unlink");
    names.drop_region(a);
    let (attacher, _) = names.attach(&handle, 4, 128).expect("attach to B after A drop");
    assert_eq!(attacher.slot_count(), 4);
}

#[test]
fn stale_double_unlink_does_not_clobber_successor() {
    let handle = handle("stale-double-unlink");
    let mut names = Names::new();
    let (mut a, _) = names.create(&handle, 2, 64, false).expect("A create");
    names.unlink(&mut a).expect("A first unlink");
    let _b = names.create(&handle, 4, 128, false).expect("B create after A unlink");
    names.unlink(&mut a).expect("A second unlink (should be no-op)");
    let (attacher, _) = names.attach(&handle, 4, 128).expect("attach B after stale 2nd unlink");
    names.drop_region(attacher);
    names.drop_region(a);
    let _attacher2 = names.attach(&handle, 4, 128).expect("attach B after A drop");
}

#[test]
fn a_dropped_creator_takes_its_name_along() {
    let handle = handle("drop");
    let mut names = Names::new();
    let (a, _) = names.create(&handle, 2, 64, false).expect("create");
    names.drop_region(a);
    assert!(names.attach(&handle, 2, 64).is_err());
}

#[test]
fn an_unlink_that_fails_can_be_tried_again() {
    let handle = handle("unlink-fails");
    let mut names = Names::new();
    let (mut a, _) = names.create(&handle, 2, 64, false).expect("create");
    assert!(matches!(a.unlink(), Ok(UnlinkStep::Call)));
    let err = a.finish_unlink(-1, Some(13), "Permission denied").unwrap_err();
    assert!(err.message().contains("Permission denied"), "got: {}", err.message());
    assert!(matches!(a.unlink(), Ok(UnlinkStep::Call)));
    assert!(a.finish_unlink(-1, Some(ENOENT), "gone").is_ok());
    assert!(matches!(a.unlink(), Ok(UnlinkStep::Done)));
}

#[test]
fn force_recreate_clobbers_existing_region() {
    let handle = handle("force-recreate");
    let mut names = Names::new();
    let _first = names.create(&handle, 2, 64, false).expect("create 1");
    let refused = names.create(&handle, 2, 64, false);
    assert!(matches!(refused, Err(TesseraChannelError::Region(_))));
    let _second = names.create(&handle, 2, 64, true).expect("force_recreate");
}

#[test]
fn cross_process_attach_via_shared_handle() {
    let handle = handle("cross-attach");
    let mut names = Names::new();
    let (creator, mem) = names.create(&handle, 4, 128, false).expect("create");
    let claimed = creator.load_tail(&mem.borrow());
    creator.store_tail(&mut mem.borrow_mut(), claimed + 1);
    let slot_index = (claimed % creator.slot_count() as u64) as u32;
    let msg = b"hello attacher";
    creator.write_slot_payload(&mut mem.borrow_mut(), slot_index, msg);
    creator
        .write_slot_metadata(&mut mem.borrow_mut(), slot_index, msg.len() as u32, 0)
        .unwrap();
    creator.store_sequence(&mut mem.borrow_mut(), slot_index, claimed);
    creator.store_ready(&mut mem.borrow_mut(), slot_index, 1);

    let (attacher, seen) = names.attach(&handle, 4, 128).expect("attach");
    assert_eq!(attacher.load_tail(&seen.borrow()), 1, "attacher sees claimed slot");
    let ready = attacher.load_ready(&seen.borrow(), slot_index);
    assert_eq!(ready, 1);
    let (length, _) = attacher.read_slot_metadata(&seen.borrow(), slot_index).unwrap();
    assert_eq!(length, msg.len() as u32);
    assert_eq!(attacher.read_message(&seen.borrow(), slot_index), msg);
}

#[test]
fn channel_errors_in_words() {
    let e = TesseraChannelError::Config("slot_count must be > 0".to_string());
    assert_eq!(e.message(), "invalid Channel config: slot_count must be > 0");
    let e = TesseraChannelError::ChannelFull { slot_count: 3 };
    assert!(e.message().contains("slot_count == 3"), "got: {}", e.message());
}
