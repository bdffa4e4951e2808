//! Tests of the pool.
use std::cell::RefCell;
use std::collections::HashMap;
use std::rc::Rc;

use tessera::lifecycle::{CreateStep, MapOutcome, UnlinkStep, ENOENT};
use tessera::pool::header::{
    payload_area_offset, region_size_bytes, slot_meta_offset, slot_payload_offset,
    slot_table_offset, Header, SlotMeta, FORMAT_VERSION, MAGIC,
};
use tessera::pool::pool::{
    check_read, fallback_lease_id_bytes, judge_read, validate_descriptor, validate_lease,
};
use tessera::pool::region::Region;
use tessera::pool::{
    flags, Descriptor, Lease, LeaseId, NamespaceHandle, OpenPlan, Pool, PoolConfig,
    TesseraPoolError,
};

const EPOCH: u64 = 1_700_000_000_000_000;

/// Named segments, as a system keeps them.
struct Names {
    table: HashMap<String, Rc<RefCell<Vec<u8>>>>,
}

impl Names {
    fn new() -> Names {
        Names { table: HashMap::new() }
    }

    fn create(
        &mut self,
        handle: &NamespaceHandle,
        count: u32,
        size: u32,
        ttl_micros: u64,
        force: bool,
    ) -> Result<(Region, Rc<RefCell<Vec<u8>>>), TesseraPoolError> {
        let len = Region::plan_create(count, size)?;
        let mem = self.map(handle, len, force)?;
        let region =
            Region::create(&mut mem.borrow_mut(), handle, count, size, ttl_micros, EPOCH)?;
        Ok((region, mem))
    }

    fn map(
        &mut self,
        handle: &NamespaceHandle,
        len: usize,
        force: bool,
    ) -> Result<Rc<RefCell<Vec<u8>>>, TesseraPoolError> {
        let name = handle.shm_name();
        let mut retried = false;
        loop {
            let outcome = if self.table.contains_key(&name) {
                MapOutcome::Exists("mapping exists".to_string())
            } else {
                MapOutcome::Mapped
            };
            match Region::create_step(handle, outcome, retried, force)? {
                CreateStep::Stamp => {
                    let mem = Rc::new(RefCell::new(vec![0u8; len]));
                    self.table.insert(name, mem.clone());
                    return Ok(mem);
                }
                CreateStep::UnlinkAndRetry => {
                    self.table.remove(&name);
                    retried = true;
                }
            }
        }
    }

    fn attach(
        &self,
        handle: &NamespaceHandle,
        count: u32,
        size: u32,
    ) -> Result<(Region, Rc<RefCell<Vec<u8>>>), TesseraPoolError> {
        match self.table.get(&handle.shm_name()) {
            Some(mem) => {
                let region = Region::attach(&mem.borrow(), handle, count, size)?;
                Ok((region, mem.clone()))
            }
            None => Err(TesseraPoolError::Region("no such segment".to_string())),
        }
    }

    fn unlink(&mut self, region: &mut Region) -> Result<(), TesseraPoolError> {
        match region.unlink()? {
            UnlinkStep::Done => Ok(()),
            UnlinkStep::Call => {
                if self.table.remove(region.shm_name()).is_some() {
                    region.finish_unlink(0, None, "")
                } else {
                    region.finish_unlink(-1, Some(ENOENT), "no such file")
                }
            }
        }
    }

    fn drop_region(&mut self, region: Region) {
        if region.unlinks_on_drop() {
            self.table.remove(region.shm_name());
        }
    }

    fn open(&mut self, config: PoolConfig) -> Result<(Pool, Rc<RefCell<Vec<u8>>>), TesseraPoolError> {
        let handle = NamespaceHandle::derive(&config.description);
        let mem = match config.plan()? {
            OpenPlan::Create { name, size } => {
                assert_eq!(name, handle.shm_name());
                self.map(&handle, size, config.force_recreate)?
            }
            OpenPlan::Attach { name } => self.table.get(&name).expect("segment").clone(),
        };
        let pool = Pool::new(config, &mut mem.borrow_mut(), EPOCH)?;
        Ok((pool, mem))
    }
}

/// A pool with its mapping, a clock and a source of identifiers.
struct Rig {
    pool: Pool,
    mem: Rc<RefCell<Vec<u8>>>,
    now: u64,
    drawn: u8,
}

impl Rig {
    fn new(config: PoolConfig) -> Rig {
        let (pool, mem) = Names::new().open(config).expect("new");
        Rig { pool, mem, now: 1_000, drawn: 0 }
    }

    fn acquire(&mut self) -> Result<Lease, TesseraPoolError> {
        self.drawn += 1;
        match self.pool.acquire(&mut self.mem.borrow_mut(), [self.drawn; 16], self.now, true, 50_000)? {
            Some(lease) => Ok(lease),
            None => panic!("past the deadline there is no more waiting"),
        }
    }

    fn write(&self, lease: &Lease, payload: &[u8]) -> Result<Descriptor, TesseraPoolError> {
        self.pool.write(&mut self.mem.borrow_mut(), lease, payload)
    }

    fn read(&self, d: &Descriptor) -> Result<Vec<u8>, TesseraPoolError> {
        self.pool.read_payload(&self.mem.borrow(), d)
    }

    fn release(&mut self, lease: &Lease) -> Result<(), TesseraPoolError> {
        self.pool.release(&mut self.mem.borrow_mut(), lease)
    }

    fn renew(&self, lease: &Lease) -> Result<(), TesseraPoolError> {
        self.pool.renew(&mut self.mem.borrow_mut(), lease, self.now)
    }

    fn reclaim(&mut self) -> Result<u32, TesseraPoolError> {
        self.pool.reclaim_stale(&mut self.mem.borrow_mut(), self.now)
    }

    fn in_use(&self) -> u32 {
        self.pool.in_use_count(&self.mem.borrow()).expect("in_use")
    }
}

fn owner_config(tag: &str, slot_count: u32, slot_size: u32) -> PoolConfig {
    PoolConfig {
        description: format!("tessera-pool-test/{tag}"),
        slot_count,
        slot_size_bytes: slot_size,
        is_owner: true,
        ttl_micros: 60_000_000,
        force_recreate: false,
    }
}

fn handle(tag: &str) -> NamespaceHandle {
    NamespaceHandle::derive(&format!("tessera-pool-test/{tag}"))
}

// --- the handle -----------------------------------------------------

#[test]
fn owner_can_acquire_and_release() {
    let mut rig = Rig::new(owner_config("acquire-release", 4, 256));
    assert_eq!(rig.in_use(), 0);

    let lease1 = rig.acquire().expect("acquire 1");
    let lease2 = rig.acquire().expect("acquire 2");
    assert_eq!(rig.in_use(), 2);
    assert_ne!(lease1.slot_index(), lease2.slot_index());
    assert_ne!(lease1.lease_id(), lease2.lease_id());

    rig.release(&lease1).expect("release 1");
    assert_eq!(rig.in_use(), 1);
    rig.release(&lease2).expect("release 2");
    assert_eq!(rig.in_use(), 0);
}

#[test]
fn acquire_exhausts_then_times_out() {
    let mut rig = Rig::new(owner_config("exhaust", 2, 128));
    let _l1 = rig.acquire().expect("l1");
    let _l2 = rig.acquire().expect("l2");
    let waiting = rig.pool.acquire(&mut rig.mem.borrow_mut(), [9; 16], rig.now, false, 50_000);
    assert!(matches!(waiting, Ok(None)));
    let err = rig.acquire().unwrap_err();
    match err {
        TesseraPoolError::Timeout { timeout_micros } => assert_eq!(timeout_micros, 50_000),
        other => panic!("expected Timeout, got {other:?}"),
    }
}

#[test]
fn release_returns_slot_to_free_list() {
    let mut rig = Rig::new(owner_config("release-returns", 1, 64));
    let lease_a = rig.acquire().expect("a");
    assert!(rig.acquire().is_err());
    rig.release(&lease_a).expect("release a");
    let lease_b = rig.acquire().expect("b");
    assert_eq!(lease_a.slot_index(), lease_b.slot_index());
    assert_ne!(lease_a.lease_id(), lease_b.lease_id());
    assert_ne!(lease_a.generation(), lease_b.generation());
}

#[test]
fn write_then_read_payload_via_descriptor() {
    let mut rig = Rig::new(owner_config("write-read", 2, 1024));
    let lease = rig.acquire().expect("acquire");
    let payload = b"hello tessera pool";
    let descriptor = rig.write(&lease, payload).expect("write");
    assert_eq!(descriptor.size_bytes(), payload.len() as u32);

    let read = rig.read(&descriptor).expect("read_payload");
    assert_eq!(read.as_slice(), payload);

    rig.release(&lease).expect("release");
}

#[test]
fn write_rejects_oversized_payload() {
    let mut rig = Rig::new(owner_config("oversized", 1, 16));
    let lease = rig.acquire().expect("acquire");
    let big_payload = vec![0u8; 32];
    let err = rig.write(&lease, &big_payload).unwrap_err();
    match err {
        TesseraPoolError::OversizedPayload { payload_size, slot_size } => {
            assert_eq!(payload_size, 32);
            assert_eq!(slot_size, 16);
        }
        other => panic!("expected OversizedPayload, got {other:?}"),
    }
}

#[test]
fn double_write_on_same_lease_is_rejected() {
    let mut rig = Rig::new(owner_config("double-write", 1, 64));
    let lease = rig.acquire().expect("acquire");
    rig.write(&lease, b"first").expect("first write");
    let err = rig.write(&lease, b"second").unwrap_err();
    match err {
        TesseraPoolError::WriteAfterFinalize { .. } => {}
        other => panic!("expected WriteAfterFinalize, got {other:?}"),
    }
}

#[test]
fn reclaim_stale_bumps_generation_and_invalidates_descriptor() {
    let mut config = owner_config("reclaim-stale", 1, 64);
    config.ttl_micros = 1;
    let mut rig = Rig::new(config);
    let lease = rig.acquire().expect("acquire");
    let descriptor = rig.write(&lease, b"abc").expect("write");

    rig.now += 5_000;
    let reclaimed = rig.reclaim().expect("reclaim");
    assert_eq!(reclaimed, 1);
    assert_eq!(rig.in_use(), 0);

    let err = rig.read(&descriptor).unwrap_err();
    match err {
        TesseraPoolError::StaleHandle { .. } => {}
        other => panic!("expected StaleHandle, got {other:?}"),
    }

    let err = rig.release(&lease).unwrap_err();
    match err {
        TesseraPoolError::StaleHandle { .. } => {}
        other => panic!("expected StaleHandle, got {other:?}"),
    }
}

#[test]
fn renew_keeps_lease_alive_through_reclaim_sweep() {
    let mut config = owner_config("renew", 1, 64);
    config.ttl_micros = 50_000;
    let mut rig = Rig::new(config);
    let lease = rig.acquire().expect("acquire");

    rig.now += 30_000;
    rig.renew(&lease).expect("renew");
    rig.now += 30_000;
    let reclaimed = rig.reclaim().expect("reclaim");
    assert_eq!(reclaimed, 0);
    assert_eq!(rig.in_use(), 1);

    rig.release(&lease).expect("release");
}

#[test]
fn non_owner_cannot_acquire_release_write_renew_reclaim() {
    let config = owner_config("non-owner-rejected", 2, 128);
    let mut names = Names::new();
    let (mut owner, mem) = names.open(config.clone()).expect("new owner");

    let attacher_config = PoolConfig { is_owner: false, ..config.clone() };
    let (mut attacher, _) = names.open(attacher_config).expect("new attacher");

    assert!(!attacher.is_owner());
    assert_eq!(attacher.ttl_micros(), config.ttl_micros);

    let mem = &mut *mem.borrow_mut();
    let err = attacher.acquire(mem, [1; 16], 0, false, 10_000).unwrap_err();
    assert!(matches!(err, TesseraPoolError::OwnerOnly));

    let lease = owner.acquire(mem, [2; 16], 0, false, 1_000_000).expect("owner acquire").expect("free");
    let descriptor = owner.write(mem, &lease, b"shared").expect("owner write");
    let read = attacher.read_payload(mem, &descriptor).expect("attacher read");
    assert_eq!(read.as_slice(), b"shared");

    assert!(matches!(attacher.write(mem, &lease, b"x"), Err(TesseraPoolError::OwnerOnly)));
    assert!(matches!(attacher.release(mem, &lease), Err(TesseraPoolError::OwnerOnly)));
    assert!(matches!(attacher.renew(mem, &lease, 0), Err(TesseraPoolError::OwnerOnly)));
    assert!(matches!(attacher.reclaim_stale(mem, 0), Err(TesseraPoolError::OwnerOnly)));

    owner.release(mem, &lease).expect("owner release");
}

#[test]
fn concurrent_create_with_live_owner_refuses_to_clobber() {
    let config = owner_config("concurrent-create", 2, 256);
    let mut names = Names::new();
    let _alive_owner = names.open(config.clone()).expect("first owner");
    let err = names.open(config.clone()).unwrap_err();
    match err {
        TesseraPoolError::Region(msg) => {
            assert!(
                msg.contains("already exists") || msg.contains("Refusing to clobber"),
                "expected refuse-to-clobber error, got: {msg}"
            );
        }
        other => panic!("expected Region error, got {other:?}"),
    }
}

#[test]
fn force_recreate_unlinks_and_takes_over() {
    let config = owner_config("force-recreate", 2, 256);
    let mut names = Names::new();
    let first = names.open(config.clone()).expect("first owner");
    drop(first);
    let recovery_config = PoolConfig { force_recreate: true, ..config.clone() };
    let (recovered, _) = names.open(recovery_config).expect("recover with force_recreate");
    assert!(recovered.is_owner());
}

#[test]
fn read_payload_rejects_descriptor_with_mismatched_size() {
    let mut rig = Rig::new(owner_config("size-mismatch", 1, 1024));
    let lease = rig.acquire().expect("acquire");
    let descriptor = rig.write(&lease, b"hello").expect("write");

    let oversized_descriptor = Descriptor::new(
        descriptor.slot_index(),
        descriptor.lease_id(),
        descriptor.generation(),
        999,
    );
    let err = rig.read(&oversized_descriptor).unwrap_err();
    match err {
        TesseraPoolError::Region(msg) => {
            assert!(
                msg.contains("does not match") || msg.contains("payload_len"),
                "expected size-mismatch error, got: {msg}"
            );
        }
        other => panic!("expected Region error, got {other:?}"),
    }

    let truncated_descriptor = Descriptor::new(
        descriptor.slot_index(),
        descriptor.lease_id(),
        descriptor.generation(),
        2,
    );
    let err = rig.read(&truncated_descriptor).unwrap_err();
    assert!(matches!(err, TesseraPoolError::Region(_)));

    let bytes = rig.read(&descriptor).expect("legit read");
    assert_eq!(bytes.as_slice(), b"hello");

    rig.release(&lease).expect("release");
}

#[test]
fn read_payload_rejects_out_of_range_slot_index() {
    let rig = Rig::new(owner_config("oob-slot", 2, 64));
    let bogus = Descriptor::new(99, LeaseId::from_bytes([0; 16]), 0, 1);
    let err = rig.read(&bogus).unwrap_err();
    assert!(matches!(err, TesseraPoolError::Region(_)));
}

#[test]
fn descriptor_validates_against_current_generation() {
    let mut rig = Rig::new(owner_config("descriptor-gen", 1, 64));
    let lease_a = rig.acquire().expect("a");
    let descriptor_a = rig.write(&lease_a, b"alpha").expect("write a");
    rig.release(&lease_a).expect("release a");

    let lease_b = rig.acquire().expect("b");
    assert_eq!(lease_a.slot_index(), lease_b.slot_index());
    assert_ne!(lease_a.generation(), lease_b.generation());

    let err = rig.read(&descriptor_a).unwrap_err();
    assert!(matches!(err, TesseraPoolError::StaleHandle { .. }));

    rig.release(&lease_b).expect("release b");
}

#[test]
fn slots_are_handed_out_in_turn() {
    let mut rig = Rig::new(owner_config("turn", 3, 16));
    let a = rig.acquire().expect("a");
    let b = rig.acquire().expect("b");
    rig.release(&a).expect("release a");
    let c = rig.acquire().expect("c");
    let d = rig.acquire().expect("d");
    assert_eq!([a.slot_index(), b.slot_index(), c.slot_index(), d.slot_index()], [0, 1, 2, 0]);
}

#[test]
fn a_lease_of_its_whole_time_is_not_stale_yet() {
    let mut config = owner_config("ttl-edge", 2, 16);
    config.ttl_micros = 100;
    let mut rig = Rig::new(config);
    let lease = rig.acquire().expect("acquire");
    rig.now += 100;
    assert_eq!(rig.reclaim().expect("reclaim"), 0);
    rig.now += 1;
    assert_eq!(rig.reclaim().expect("reclaim"), 1);
    assert!(matches!(rig.renew(&lease), Err(TesseraPoolError::StaleHandle { .. })));
}

#[test]
fn a_slot_in_use_elsewhere_is_untouched() {
    let mut rig = Rig::new(owner_config("others", 2, 16));
    let a = rig.acquire().expect("a");
    let b = rig.acquire().expect("b");
    let da = rig.write(&a, b"aaaa").expect("write a");
    let db = rig.write(&b, b"bbbb").expect("write b");
    rig.release(&a).expect("release a");
    assert!(rig.read(&da).is_err());
    assert_eq!(rig.read(&db).expect("read b"), b"bbbb");
}

/// Handles from all over a long history: each reads what was written under
/// it, or nothing, and once it reads nothing it never reads again.
#[test]
fn descriptors_read_their_payload_or_nothing() {
    let mut config = owner_config("history", 3, 8);
    config.ttl_micros = 40;
    let mut rig = Rig::new(config);
    let mut state = 12345u32;
    let mut draw = |n: u32| {
        state = state.wrapping_mul(1_664_525).wrapping_add(1_013_904_223);
        (state >> 16) % n
    };
    let mut leases: Vec<Lease> = vec![];
    let mut written: Vec<(Descriptor, Vec<u8>, bool)> = vec![];
    for round in 0..200u32 {
        rig.now += 1 + draw(5) as u64;
        match draw(6) {
            0 | 5 => leases.extend(rig.acquire()),
            1 if !leases.is_empty() => {
                let lease = leases[leases.len() - 1];
                let payload = round.to_le_bytes().to_vec();
                if let Ok(d) = rig.write(&lease, &payload) {
                    written.push((d, payload, true));
                }
            }
            2 if !leases.is_empty() => {
                let _ = rig.release(&leases[draw(leases.len() as u32) as usize]);
            }
            3 if !leases.is_empty() => {
                let _ = rig.renew(&leases[draw(leases.len() as u32) as usize]);
            }
            _ => {
                rig.reclaim().expect("reclaim");
            }
        }
        for (d, payload, alive) in written.iter_mut() {
            match rig.read(d) {
                Ok(bytes) => {
                    assert!(*alive);
                    assert_eq!(&bytes, payload);
                }
                Err(_) => *alive = false,
            }
        }
        assert!(rig.in_use() <= 3);
    }
    assert!(written.iter().any(|w| !w.2));
    assert!(written.len() > 5);
}

#[test]
fn a_zero_ttl_is_refused() {
    let mut config = owner_config("zero-ttl", 2, 16);
    config.ttl_micros = 0;
    assert!(matches!(config.plan(), Err(TesseraPoolError::Config(_))));
}

#[test]
fn leases_and_descriptors_are_checked_against_the_slot() {
    let mut meta = SlotMeta::zeroed();
    let id = LeaseId::from_bytes([3; 16]);
    meta.lease_id_high = id.high();
    meta.lease_id_low = id.low();
    meta.generation = 4;
    meta.flags = flags::IN_USE;
    assert!(validate_lease(&Lease::new(0, id, 4), &meta).is_ok());
    assert!(validate_lease(&Lease::new(0, id, 3), &meta).is_err());
    assert!(validate_descriptor(&Descriptor::new(0, id, 4, 0), &meta).is_ok());
    let other = LeaseId::from_bytes([5; 16]);
    assert!(matches!(
        validate_descriptor(&Descriptor::new(7, other, 4, 0), &meta),
        Err(TesseraPoolError::StaleHandle { slot_index: 7, .. })
    ));
}

#[test]
fn a_slot_that_moves_on_during_the_copy_is_noticed() {
    let mut rig = Rig::new(owner_config("moves-on", 1, 64));
    let lease = rig.acquire().expect("acquire");
    let d = rig.write(&lease, b"alpha").expect("write");
    let before = rig.pool.slot_meta(&rig.mem.borrow(), &d).expect("before");
    assert!(check_read(&d, 64, &before).is_ok());
    assert_eq!(rig.pool.copy_payload(&rig.mem.borrow(), &d).expect("copy"), b"alpha");
    let after = rig.pool.slot_meta(&rig.mem.borrow(), &d).expect("after");
    assert!(judge_read(&d, 64, &before, &after).is_ok());
    // The owner gives the slot to another lease while a reader copies.
    rig.release(&lease).expect("release");
    let next = rig.acquire().expect("acquire again");
    rig.write(&next, b"omega").expect("write again");
    assert_eq!(rig.pool.copy_payload(&rig.mem.borrow(), &d).expect("copy"), b"omega");
    let later = rig.pool.slot_meta(&rig.mem.borrow(), &d).expect("later");
    match judge_read(&d, 64, &before, &later) {
        Err(TesseraPoolError::StaleHandle {
            slot_index,
            descriptor_generation,
            current_generation,
        }) => {
            assert_eq!(slot_index, 0);
            assert_eq!(descriptor_generation, lease.generation());
            assert_eq!(current_generation, next.generation());
        }
        other => panic!("expected StaleHandle, got {other:?}"),
    }
    assert!(matches!(
        judge_read(&d, 64, &later, &before),
        Err(TesseraPoolError::StaleHandle { .. })
    ));
    let longer = Descriptor::new(d.slot_index(), d.lease_id(), d.generation(), 6);
    assert!(matches!(
        judge_read(&longer, 64, &before, &before),
        Err(TesseraPoolError::Region(_))
    ));
    assert!(matches!(judge_read(&d, 4, &before, &before), Err(TesseraPoolError::Region(_))));
    let elsewhere = Descriptor::new(9, d.lease_id(), d.generation(), 5);
    assert!(rig.pool.slot_meta(&rig.mem.borrow(), &elsewhere).is_err());
    assert!(rig.pool.copy_payload(&rig.mem.borrow(), &elsewhere).is_err());
}

#[test]
fn a_released_lease_is_over_before_and_after_its_slot_is_leased_again() {
    let mut rig = Rig::new(owner_config("over", 2, 64));
    let kept = rig.acquire().expect("kept");
    let kept_d = rig.write(&kept, b"kept").expect("write");
    let lease = rig.acquire().expect("acquire");
    let d = rig.write(&lease, b"alpha").expect("write");
    assert_eq!(rig.in_use(), 2);
    rig.release(&lease).expect("release");
    assert_eq!(rig.in_use(), 1);
    for round in 0..2 {
        if round == 1 {
            let again = rig.acquire().expect("the slot is free again");
            assert_eq!(again.slot_index(), lease.slot_index());
            assert_eq!(again.generation(), lease.generation() + 1);
        }
        assert!(matches!(rig.release(&lease), Err(TesseraPoolError::StaleHandle { .. })));
        assert!(matches!(rig.renew(&lease), Err(TesseraPoolError::StaleHandle { .. })));
        assert!(matches!(rig.read(&d), Err(TesseraPoolError::StaleHandle { .. })));
        assert_eq!(rig.read(&kept_d).expect("untouched"), b"kept");
    }
}

#[test]
fn lease_ids_go_to_bytes_and_back() {
    let mut b = [0u8; 16];
    for (i, x) in b.iter_mut().enumerate() {
        *x = i as u8;
    }
    let id = LeaseId::from_bytes(b);
    assert_eq!(id.high(), 0x0706_0504_0302_0100);
    assert_eq!(id.low(), 0x0F0E_0D0C_0B0A_0908);
    assert_eq!(id.to_bytes(), b);
    assert_eq!(id.to_hex(), "000102030405060708090a0b0c0d0e0f");
    assert_ne!(fallback_lease_id_bytes(1), fallback_lease_id_bytes(2));
}

// --- headers --------------------------------------------------------

#[test]
fn header_header_size_matches_documented_layout() {
    assert_eq!(Header::SIZE, 128);
}

#[test]
fn slot_meta_size_matches_documented_layout() {
    assert_eq!(SlotMeta::SIZE, 72);
}

#[test]
fn header_magic_bytes_are_ascii_marker() {
    let bytes = MAGIC.to_le_bytes();
    assert_eq!(&bytes, b"TESPOOLv");
}

#[test]
fn header_header_round_trips_through_bytes() {
    let h = Header {
        magic: MAGIC,
        format_version: FORMAT_VERSION,
        _pad0: 0,
        epoch_micros: 1_700_000_000_000_000,
        slot_count: 8,
        slot_size_bytes: 64 * 1024 * 1024,
        ttl_micros: 60_000_000,
        handle_blake3: [0xAB; 32],
        _reserved: [0; 56],
    };
    let bytes = h.to_bytes();
    let round_tripped = Header::from_bytes(&bytes);
    assert_eq!(round_tripped.magic, MAGIC);
    assert_eq!(round_tripped.format_version, FORMAT_VERSION);
    assert_eq!(round_tripped.slot_count, 8);
    assert_eq!(round_tripped.slot_size_bytes, 64 * 1024 * 1024);
    assert_eq!(round_tripped.ttl_micros, 60_000_000);
    assert_eq!(round_tripped.handle_blake3, [0xAB; 32]);
}

#[test]
fn region_size_is_header_plus_slot_table_plus_payload() {
    let n = 4_u32;
    let slot_size = 1024_u32;
    let expected =
        Header::SIZE + (n as usize) * SlotMeta::SIZE + (n as usize) * (slot_size as usize);
    assert_eq!(region_size_bytes(n, slot_size), Some(expected));
    assert_eq!(expected, 4512);
}

#[test]
fn header_region_size_overflow_returns_none() {
    assert_eq!(region_size_bytes(u32::MAX, u32::MAX), None);
}

#[test]
fn header_slot_offsets_are_disjoint_and_in_order() {
    let n = 3_u32;
    let slot_size = 256_u32;
    assert_eq!(slot_table_offset(), Header::SIZE);
    assert_eq!(slot_meta_offset(0), Header::SIZE);
    assert_eq!(slot_meta_offset(1), Header::SIZE + SlotMeta::SIZE);
    assert_eq!(slot_meta_offset(2), Header::SIZE + SlotMeta::SIZE * 2);
    assert_eq!(payload_area_offset(n), Header::SIZE + (n as usize) * SlotMeta::SIZE);
    assert_eq!(slot_payload_offset(0, n, slot_size), payload_area_offset(n));
    assert_eq!(
        slot_payload_offset(1, n, slot_size),
        payload_area_offset(n) + slot_size as usize
    );
}

#[test]
fn slot_meta_flag_helpers_match_bit_definitions() {
    let mut meta = SlotMeta::zeroed();
    assert!(!meta.in_use());
    assert!(!meta.payload_finalized());
    meta.flags = flags::IN_USE;
    assert!(meta.in_use());
    assert!(!meta.payload_finalized());
    meta.flags = flags::IN_USE | flags::PAYLOAD_FINALIZED;
    assert!(meta.in_use());
    assert!(meta.payload_finalized());
}

// --- segments -------------------------------------------------------

#[test]
fn region_create_writes_valid_header() {
    let handle = handle("create-header");
    let (region, mem) =
        Names::new().create(&handle, 4, 1024, 60_000_000, false).expect("create");
    let h = region.read_header(&mem.borrow());
    assert_eq!(h.magic, MAGIC);
    assert_eq!(h.format_version, FORMAT_VERSION);
    assert_eq!(h.slot_count, 4);
    assert_eq!(h.slot_size_bytes, 1024);
    assert_eq!(h.ttl_micros, 60_000_000);
    assert_eq!(h.handle_blake3, handle.full_digest());
    assert!(h.epoch_micros > 0);
    assert!(region.is_owner());
}

#[test]
fn create_initializes_slot_table_to_zero() {
    let (region, mem) =
        Names::new().create(&handle("zero-slots"), 3, 256, 30_000_000, false).expect("create");
    for i in 0..3 {
        let meta = region.read_slot_meta(&mem.borrow(), i).expect("read");
        assert_eq!(meta.lease_id_high, 0);
        assert_eq!(meta.lease_id_low, 0);
        assert_eq!(meta.generation, 0);
        assert_eq!(meta.flags, 0);
        assert!(!meta.in_use());
    }
}

#[test]
fn region_attach_reads_creators_header() {
    let handle = handle("attach-roundtrip");
    let mut names = Names::new();
    let (creator, mem) = names.create(&handle, 2, 512, 45_000_000, false).expect("create");
    let (attacher, seen) = names.attach(&handle, 2, 512).expect("attach");
    assert!(!attacher.is_owner());
    assert_eq!(attacher.ttl_micros(&seen.borrow()), 45_000_000);
    assert_eq!(attacher.epoch_micros(&seen.borrow()), creator.epoch_micros(&mem.borrow()));
}

#[test]
fn region_attach_rejects_geometry_mismatch() {
    let handle = handle("geometry-mismatch");
    let mut names = Names::new();
    let _creator = names.create(&handle, 4, 1024, 60_000_000, false).expect("create");
    let err = names.attach(&handle, 8, 1024).unwrap_err();
    match err {
        TesseraPoolError::HeaderMismatch { expected_count, found_count, .. } => {
            assert_eq!(expected_count, 8);
            assert_eq!(found_count, 4);
        }
        other => panic!("expected HeaderMismatch, got {other:?}"),
    }
}

#[test]
fn attach_rejects_handle_mismatch() {
    let mut names = Names::new();
    let (_creator, mem) =
        names.create(&handle("handle-a"), 2, 256, 30_000_000, false).expect("create");
    let handle_b = handle("handle-b");
    let err = names.attach(&handle_b, 2, 256).unwrap_err();
    match err {
        TesseraPoolError::Region(_) => {}
        other => panic!("expected Region error, got {other:?}"),
    }
    let err = Region::attach(&mem.borrow(), &handle_b, 2, 256).unwrap_err();
    assert!(matches!(err, TesseraPoolError::Region(_)));
}

#[test]
fn write_then_read_slot_meta_roundtrips() {
    let (region, mem) =
        Names::new().create(&handle("meta-roundtrip"), 2, 256, 30_000_000, false).expect("create");
    let meta = SlotMeta {
        lease_id_high: 0x1122_3344_5566_7788,
        lease_id_low: 0x99AA_BBCC_DDEE_FF00,
        generation: 7,
        acquired_at_micros: 1_234_567_890,
        payload_len: 42,
        flags: flags::IN_USE | flags::PAYLOAD_FINALIZED,
        _reserved: [0; 32],
    };
    region.write_slot_meta(&mut mem.borrow_mut(), 1, meta).expect("write meta");
    let read = region.read_slot_meta(&mem.borrow(), 1).expect("read meta");
    assert_eq!(read.lease_id_high, 0x1122_3344_5566_7788);
    assert_eq!(read.lease_id_low, 0x99AA_BBCC_DDEE_FF00);
    assert_eq!(read.generation, 7);
    assert_eq!(read.acquired_at_micros, 1_234_567_890);
    assert_eq!(read.payload_len, 42);
    assert!(read.in_use());
    assert!(read.payload_finalized());
}

#[test]
fn write_then_read_slot_payload_roundtrips() {
    let (region, mem) = Names::new()
        .create(&handle("payload-roundtrip"), 2, 64, 30_000_000, false)
        .expect("create");
    let payload: Vec<u8> = (0..32).collect();
    region.write_slot_payload(&mut mem.borrow_mut(), 0, &payload).expect("write payload");
    let read = region.read_slot_payload(&mem.borrow(), 0, 32).expect("read");
    assert_eq!(read, payload);
    let other = region.read_slot_payload(&mem.borrow(), 1, 32).expect("read other");
    assert_eq!(other, vec![0u8; 32]);
}

#[test]
fn region_cross_process_attach_via_shared_handle() {
    let handle = handle("cross-attach");
    let mut names = Names::new();
    let (creator, mem) = names.create(&handle, 4, 128, 60_000_000, false).expect("create");
    creator.write_slot_payload(&mut mem.borrow_mut(), 2, b"hello attacher").expect("write");

    let (attacher, seen) = names.attach(&handle, 4, 128).expect("attach");
    let read = attacher
        .read_slot_payload(&seen.borrow(), 2, b"hello attacher".len() as u32)
        .expect("read");
    assert_eq!(read.as_slice(), b"hello attacher");
}

#[test]
fn unlink_removes_shm_name_for_owner() {
    let handle = handle("explicit-unlink");
    let mut names = Names::new();
    let (mut owner, _) = names.create(&handle, 4, 64, 60_000_000, false).expect("create");
    let _attacher = names.attach(&handle, 4, 64).expect("attach pre-unlink");
    names.unlink(&mut owner).expect("unlink");
    let post_attach = names.attach(&handle, 4, 64);
    assert!(post_attach.is_err(), "expected attach to fail after explicit unlink, got Ok");
    names.unlink(&mut owner).expect("second unlink");
}

#[test]
fn unlink_disables_drop_time_unlink_for_handoff_safety() {
    let handle = handle("handoff-no-clobber");
    let mut names = Names::new();
    let (mut owner_a, _) = names.create(&handle, 2, 64, 60_000_000, false).expect("A create");
    names.unlink(&mut owner_a).expect("A unlink");
    let _owner_b =
        names.create(&handle, 4, 128, 60_000_000, false).expect("B create after A unlink");
    names.drop_region(owner_a);
    let (attacher, _) = names.attach(&handle, 4, 128).expect("attach to B after A's drop");
    assert_eq!(attacher.slot_count(), 4);
    assert_eq!(attacher.slot_size_bytes(), 128);
}

#[test]
fn stale_owners_second_unlink_does_not_clobber_successor() {
    let handle = handle("stale-double-unlink");
    let mut names = Names::new();
    let (mut owner_a, _) = names.create(&handle, 2, 64, 60_000_000, false).expect("A create");
    names.unlink(&mut owner_a).expect("A first unlink");
    let _owner_b =
        names.create(&handle, 4, 128, 60_000_000, false).expect("B create after A unlink");
    names.unlink(&mut owner_a).expect("A second unlink should be a no-op");
    let (attacher, _) =
        names.attach(&handle, 4, 128).expect("attach B after A's stale 2nd unlink");
    assert_eq!(attacher.slot_count(), 4);
    assert_eq!(attacher.slot_size_bytes(), 128);
    names.drop_region(attacher);
    names.drop_region(owner_a);
    let _attacher2 = names.attach(&handle, 4, 128).expect("attach B after A's drop");
}

#[test]
fn unlink_rejects_attacher_calls() {
    let handle = handle("attacher-unlink-rejected");
    let mut names = Names::new();
    let _creator = names.create(&handle, 4, 64, 60_000_000, false).expect("create");
    let (mut attacher, _) = names.attach(&handle, 4, 64).expect("attach");
    let err = names.unlink(&mut attacher).unwrap_err();
    match err {
        TesseraPoolError::Region(msg) => {
            assert!(
                msg.contains("attacher") || msg.contains("Only the creator"),
                "expected attacher-rejection error, got: {msg}"
            );
        }
        other => panic!("expected Region error, got {other:?}"),
    }
}

#[test]
fn pool_errors_in_words() {
    let e = TesseraPoolError::StaleHandle {
        slot_index: 1,
        descriptor_generation: 2,
        current_generation: 3,
    };
    assert_eq!(
        e.message(),
        "stale handle for slot 1: descriptor generation 2 != current slot generation 3"
    );
    let e = TesseraPoolError::Timeout { timeout_micros: 9 };
    assert_eq!(e.message(), "Pool::acquire timed out after 9 micros; no slot became free");
}
