//! Tests of the sink.
use std::collections::HashMap;

use tessera::channel::{Channel, ChannelConfig, ChannelRole, TesseraChannelError};
use tessera::pool::{Descriptor, Lease, LeaseId, TesseraPoolError};
use tessera::sink::leases::LeaseTable;
use tessera::sink::messages::job_id_hex;
use tessera::sink::names::{ack, control, pool};
use tessera::sink::paths::temp_path_for;
use tessera::sink::sink::{
    check_control, control_send_failure, fallback_job_id, judge_exit, random_job_id, ExitStep,
    JobStatus, ProcessState, SubmitStep, CONTROL_SEND_TIMEOUT_MICROS,
};
use tessera::sink::run::{run_worker, RunEvent, RunPhase, RunStep, WorkerRun};
use tessera::sink::spawn::{
    build_worker_command, parse_u32, parse_worker_args, resolve_worker_bin, WorkerBin,
    ARG_WORKER_ID,
};
use tessera::sink::startup::{Phase, StartEvent, StartStep, Startup};
use tessera::sink::wire::{Reader, Writer};
use tessera::sink::worker::{
    ack_send_failure, fit_ack, judge_control, LoopStep, Worker, WorkerStep,
};
use tessera::sink::{AckMessage, ControlMessage, Sink, SinkConfig, TesseraSinkError, WorkerParams};

fn valid() -> SinkConfig {
    SinkConfig {
        description: "tessera-sink-test/cfg".into(),
        worker_count: 2,
        pool_slot_count: 8,
        pool_slot_size_bytes: 64 * 1024,
        ttl_micros: 60_000_000,
        acquire_timeout_micros: 5_000_000,
        control_slot_count: 64,
        control_slot_size_bytes: 4096,
        ack_slot_count: 256,
        ack_slot_size_bytes: 4096,
        worker_bin_path: None,
        force_recreate: false,
    }
}

fn lease(n: u8) -> Lease {
    Lease::new(n as u32, LeaseId::from_bytes([n; 16]), n as u64)
}

// --- configuration --------------------------------------------------

#[test]
fn valid_config_passes() {
    valid().validate().expect("valid config should pass");
}

#[test]
fn rejects_zero_workers() {
    let mut c = valid();
    c.worker_count = 0;
    assert!(matches!(c.validate(), Err(TesseraSinkError::Config(_))));
}

#[test]
fn rejects_unaligned_channel_slot() {
    let mut c = valid();
    c.control_slot_size_bytes = 4097;
    assert!(matches!(c.validate(), Err(TesseraSinkError::Config(_))));
}

#[test]
fn rejects_too_small_channel_slot() {
    let mut c = valid();
    c.ack_slot_size_bytes = 256;
    assert!(matches!(c.validate(), Err(TesseraSinkError::Config(_))));
}

#[test]
fn rejects_empty_description() {
    let mut c = valid();
    c.description = String::new();
    assert!(matches!(c.validate(), Err(TesseraSinkError::Config(_))));
}

#[test]
fn every_zero_in_the_configuration_is_refused() {
    let changes: Vec<fn(&mut SinkConfig)> = vec![
        |c| c.pool_slot_count = 0,
        |c| c.pool_slot_size_bytes = 0,
        |c| c.ttl_micros = 0,
        |c| c.control_slot_count = 0,
        |c| c.ack_slot_count = 0,
        |c| c.control_slot_size_bytes = 0,
        |c| c.ack_slot_size_bytes = 0,
    ];
    for change in changes {
        let mut c = valid();
        change(&mut c);
        assert!(matches!(c.validate(), Err(TesseraSinkError::Config(_))), "{c:?}");
        assert!(matches!(Sink::start(c), Err(TesseraSinkError::Config(_))));
    }
}

#[test]
fn segments_of_a_sink_follow_from_its_configuration() {
    let mut c = valid();
    c.force_recreate = true;
    assert_eq!(c.pool_config().description, "tessera-sink-test/cfg/pool");
    assert!(c.pool_config().is_owner);
    assert_eq!(c.ack_config().description, "tessera-sink-test/cfg/ack");
    assert_eq!(c.ack_config().slot_count, 256);
    assert_eq!(c.control_config(1).description, "tessera-sink-test/cfg/control/1");
    let p = c.worker_params(1);
    assert_eq!(p.worker_id, 1);
    assert!(p.force_recreate);
    assert!(!p.pool_config().is_owner);
    assert!(p.control_config().force_recreate);
    assert_eq!(p.ready_message(), AckMessage::WorkerReady { worker_id: 1 });
}

// --- messages -------------------------------------------------------

fn descriptor() -> Descriptor {
    Descriptor::new(7, LeaseId::from_bytes([0xAB; 16]), 42, 1234)
}

#[test]
fn control_chunk_descriptor_round_trips() {
    let msg = ControlMessage::ChunkDescriptor {
        job_id: 0x1122_3344_5566_7788_99AA_BBCC_DDEE_FF00,
        path: "/data/output/file.parquet".into(),
        chunk_index: 3,
        descriptor: descriptor(),
    };
    let bytes = msg.encode();
    assert_eq!(ControlMessage::decode(&bytes).unwrap(), msg);
}

#[test]
fn control_commit_round_trips() {
    let msg = ControlMessage::Commit {
        job_id: 9,
        path: "/tmp/x".into(),
        chunk_count: 5,
        expected_hash: [0x5A; 32],
        fsync: true,
    };
    let bytes = msg.encode();
    assert_eq!(ControlMessage::decode(&bytes).unwrap(), msg);
}

#[test]
fn control_cancel_round_trips() {
    let msg = ControlMessage::Cancel { job_id: u128::MAX };
    let bytes = msg.encode();
    assert_eq!(ControlMessage::decode(&bytes).unwrap(), msg);
}

#[test]
fn control_shutdown_round_trips() {
    let msg = ControlMessage::Shutdown;
    assert_eq!(ControlMessage::decode(&msg.encode()).unwrap(), msg);
}

#[test]
fn ack_chunk_ack_round_trips() {
    let msg = AckMessage::ChunkAck { job_id: 1, chunk_index: 0 };
    assert_eq!(AckMessage::decode(&msg.encode()).unwrap(), msg);
}

#[test]
fn ack_chunk_failed_round_trips() {
    let msg = AckMessage::ChunkFailed { job_id: 2, chunk_index: 1, error: "disk full".into() };
    assert_eq!(AckMessage::decode(&msg.encode()).unwrap(), msg);
}

#[test]
fn ack_job_complete_round_trips_both_states() {
    let ok = AckMessage::JobComplete {
        job_id: 3,
        success: true,
        path: "/done".into(),
        error: String::new(),
    };
    assert_eq!(AckMessage::decode(&ok.encode()).unwrap(), ok);

    let bad = AckMessage::JobComplete {
        job_id: 4,
        success: false,
        path: "/done".into(),
        error: "hash mismatch".into(),
    };
    assert_eq!(AckMessage::decode(&bad.encode()).unwrap(), bad);
}

#[test]
fn ack_cancel_ack_round_trips() {
    let msg = AckMessage::CancelAck { job_id: 123 };
    assert_eq!(AckMessage::decode(&msg.encode()).unwrap(), msg);
}

#[test]
fn ack_worker_ready_round_trips() {
    let msg = AckMessage::WorkerReady { worker_id: 5 };
    assert_eq!(AckMessage::decode(&msg.encode()).unwrap(), msg);
}

#[test]
fn decode_rejects_unknown_tag() {
    let err = ControlMessage::decode(&[250, 0, 0]).unwrap_err();
    assert!(matches!(err, TesseraSinkError::Protocol(_)));
}

#[test]
fn decode_rejects_truncated() {
    let full = ControlMessage::Cancel { job_id: 7 }.encode();
    let err = ControlMessage::decode(&full[..full.len() - 1]).unwrap_err();
    assert!(matches!(err, TesseraSinkError::Protocol(_)));
}

#[test]
fn decode_rejects_trailing_bytes() {
    let mut full = AckMessage::CancelAck { job_id: 7 }.encode();
    full.push(0xFF);
    let err = AckMessage::decode(&full).unwrap_err();
    assert!(matches!(err, TesseraSinkError::Protocol(_)));
}

#[test]
fn decode_rejects_empty() {
    assert!(matches!(ControlMessage::decode(&[]), Err(TesseraSinkError::Protocol(_))));
}

#[test]
fn descriptor_fields_survive_round_trip() {
    let msg = ControlMessage::ChunkDescriptor {
        job_id: 1,
        path: "p".into(),
        chunk_index: 99,
        descriptor: descriptor(),
    };
    match ControlMessage::decode(&msg.encode()).unwrap() {
        ControlMessage::ChunkDescriptor { descriptor: d, .. } => {
            assert_eq!(d.slot_index(), 7);
            assert_eq!(d.lease_id().to_bytes(), [0xAB; 16]);
            assert_eq!(d.generation(), 42);
            assert_eq!(d.size_bytes(), 1234);
        }
        other => panic!("wrong variant: {other:?}"),
    }
}

#[test]
fn messages_have_these_bytes() {
    let msg = AckMessage::ChunkFailed { job_id: 2, chunk_index: 1, error: "ä".into() };
    let mut expected = vec![17u8, 2];
    expected.extend([0; 15]);
    expected.extend([1, 0, 0, 0, 2, 0, 0, 0, 0xC3, 0xA4]);
    assert_eq!(msg.encode(), expected);
}

#[test]
fn words_that_are_no_utf8_are_refused() {
    let mut bytes = AckMessage::ChunkFailed { job_id: 2, chunk_index: 1, error: "ab".into() }.encode();
    let at = bytes.len() - 1;
    bytes[at] = 0xFF;
    match AckMessage::decode(&bytes) {
        Err(TesseraSinkError::Protocol(m)) => {
            let std_words = String::from_utf8(vec![b'a', 0xFF]).unwrap_err().to_string();
            assert!(m.contains(&std_words), "{m}");
        }
        other => panic!("expected Protocol, got {other:?}"),
    }
}

#[test]
fn any_byte_but_zero_is_true() {
    let mut w = Writer::new();
    w.put_bool(true);
    w.put_bool(false);
    w.put_u8(2);
    let b = w.into_inner();
    assert_eq!(b, vec![1, 0, 2]);
    let mut r = Reader::new(&b);
    assert_eq!(r.get_bool().unwrap(), true);
    assert_eq!(r.get_bool().unwrap(), false);
    assert_eq!(r.get_bool().unwrap(), true);
    assert!(matches!(r.get_bool(), Err(TesseraSinkError::Protocol(_))));
}

#[test]
fn job_ids_in_hexadecimal() {
    assert_eq!(job_id_hex(0xAB), "000000000000000000000000000000ab");
}

// --- names ----------------------------------------------------------

#[test]
fn derivations_are_distinct_and_stable() {
    let base = "app/artifacts";
    assert_eq!(pool(base), "app/artifacts/pool");
    assert_eq!(ack(base), "app/artifacts/ack");
    assert_eq!(control(base, 0), "app/artifacts/control/0");
    assert_eq!(control(base, 3), "app/artifacts/control/3");
    let all = [pool(base), ack(base), control(base, 0), control(base, 1)];
    for (i, a) in all.iter().enumerate() {
        for b in &all[i + 1..] {
            assert_ne!(a, b);
        }
    }
}

// --- arguments ------------------------------------------------------

fn params() -> WorkerParams {
    WorkerParams {
        pool_description: "certus/artifacts/pool".into(),
        control_description: "certus/artifacts/control/2".into(),
        ack_description: "certus/artifacts/ack".into(),
        pool_slot_count: 8,
        pool_slot_size_bytes: 65536,
        control_slot_count: 64,
        control_slot_size_bytes: 4096,
        ack_slot_count: 256,
        ack_slot_size_bytes: 2048,
        worker_id: 2,
        force_recreate: false,
    }
}

#[test]
fn argv_round_trips_through_command_and_parser() {
    for force_recreate in [false, true] {
        let mut p = params();
        p.force_recreate = force_recreate;
        let cmd = build_worker_command("/bin/tessera-sink-worker", &p);
        assert_eq!(cmd.program, "/bin/tessera-sink-worker");
        let parsed = parse_worker_args(&cmd.args).expect("parse");
        assert_eq!(parsed.pool_description, p.pool_description);
        assert_eq!(parsed.control_description, p.control_description);
        assert_eq!(parsed.ack_description, p.ack_description);
        assert_eq!(parsed.pool_slot_count, p.pool_slot_count);
        assert_eq!(parsed.pool_slot_size_bytes, p.pool_slot_size_bytes);
        assert_eq!(parsed.control_slot_count, p.control_slot_count);
        assert_eq!(parsed.control_slot_size_bytes, p.control_slot_size_bytes);
        assert_eq!(parsed.ack_slot_count, p.ack_slot_count);
        assert_eq!(parsed.ack_slot_size_bytes, p.ack_slot_size_bytes);
        assert_eq!(parsed.worker_id, p.worker_id);
        assert_eq!(parsed.force_recreate, p.force_recreate);
    }
}

#[test]
fn parse_rejects_missing_arg() {
    let err = parse_worker_args(&[ARG_WORKER_ID.to_string()]).unwrap_err();
    assert!(matches!(err, TesseraSinkError::Config(_)));
}

#[test]
fn parse_rejects_unknown_arg() {
    let err = parse_worker_args(&["--nope".to_string(), "1".to_string()]).unwrap_err();
    assert!(matches!(err, TesseraSinkError::Config(_)));
}

#[test]
fn parse_rejects_what_was_left_out() {
    let args = build_worker_command("w", &params()).args;
    for k in 0..args.len() / 2 {
        let mut fewer = args.clone();
        fewer.drain(2 * k..2 * k + 2);
        assert!(matches!(parse_worker_args(&fewer), Err(TesseraSinkError::Config(_))));
    }
}

#[test]
fn numbers_are_read_as_std_reads_them() {
    assert_eq!(parse_u32("--worker-id", "17").unwrap(), 17);
    assert_eq!(parse_u32("--worker-id", "+4294967295").unwrap(), u32::MAX);
    for bad in ["", "-1", "4294967296", "1x"] {
        match parse_u32("--worker-id", bad) {
            Err(TesseraSinkError::Config(m)) => {
                let std_words = bad.parse::<u32>().unwrap_err().to_string();
                assert!(m.contains(&std_words), "{m}");
            }
            other => panic!("expected Config, got {other:?}"),
        }
    }
}

#[test]
fn resolve_explicit_missing_path_errors() {
    let mut c = valid();
    c.worker_bin_path = Some("/nonexistent/tessera-sink-worker-xyz".to_string());
    let err = resolve_worker_bin(&c, false, None, None).unwrap_err();
    match err {
        TesseraSinkError::WorkerBinaryNotFound { tried } => {
            assert_eq!(tried, vec!["/nonexistent/tessera-sink-worker-xyz".to_string()]);
        }
        other => panic!("expected WorkerBinaryNotFound, got {other:?}"),
    }
}

#[test]
fn the_worker_executable_is_searched_in_order() {
    let mut c = valid();
    let choose = |c: &SinkConfig, x, e, s| resolve_worker_bin(c, x, e, s).unwrap();
    assert_eq!(choose(&c, false, Some(true), Some(true)), WorkerBin::Environment);
    assert_eq!(choose(&c, false, Some(false), Some(true)), WorkerBin::Sibling);
    assert_eq!(choose(&c, false, None, None), WorkerBin::OnPath);
    c.worker_bin_path = Some("/w".to_string());
    assert_eq!(choose(&c, true, Some(true), Some(true)), WorkerBin::Explicit);
}

// --- paths ----------------------------------------------------------

#[test]
fn temporary_files_lie_beside_their_targets() {
    let hex = job_id_hex(5);
    assert_eq!(temp_path_for("/data/a.bin", 5).unwrap(), format!("/data/.a.bin.{hex}.tmp"));
    assert_eq!(temp_path_for("a.bin", 5).unwrap(), format!(".a.bin.{hex}.tmp"));
    assert_eq!(temp_path_for("/a.bin/", 5).unwrap(), format!("/.a.bin.{hex}.tmp"));
    match temp_path_for("/data/..", 5) {
        Err(TesseraSinkError::Config(m)) => {
            assert_eq!(m, "target path \"/data/..\" has no file name component");
        }
        other => panic!("expected Config, got {other:?}"),
    }
    assert!(temp_path_for("/", 5).is_err());
    assert!(temp_path_for("", 5).is_err());
}

#[test]
fn paths_are_told_as_std_tells_them() {
    let odd = "a\t\"\u{e9}\u{1}/..";
    match temp_path_for(odd, 5) {
        Err(TesseraSinkError::Config(m)) => {
            let p = std::path::Path::new(odd);
            assert_eq!(m, format!("target path {p:?} has no file name component"));
        }
        other => panic!("expected Config, got {other:?}"),
    }
}

// --- the worker -----------------------------------------------------

/// Runs a worker on messages, with files in memory.
struct Disk {
    worker: Worker,
    files: HashMap<String, Vec<u8>>,
    fail_rename: bool,
}

impl Disk {
    fn new() -> Disk {
        Disk { worker: Worker::new(), files: HashMap::new(), fail_rename: false }
    }

    fn feed(&mut self, msg: ControlMessage, chunk: &[u8]) -> Option<AckMessage> {
        match self.worker.dispatch(msg) {
            WorkerStep::ReadChunk { job_id, path, chunk_index, .. } => {
                let step = match self.worker.begin_chunk(job_id, &path, chunk_index) {
                    Ok(WorkerStep::CreateFile { temp_path }) => {
                        self.files.insert(temp_path.clone(), vec![]);
                        let s = self.worker.file_created(job_id, &path, temp_path);
                        assert!(matches!(s, WorkerStep::WriteChunk));
                        self.write(job_id, &path, chunk_index, chunk)
                    }
                    Ok(WorkerStep::WriteChunk) => self.write(job_id, &path, chunk_index, chunk),
                    Ok(other) => panic!("unexpected {other:?}"),
                    Err(e) => self.worker.chunk_failed(job_id, chunk_index, &e),
                };
                self.answer(step)
            }
            WorkerStep::FinishFile { temp_path, final_path, .. } => {
                let step = if self.fail_rename {
                    Worker::commit_failed(1, final_path, temp_path, "no space".to_string())
                } else {
                    let bytes = self.files.remove(&temp_path).expect("temporary file");
                    self.files.insert(final_path.clone(), bytes);
                    Worker::commit_done(1, final_path)
                };
                self.answer(step)
            }
            step => self.answer(step),
        }
    }

    fn write(&mut self, job_id: u128, path: &str, chunk_index: u32, chunk: &[u8]) -> WorkerStep {
        let temp = temp_path_for(path, job_id).unwrap();
        self.files.get_mut(&temp).expect("temporary file").extend_from_slice(chunk);
        self.worker.chunk_written(job_id, chunk_index, chunk)
    }

    fn answer(&mut self, step: WorkerStep) -> Option<AckMessage> {
        match step {
            WorkerStep::Answer { remove, ack } => {
                if let Some(path) = remove {
                    self.files.remove(&path);
                }
                Some(ack)
            }
            WorkerStep::Nothing => None,
            other => panic!("unexpected {other:?}"),
        }
    }
}

fn chunk(chunk_index: u32) -> ControlMessage {
    ControlMessage::ChunkDescriptor {
        job_id: 1,
        path: "/out/f".into(),
        chunk_index,
        descriptor: descriptor(),
    }
}

fn commit(chunk_count: u32, payload: &[u8]) -> ControlMessage {
    ControlMessage::Commit {
        job_id: 1,
        path: "/out/f".into(),
        chunk_count,
        expected_hash: *blake3::hash(payload).as_bytes(),
        fsync: true,
    }
}

#[test]
fn a_worker_writes_checks_and_renames() {
    let mut d = Disk::new();
    assert_eq!(
        d.feed(chunk(0), b"hello "),
        Some(AckMessage::ChunkAck { job_id: 1, chunk_index: 0 })
    );
    assert_eq!(
        d.feed(chunk(1), b"sink"),
        Some(AckMessage::ChunkAck { job_id: 1, chunk_index: 1 })
    );
    assert_eq!(d.worker.next_chunk_index(1), Some(2));
    assert_eq!(
        d.feed(commit(2, b"hello sink"), b""),
        Some(AckMessage::JobComplete {
            job_id: 1,
            success: true,
            path: "/out/f".into(),
            error: String::new()
        })
    );
    assert_eq!(d.files.len(), 1);
    assert_eq!(d.files["/out/f"], b"hello sink");
    assert_eq!(d.worker.next_chunk_index(1), None);
}

fn refusal(ack: Option<AckMessage>) -> String {
    match ack {
        Some(AckMessage::JobComplete { success: false, error, .. }) => error,
        other => panic!("expected a refusal, got {other:?}"),
    }
}

#[test]
fn a_worker_refuses_what_was_not_declared() {
    let mut d = Disk::new();
    d.feed(chunk(0), b"abc");
    let words = refusal(d.feed(commit(2, b"abc"), b""));
    assert!(words.contains("expected 2") || words.contains("2"), "{words}");
    assert!(d.files.is_empty());

    d.feed(chunk(0), b"abc");
    let words = refusal(d.feed(commit(1, b"abd"), b""));
    let expected = blake3::hash(b"abd").to_hex().to_string();
    let actual = blake3::hash(b"abc").to_hex().to_string();
    assert!(words.contains(&expected) && words.contains(&actual), "{words}");
    assert!(d.files.is_empty());

    let words = refusal(d.feed(commit(1, b"abc"), b""));
    assert!(!words.is_empty());

    d.feed(chunk(0), b"abc");
    d.fail_rename = true;
    assert_eq!(refusal(d.feed(commit(1, b"abc"), b"")), "io error: no space");
    assert!(d.files.is_empty());
}

#[test]
fn a_chunk_out_of_order_ends_its_job() {
    let mut d = Disk::new();
    d.feed(chunk(0), b"a");
    match d.feed(chunk(2), b"c") {
        Some(AckMessage::ChunkFailed { job_id: 1, chunk_index: 2, error }) => {
            assert!(error.contains("expected chunk 1, got 2"), "{error}");
        }
        other => panic!("expected ChunkFailed, got {other:?}"),
    }
    assert!(d.files.is_empty());
    match d.feed(chunk(1), b"b") {
        Some(AckMessage::ChunkFailed { error, .. }) => {
            assert!(error.contains("first observed chunk has index 1"), "{error}");
        }
        other => panic!("expected ChunkFailed, got {other:?}"),
    }
}

#[test]
fn a_cancelled_job_leaves_nothing() {
    let mut d = Disk::new();
    d.feed(chunk(0), b"a");
    assert_eq!(
        d.feed(ControlMessage::Cancel { job_id: 1 }, b""),
        Some(AckMessage::CancelAck { job_id: 1 })
    );
    assert!(d.files.is_empty());
    assert_eq!(d.feed(ControlMessage::Shutdown, b""), None);
    d.feed(chunk(0), b"a");
    let temp = temp_path_for("/out/f", 1).unwrap();
    assert_eq!(d.worker.cleanup_all(), vec![temp]);
    assert_eq!(d.worker.cleanup_job(1), None);
}

#[test]
fn a_worker_goes_on_until_told_or_left() {
    let bytes = chunk(0).encode();
    assert!(matches!(judge_control(Ok(bytes), false), Ok(LoopStep::Dispatch(m)) if m == chunk(0)));
    let stop = ControlMessage::Shutdown.encode();
    assert!(matches!(judge_control(Ok(stop), false), Ok(LoopStep::Exit)));
    assert!(matches!(judge_control(Ok(vec![]), false), Err(TesseraSinkError::Protocol(_))));
    let late = || TesseraChannelError::Timeout { timeout_micros: 1, head: 0, tail: 0 };
    assert!(matches!(judge_control(Err(late()), false), Ok(LoopStep::Wait)));
    assert!(matches!(judge_control(Err(late()), true), Ok(LoopStep::Exit)));
    assert!(matches!(ack_send_failure(late()), TesseraSinkError::Timeout { .. }));
    let other = TesseraChannelError::Region("x".into());
    assert!(matches!(judge_control(Err(other), true), Err(TesseraSinkError::Channel(_))));
}

#[test]
fn an_answer_that_fits_is_sent_as_it_is() {
    let done = AckMessage::JobComplete {
        job_id: 9,
        success: true,
        path: "/out/f".into(),
        error: String::new(),
    };
    for ack in [
        done,
        AckMessage::WorkerReady { worker_id: 3 },
        AckMessage::ChunkAck { job_id: 9, chunk_index: 4 },
        AckMessage::ChunkFailed { job_id: 9, chunk_index: 4, error: "no".into() },
        AckMessage::CancelAck { job_id: 9 },
    ] {
        assert_eq!(fit_ack(ack.clone(), 512), ack);
    }
    // Up to the last byte.
    let full =
        AckMessage::ChunkFailed { job_id: 9, chunk_index: 4, error: "e".repeat(512 - 25) };
    assert_eq!(full.encode().len(), 512);
    assert_eq!(fit_ack(full.clone(), 512), full);
}

#[test]
fn a_long_answer_is_cut_in_whole_characters() {
    let long = AckMessage::ChunkFailed { job_id: 9, chunk_index: 4, error: "e".repeat(488) };
    assert_eq!(
        fit_ack(long, 512),
        AckMessage::ChunkFailed { job_id: 9, chunk_index: 4, error: "e".repeat(487) }
    );
    // 487 bytes hold 243 characters of two bytes.
    let wide = AckMessage::ChunkFailed { job_id: 9, chunk_index: 4, error: "\u{e9}".repeat(300) };
    assert_eq!(
        fit_ack(wide, 512),
        AckMessage::ChunkFailed { job_id: 9, chunk_index: 4, error: "\u{e9}".repeat(243) }
    );
    // The error comes first, the path gets what is left.
    let both = AckMessage::JobComplete {
        job_id: 9,
        success: false,
        path: "p".repeat(300),
        error: "e".repeat(400),
    };
    assert_eq!(
        fit_ack(both, 512),
        AckMessage::JobComplete {
            job_id: 9,
            success: false,
            path: "p".repeat(86),
            error: "e".repeat(400)
        }
    );
    let beyond = AckMessage::JobComplete {
        job_id: 9,
        success: false,
        path: "p".repeat(300),
        error: "e".repeat(600),
    };
    let fitted = fit_ack(beyond, 512);
    assert_eq!(fitted.encode().len(), 512);
    assert_eq!(AckMessage::decode(&fitted.encode()).unwrap(), fitted);
}

#[test]
fn a_failed_job_with_a_long_path_does_not_end_the_worker() {
    let config = |role| ChannelConfig {
        description: "tessera-sink-test/ack".into(),
        slot_count: 4,
        slot_size_bytes: 512,
        role,
        force_recreate: false,
    };
    let mut mem = vec![0u8; 4096];
    let owner = Channel::open(config(ChannelRole::Receiver), &mut mem, 1).expect("owner");
    let ack = Channel::open(config(ChannelRole::Sender), &mut mem, 1).expect("worker");
    let mut worker = Worker::new();
    let path = "/".to_string() + &"d".repeat(400);
    let step = worker.dispatch(ControlMessage::Commit {
        job_id: 5,
        path: path.clone(),
        chunk_count: 1,
        expected_hash: [0; 32],
        fsync: false,
    });
    let answer = match step {
        WorkerStep::Answer { remove: None, ack } => ack,
        other => panic!("expected an answer, got {other:?}"),
    };
    // As it is, the answer tells the path twice and is refused.
    assert!(matches!(
        ack.send_timeout(&mut mem, &answer.encode(), 7, 30_000_000, false),
        Err(TesseraChannelError::OversizedPayload { .. })
    ));
    let sent = fit_ack(answer, 512).encode();
    assert!(matches!(ack.send_timeout(&mut mem, &sent, 7, 30_000_000, false), Ok(true)));
    let got = owner.try_recv(&mut mem).expect("answer");
    match AckMessage::decode(&got).unwrap() {
        AckMessage::JobComplete { job_id, success, error, .. } => {
            assert_eq!(job_id, 5);
            assert!(!success);
            assert!(error.starts_with("job 00000000000000000000000000000005 for /ddd"));
        }
        other => panic!("unexpected {other:?}"),
    }
    // The worker goes on.
    let next = worker.dispatch(ControlMessage::Cancel { job_id: 5 });
    assert!(matches!(next, WorkerStep::Answer { ack: AckMessage::CancelAck { job_id: 5 }, .. }));
}

// --- the owner ------------------------------------------------------

#[test]
fn a_path_beyond_the_control_slot_is_refused_while_its_job_is_submitted() {
    let config = |role| ChannelConfig {
        description: "tessera-sink-test/control".into(),
        slot_count: 4,
        slot_size_bytes: 512,
        role,
        force_recreate: false,
    };
    let mut sink_config = small();
    sink_config.control_slot_size_bytes = 512;
    // (path length, length that does not fit: a chunk adds 57, a commit 58)
    for (len, chunk, commit) in
        [(454, None, None), (455, None, Some(513)), (456, Some(513), Some(514))]
    {
        let mut mem = vec![0u8; 4096];
        Channel::open(config(ChannelRole::Receiver), &mut mem, 1).expect("worker");
        let control = Channel::open(config(ChannelRole::Sender), &mut mem, 1).expect("owner");
        let mut sink = Sink::start(sink_config.clone()).expect("start");
        let mut s = sink.submit(4, &"p".repeat(len), b"x", false).expect("begun");
        assert_eq!(sink.job_status(4), Some(&JobStatus::Pending));
        let oversized = |r, size| match (r, size) {
            (Ok(true), None) => None,
            (Err(TesseraChannelError::OversizedPayload { payload_size, slot_size }), Some(n)) => {
                assert_eq!((payload_size, slot_size), (n, 512));
                Some(TesseraChannelError::OversizedPayload { payload_size, slot_size })
            }
            other => panic!("unexpected {other:?}"),
        };
        let first = sink.chunk_stored(&s, lease(1), descriptor()).encode();
        let sent = control.send_timeout(&mut mem, &first, 7, 30_000_000, false);
        let mut failed = oversized(sent, chunk);
        if failed.is_none() {
            s.chunk_sent();
            let last = match s.step() {
                SubmitStep::SendCommit(m) => m.encode(),
                other => panic!("expected the commit, got {other:?}"),
            };
            let sent = control.send_timeout(&mut mem, &last, 7, 30_000_000, false);
            failed = oversized(sent, commit);
        }
        if let Some(e) = failed {
            let e = control_send_failure(0, e);
            assert!(matches!(e, TesseraSinkError::Channel(_)));
            let (release, cancel) = sink.submit_failed(&s, &e);
            assert_eq!(release, vec![lease(1)]);
            assert_eq!(cancel, ControlMessage::Cancel { job_id: 4 });
            match sink.job_status(4) {
                Some(JobStatus::Failed(words)) => assert!(words.starts_with("submit failed: ")),
                other => panic!("expected a failure, got {other:?}"),
            }
            assert!(matches!(sink.flush(), Err(TesseraSinkError::JobFailed { .. })));
        }
    }
}

fn attached() -> (WorkerRun, RunStep) {
    let (mut run, step) = run_worker(params());
    match step {
        RunStep::AttachPool(c) => {
            assert_eq!(c.description, params().pool_description);
            assert!(!c.is_owner);
        }
        other => panic!("unexpected {other:?}"),
    }
    match run.observe(RunEvent::PoolAttached) {
        RunStep::CreateControl(c) => {
            assert_eq!(c.description, params().control_description);
            assert_eq!(c.role, ChannelRole::Receiver);
            assert_eq!(c.force_recreate, params().force_recreate);
        }
        other => panic!("unexpected {other:?}"),
    }
    match run.observe(RunEvent::ControlCreated) {
        RunStep::AttachAck(c) => {
            assert_eq!(c.description, params().ack_description);
            assert_eq!(c.role, ChannelRole::Sender);
        }
        other => panic!("unexpected {other:?}"),
    }
    let step = run.observe(RunEvent::AckAttached);
    (run, step)
}

fn received(message: &ControlMessage) -> RunEvent {
    RunEvent::Received { message: Ok(message.encode()), parent_is_gone: false }
}

#[test]
fn a_worker_is_ready_once_its_channels_are_there_and_cleans_up_before_it_ends() {
    let (mut run, step) = attached();
    match step {
        RunStep::SendReady(m) => {
            assert_eq!(m, AckMessage::WorkerReady { worker_id: params().worker_id });
        }
        other => panic!("unexpected {other:?}"),
    }
    assert_eq!(run.phase(), RunPhase::Announcing);
    assert!(matches!(run.observe(RunEvent::Sent), RunStep::Receive));
    let cancel = ControlMessage::Cancel { job_id: 3 };
    match run.observe(received(&cancel)) {
        RunStep::Dispatch(m) => assert_eq!(m, cancel),
        other => panic!("unexpected {other:?}"),
    }
    assert!(matches!(run.observe(RunEvent::Sent), RunStep::Receive));
    let idle = |parent_is_gone| RunEvent::Received {
        message: Err(TesseraChannelError::Timeout { timeout_micros: 1, head: 0, tail: 0 }),
        parent_is_gone,
    };
    assert!(matches!(run.observe(idle(false)), RunStep::Receive));
    assert!(matches!(run.observe(idle(true)), RunStep::CleanUp));
    assert!(matches!(run.observe(RunEvent::CleanedUp), RunStep::End));
    assert_eq!(run.phase(), RunPhase::Ended);
    let (mut run, _) = attached();
    run.observe(RunEvent::Sent);
    assert!(matches!(run.observe(received(&ControlMessage::Shutdown)), RunStep::CleanUp));
}

#[test]
fn a_worker_fails_with_what_it_cannot_recover_from() {
    let (mut run, _) = run_worker(params());
    assert!(matches!(
        run.observe(RunEvent::PoolFailed(TesseraPoolError::OwnerOnly)),
        RunStep::Fail(TesseraSinkError::Pool(TesseraPoolError::OwnerOnly))
    ));
    assert_eq!(run.phase(), RunPhase::Failed);
    let (mut run, _) = run_worker(params());
    run.observe(RunEvent::PoolAttached);
    let taken = TesseraChannelError::Region("taken".into());
    assert!(matches!(
        run.observe(RunEvent::ChannelFailed(taken)),
        RunStep::Fail(TesseraSinkError::Channel(_))
    ));
    let (mut run, _) = attached();
    let late = TesseraChannelError::Timeout { timeout_micros: 1, head: 0, tail: 0 };
    assert!(matches!(
        run.observe(RunEvent::SendFailed(late)),
        RunStep::Fail(TesseraSinkError::Timeout { timeout_micros: 30_000_000, .. })
    ));
    let (mut run, _) = attached();
    run.observe(RunEvent::Sent);
    let noise = RunEvent::Received { message: Ok(vec![99]), parent_is_gone: false };
    assert!(matches!(run.observe(noise), RunStep::Fail(TesseraSinkError::Protocol(_))));
}

fn small() -> SinkConfig {
    let mut c = valid();
    c.pool_slot_size_bytes = 4;
    c
}

#[test]
fn a_payload_is_cut_into_slots() {
    let mut sink = Sink::start(small()).expect("start");
    let mut s = sink.submit(7, "/out/f", b"0123456789", true).expect("submit");
    assert_eq!(s.job_id(), 7);
    assert_eq!(s.worker_id(), 1);
    assert_eq!(s.chunk_count(), 3);
    let mut cuts = vec![];
    loop {
        match s.step() {
            SubmitStep::SendChunk { chunk_index, from, to } => {
                cuts.push((chunk_index, from, to));
                let m = sink.chunk_stored(&s, lease(chunk_index as u8 + 1), descriptor());
                assert!(matches!(m, ControlMessage::ChunkDescriptor { .. }));
                s.chunk_sent();
            }
            SubmitStep::SendCommit(m) => {
                assert_eq!(
                    m,
                    ControlMessage::Commit {
                        job_id: 7,
                        path: "/out/f".into(),
                        chunk_count: 3,
                        expected_hash: *blake3::hash(b"0123456789").as_bytes(),
                        fsync: true
                    }
                );
                break;
            }
        }
    }
    assert_eq!(cuts, vec![(0, 0, 4), (1, 4, 8), (2, 8, 10)]);
    assert_eq!(sink.job_status(7), Some(&JobStatus::Pending));
    assert_eq!(sink.maybe_renew(30_000_000 - 1), None);
    assert_eq!(sink.maybe_renew(30_000_000).unwrap().len(), 3);
}

#[test]
fn an_empty_payload_is_one_empty_chunk() {
    let mut sink = Sink::start(small()).expect("start");
    let s = sink.submit(0, "/out/f", b"", false).expect("submit");
    assert_eq!(s.chunk_count(), 1);
    assert!(matches!(s.step(), SubmitStep::SendChunk { chunk_index: 0, from: 0, to: 0 }));
}

fn two_chunks(sink: &mut Sink, job_id: u128) {
    let mut s = sink.submit(job_id, "/out/f", b"abcdefgh", false).expect("submit");
    sink.chunk_stored(&s, lease(1), descriptor());
    s.chunk_sent();
    sink.chunk_stored(&s, lease(2), descriptor());
    s.chunk_sent();
}

#[test]
fn acknowledged_chunks_give_their_leases_back() {
    let mut sink = Sink::start(small()).expect("start");
    two_chunks(&mut sink, 3);
    let e = sink.handle_ack(AckMessage::ChunkAck { job_id: 3, chunk_index: 1 });
    assert_eq!(e.release, vec![lease(2)]);
    assert!(e.cancel.is_none());
    let again = sink.handle_ack(AckMessage::ChunkAck { job_id: 3, chunk_index: 1 });
    assert_eq!(again.release, vec![]);
    assert!(matches!(sink.flush(), Ok(false)));
    let done = AckMessage::JobComplete {
        job_id: 3,
        success: true,
        path: "/out/f".into(),
        error: String::new(),
    };
    let e = sink.drain_ack(Ok(done.encode())).expect("drain").expect("effect");
    assert_eq!(e.release, vec![]);
    assert_eq!(sink.job_status(3), Some(&JobStatus::Succeeded));
    assert!(matches!(sink.flush(), Ok(true)));
    assert_eq!(sink.job_status(3), None);
}

#[test]
fn a_failed_chunk_fails_and_cancels_its_job() {
    let mut sink = Sink::start(small()).expect("start");
    two_chunks(&mut sink, 3);
    let e = sink.handle_ack(AckMessage::ChunkFailed {
        job_id: 3,
        chunk_index: 0,
        error: "disk full".into(),
    });
    assert_eq!(e.release, vec![lease(1)]);
    assert_eq!(e.cancel, Some((1, ControlMessage::Cancel { job_id: 3 })));
    assert_eq!(
        sink.job_status(3),
        Some(&JobStatus::Failed("chunk 0 failed: disk full".to_string()))
    );
    let e = sink.handle_ack(AckMessage::CancelAck { job_id: 3 });
    assert_eq!(e.release, vec![lease(2)]);
    match sink.flush() {
        Err(e) => assert!(e.message().contains("chunk 0 failed: disk full"), "{}", e.message()),
        other => panic!("expected a failure, got {other:?}"),
    }
}

#[test]
fn jobs_of_a_dead_worker_fail() {
    let mut sink = Sink::start(small()).expect("start");
    two_chunks(&mut sink, 3);
    two_chunks(&mut sink, 4);
    let released = sink.worker_exited(1, "signal: 9 (SIGKILL)");
    assert_eq!(released.len(), 2);
    assert!(matches!(sink.job_status(3), Some(JobStatus::Failed(m)) if m.contains("SIGKILL")));
    assert_eq!(sink.job_status(4), Some(&JobStatus::Pending));
    assert_eq!(sink.maybe_renew(u64::MAX).unwrap().len(), 2);
}

#[test]
fn a_failed_submission_gives_all_back() {
    let mut sink = Sink::start(small()).expect("start");
    let mut s = sink.submit(3, "/out/f", b"abcdefgh", false).expect("submit");
    sink.chunk_stored(&s, lease(1), descriptor());
    s.chunk_sent();
    let (release, cancel) = sink.submit_failed(&s, &TesseraSinkError::Config("x".into()));
    assert_eq!(release, vec![lease(1)]);
    assert_eq!(cancel, ControlMessage::Cancel { job_id: 3 });
    assert!(matches!(
        sink.job_status(3),
        Some(JobStatus::Failed(m)) if m.starts_with("submit failed: ")
    ));
    let e = sink.handle_ack(AckMessage::CancelAck { job_id: 3 });
    assert_eq!(e.release, vec![]);
}

#[test]
fn a_closed_sink_takes_nothing() {
    let mut sink = Sink::start(small()).expect("start");
    assert!(!sink.is_closed());
    assert!(sink.close());
    assert!(!sink.close());
    assert!(sink.is_closed());
    assert!(matches!(sink.submit(1, "/f", b"", false), Err(TesseraSinkError::Closed)));
    assert!(matches!(sink.flush(), Err(TesseraSinkError::Closed)));
}

#[test]
fn what_the_ack_channel_gives_is_judged() {
    let mut sink = Sink::start(small()).expect("start");
    assert_eq!(sink.description(), "tessera-sink-test/cfg");
    assert_eq!(sink.worker_count(), 2);
    let empty = TesseraChannelError::ChannelEmpty { head: 0 };
    assert!(matches!(sink.drain_ack(Err(empty)), Ok(None)));
    let broken = TesseraChannelError::Region("x".into());
    assert!(matches!(sink.drain_ack(Err(broken)), Err(TesseraSinkError::Channel(_))));
    assert!(matches!(sink.drain_ack(Ok(vec![9])), Err(TesseraSinkError::Protocol(_))));
}

#[test]
fn waiting_for_a_slot_ends_at_the_deadline() {
    let sink = Sink::start(small()).expect("start");
    let late = || TesseraPoolError::Timeout { timeout_micros: 1 };
    assert!(matches!(sink.judge_acquire(Err(late()), false), Ok(None)));
    match sink.judge_acquire(Err(late()), true) {
        Err(TesseraSinkError::Timeout { timeout_micros, .. }) => {
            assert_eq!(timeout_micros, 5_000_000);
        }
        other => panic!("expected Timeout, got {other:?}"),
    }
    assert!(matches!(sink.judge_acquire(Ok(lease(1)), true), Ok(Some(l)) if l == lease(1)));
    let other = TesseraPoolError::OwnerOnly;
    assert!(matches!(sink.judge_acquire(Err(other), true), Err(TesseraSinkError::Pool(_))));
}

#[test]
fn sends_to_workers_are_judged() {
    assert!(check_control(1, 2).is_ok());
    assert!(matches!(check_control(2, 2), Err(TesseraSinkError::Config(_))));
    let late = TesseraChannelError::Timeout { timeout_micros: 1, head: 0, tail: 0 };
    match control_send_failure(4, late) {
        TesseraSinkError::Timeout { timeout_micros, context } => {
            assert_eq!(timeout_micros, CONTROL_SEND_TIMEOUT_MICROS);
            assert_eq!(context, "control send to worker 4 (not draining)");
        }
        other => panic!("expected Timeout, got {other:?}"),
    }
}

#[test]
fn workers_get_time_to_end() {
    assert_eq!(judge_exit(ProcessState::Running, false), ExitStep::Wait);
    assert_eq!(judge_exit(ProcessState::Running, true), ExitStep::Kill);
    assert_eq!(judge_exit(ProcessState::Exited, true), ExitStep::Done);
    assert_eq!(judge_exit(ProcessState::Unknown, false), ExitStep::Done);
}

#[test]
fn job_ids_without_chance() {
    assert_eq!(fallback_job_id(1, 2, 0x1_0000_0003), (1u128 << 64) | (2 << 32) | 3);
    assert_ne!(fallback_job_id(1, 2, 3), fallback_job_id(2, 2, 3));
    let mut b = [0u8; 16];
    b[15] = 1;
    b[0] = 7;
    assert_eq!(random_job_id(b), (1u128 << 120) | 7);
}

// --- leases ---------------------------------------------------------

#[test]
fn leases_are_found_by_job_and_chunk() {
    let mut t = LeaseTable::new();
    t.insert(1, 0, lease(1));
    t.insert(2, 0, lease(2));
    t.insert(1, 1, lease(3));
    t.insert(1, 0, lease(4));
    assert_eq!(t.leases().len(), 3);
    assert_eq!(t.take(1, 0), Some(lease(4)));
    assert_eq!(t.take(1, 0), None);
    assert_eq!(t.take_job(1), vec![lease(3)]);
    assert_eq!(t.leases(), vec![lease(2)]);
}

// --- bringing up workers --------------------------------------------

#[test]
fn workers_are_brought_up_in_order() {
    let (mut s, first) = Startup::new(&valid());
    assert!(matches!(first, StartStep::Spawn(0)));
    assert!(matches!(s.observe(StartEvent::Spawned), StartStep::Spawn(1)));
    assert!(matches!(s.observe(StartEvent::Spawned), StartStep::AwaitReady));
    let ready = |w| StartEvent::Acked(AckMessage::WorkerReady { worker_id: w }.encode());
    assert!(matches!(s.observe(ready(1)), StartStep::AwaitReady));
    assert!(matches!(s.observe(ready(1)), StartStep::AwaitReady));
    assert!(matches!(s.observe(ready(9)), StartStep::AwaitReady));
    assert_eq!(s.phase(), Phase::Waiting(1));
    assert!(matches!(s.observe(ready(0)), StartStep::Attach(0)));
    let retry = StartEvent::AttachFailed { exited: None, deadline_reached: false };
    assert!(matches!(s.observe(retry), StartStep::Attach(0)));
    assert!(matches!(s.observe(StartEvent::Attached), StartStep::Attach(1)));
    assert!(matches!(s.observe(StartEvent::Attached), StartStep::Done));
    assert_eq!(s.phase(), Phase::Started);
}

#[test]
fn a_worker_that_does_not_come_up_ends_all() {
    let (mut s, _) = Startup::new(&valid());
    match s.observe(StartEvent::SpawnFailed("no".into())) {
        StartStep::KillAll(TesseraSinkError::WorkerSpawn { worker_id: 0, message }) => {
            assert_eq!(message, "no");
        }
        other => panic!("unexpected {other:?}"),
    }

    let waiting = || {
        let (mut s, _) = Startup::new(&valid());
        s.observe(StartEvent::Spawned);
        s.observe(StartEvent::Spawned);
        s
    };
    let mut s = waiting();
    let e = StartEvent::NoAck { exited: Some((1, "exit status: 3".into())), deadline_reached: false };
    match s.observe(e) {
        StartStep::KillAll(TesseraSinkError::WorkerSpawn { worker_id: 1, message }) => {
            assert_eq!(message, "worker exited during startup: exit status: 3");
        }
        other => panic!("unexpected {other:?}"),
    }
    let mut s = waiting();
    let e = StartEvent::NoAck { exited: None, deadline_reached: true };
    match s.observe(e) {
        StartStep::KillAll(TesseraSinkError::Timeout { context, .. }) => {
            assert_eq!(context, "waiting for worker readiness (0 of 2 ready)");
        }
        other => panic!("unexpected {other:?}"),
    }
    assert_eq!(s.phase(), Phase::Failed);
}

#[test]
fn sink_errors_in_words() {
    let e = TesseraSinkError::ChunkTooLarge { chunk_size: 9, slot_size: 8 };
    assert_eq!(e.message(), "chunk size 9 exceeds pool slot capacity 8");
    assert_eq!(TesseraSinkError::Io("x".into()).message(), "io error: x");
}
