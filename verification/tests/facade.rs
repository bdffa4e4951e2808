//! Tests of what handles look like from outside, and of the text helpers.
use tessera::bytes::{bytes_eq, copy_out, push_le, read_u32, read_u64};
use tessera::channel::ChannelRole;
use tessera::digest::digest_of;
use tessera::facade::{
    channel_repr, check_section_entry, descriptor_from_bytes, descriptor_repr, event_repr,
    lease_from_bytes, lease_repr, parse_role, reader_repr, reader_stats_repr, ring_repr,
    role_name, sink_repr, slate_header_repr, slate_reader_repr, slate_repr, writer_repr,
    ReadResult, SlotRead,
};
use tessera::lifecycle::{CreateStep, MapOutcome};
use tessera::pool::{Descriptor, Lease, LeaseId};
use tessera::ring::{Event, ReaderStats};
use tessera::text::{push_dec, push_dec_int, push_hex, push_hex_fixed, same};

#[test]
fn role_names_are_lowered_letter_by_letter() {
    let words = parse_role("ABCDEFGHIJKLMNOPQRSTUVWXYZ@[\u{c9}\u{3a3}a1").unwrap_err();
    assert_eq!(
        words,
        format!(
            "invalid role {:?}: expected 'receiver' or 'sender'",
            "abcdefghijklmnopqrstuvwxyz@[\u{c9}\u{3a3}a1"
        )
    );
}

#[test]
fn roles_go_by_several_names() {
    for name in ["receiver", "RECV", "Consumer"] {
        assert_eq!(parse_role(name), Ok(ChannelRole::Receiver));
    }
    for name in ["sender", "Send", "PRODUCER"] {
        assert_eq!(parse_role(name), Ok(ChannelRole::Sender));
    }
    assert_eq!(
        parse_role("BO\"TH"),
        Err("invalid role \"bo\\\"th\": expected 'receiver' or 'sender'".to_string())
    );
    for role in [ChannelRole::Receiver, ChannelRole::Sender] {
        assert_eq!(parse_role(role_name(role)), Ok(role));
    }
}

#[test]
fn handles_are_rebuilt_from_their_parts() {
    let id: Vec<u8> = (0..16).collect();
    let l = lease_from_bytes(3, 9, &id).expect("lease");
    assert_eq!(l.lease_id().to_bytes().to_vec(), id);
    assert_eq!(lease_repr(&l), "Lease(slot_index=3, generation=9, lease_id=000102030405060708090a0b0c0d0e0f)");
    let d = descriptor_from_bytes(3, 9, &id, 77).expect("descriptor");
    assert_eq!(d, Descriptor::new(3, LeaseId::from_bytes([0, 1, 2, 3, 4, 5, 6, 7, 8, 9, 10, 11, 12, 13, 14, 15]), 9, 77));
    assert_eq!(
        descriptor_repr(&d),
        "Descriptor(slot_index=3, generation=9, size_bytes=77, lease_id=000102030405060708090a0b0c0d0e0f)"
    );
    for bad in [0usize, 15, 17] {
        assert_eq!(lease_from_bytes(0, 0, &vec![0; bad]).unwrap_err(), "lease_id_bytes must be 16 bytes");
        assert!(descriptor_from_bytes(0, 0, &vec![0; bad], 0).is_err());
    }
    assert_eq!(l, Lease::new(3, d.lease_id(), 9));
}

#[test]
fn section_entries_are_triples() {
    assert!(check_section_entry(0, Some(3)).is_ok());
    assert_eq!(
        check_section_entry(2, Some(4)).unwrap_err(),
        "sections[2] must be a 3-tuple, got len=4"
    );
    assert_eq!(
        check_section_entry(1, None).unwrap_err(),
        "sections[1] must be a 3-tuple (section_id, slot_count, slot_size_bytes)"
    );
}

#[test]
fn slot_reads_tell_three_states() {
    let e = SlotRead::from_result(ReadResult::Empty);
    assert!(e.is_empty() && !e.is_slot() && !e.is_torn());
    assert_eq!(e.repr(), "SlotRead(state=\"empty\", value_len=-1, sequence=0, timestamp_nanos=0)");
    let t = SlotRead::from_result(ReadResult::Torn);
    assert!(t.is_torn() && !t.is_empty());
    let s = SlotRead::from_result(ReadResult::Slot {
        bytes: vec![1, 2, 3],
        sequence: 4,
        timestamp_nanos: 5,
    });
    assert!(s.is_slot());
    assert_eq!(s.repr(), "SlotRead(state=\"slot\", value_len=3, sequence=4, timestamp_nanos=5)");
}

#[test]
fn handles_are_shown() {
    let e = Event { section_id: 1, position: 2, timestamp_nanos: 3, payload: vec![0; 4] };
    assert_eq!(event_repr(&e), "Event(section_id=1, position=2, timestamp_nanos=3, payload_len=4)");
    let s = ReaderStats { section_id: 1, cursor: 2, latest: 3, dropped: 4 };
    assert_eq!(reader_stats_repr(&s), "ReaderStats(section_id=1, cursor=2, latest=3, dropped=4)");
    assert_eq!(writer_repr(false), "Writer(open)");
    assert_eq!(reader_repr(1, 2, 3, true), "Reader(section_id=1, cursor=2, dropped=3, ring_state=closed)");
    assert_eq!(ring_repr(true, false), "Ring(is_owner=true, closed=false)");
    assert_eq!(
        channel_repr(ChannelRole::Sender, 4, 64, false),
        "Channel(role=\"sender\", slot_count=4, slot_size_bytes=64, closed=false)"
    );
    assert_eq!(sink_repr("a/b", 2, true), "Sink(description=\"a/b\", worker_count=2, closed=true)");
    assert_eq!(slate_header_repr(1, 2), "Header(writer_seq=1, last_update_ns=2)");
    assert_eq!(
        slate_repr(false, 4, 8, false),
        "Slate(is_owner=false, slot_count=4, slot_size_bytes=8, closed=false)"
    );
    assert_eq!(slate_reader_repr(4, 8, true), "SlateReader(slot_count=4, slot_size_bytes=8, closed=true)");
}

#[test]
fn numbers_in_words() {
    let mut s = String::new();
    push_dec(&mut s, u64::MAX);
    s.push(' ');
    push_dec(&mut s, 0);
    s.push(' ');
    push_dec_int(&mut s, i32::MIN);
    s.push(' ');
    push_hex(&mut s, 0xDEAD_BEEF);
    s.push(' ');
    push_hex_fixed(&mut s, 0x1F, 4);
    assert_eq!(s, "18446744073709551615 0 -2147483648 deadbeef 001f");
    assert!(same("ab", "ab") && !same("ab", "ac") && !same("ab", "abc"));
}

#[test]
fn numbers_in_bytes() {
    let mut b = vec![7u8];
    push_le(&mut b, 0x0102_0304, 4);
    push_le(&mut b, u64::MAX - 1, 8);
    assert_eq!(b[1..5], [4, 3, 2, 1]);
    assert_eq!(read_u32(&b, 1), 0x0102_0304);
    assert_eq!(read_u64(&b, 5), u64::MAX - 1);
    assert_eq!(copy_out(&b, 0, 2), vec![7, 4]);
    assert!(bytes_eq(&b, &b) && !bytes_eq(&b, &b[1..]));
}

#[test]
fn digests_are_blake3() {
    for input in [&b""[..], b"abc", &[9u8; 5000]] {
        assert_eq!(digest_of(input), *blake3::hash(input).as_bytes());
    }
}

#[test]
fn a_failed_creation_is_told() {
    let handle = tessera::pool::NamespaceHandle::derive("x");
    let failed = |retried| {
        tessera::pool::region::Region::create_step(
            &handle,
            MapOutcome::Failed("EPERM".to_string()),
            retried,
            true,
        )
    };
    assert!(failed(false).unwrap_err().message().contains("create: EPERM"));
    assert!(failed(true)
        .unwrap_err()
        .message()
        .contains("create after force_recreate unlink: EPERM"));
    let mapped = tessera::pool::region::Region::create_step(&handle, MapOutcome::Mapped, false, false);
    assert!(matches!(mapped, Ok(CreateStep::Stamp)));
}
