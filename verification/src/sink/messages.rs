//! Messages between the owner of a sink and its workers.
//!
//! A message is a tag byte and its fields, one after another, as
//! [`crate::sink::wire`] has them. Decoding refuses an unknown tag, a
//! message that ends in the middle of a field and one that goes on behind
//! the last.
use vstd::prelude::*;

use vstd::utf8;

use crate::bytes;
use crate::pool::Descriptor;
use crate::sink::error;
use crate::sink::error::{Result, TesseraSinkError};
use crate::sink::wire;
use crate::sink::wire::{Field, Reader, Writer};
use crate::text;

verus! {

/// Tag of [`ControlMessage::ChunkDescriptor`].
pub const TAG_CHUNK_DESCRIPTOR: u8 = 1;

/// Tag of [`ControlMessage::Commit`].
pub const TAG_COMMIT: u8 = 2;

/// Tag of [`ControlMessage::Cancel`].
pub const TAG_CANCEL: u8 = 3;

/// Tag of [`ControlMessage::Shutdown`].
pub const TAG_SHUTDOWN: u8 = 4;

/// Tag of [`AckMessage::ChunkAck`].
pub const TAG_CHUNK_ACK: u8 = 16;

/// Tag of [`AckMessage::ChunkFailed`].
pub const TAG_CHUNK_FAILED: u8 = 17;

/// Tag of [`AckMessage::CancelAck`].
pub const TAG_CANCEL_ACK: u8 = 18;

/// Tag of [`AckMessage::JobComplete`].
pub const TAG_JOB_COMPLETE: u8 = 19;

/// Tag of [`AckMessage::WorkerReady`].
pub const TAG_WORKER_READY: u8 = 20;

/// What the owner tells a worker.
#[derive(Clone, Debug, PartialEq, Eq)]
pub enum ControlMessage {
    /// Here is a chunk of a job.
    ChunkDescriptor {
        /// Job identifier.
        job_id: u128,
        /// Target path of the job.
        path: String,
        /// Index of the chunk in the job.
        chunk_index: u32,
        /// Where the chunk is in the pool.
        descriptor: Descriptor,
    },
    /// All chunks were sent: check them and put the file in place.
    Commit {
        /// Job identifier.
        job_id: u128,
        /// Target path of the job.
        path: String,
        /// Number of chunks of the job.
        chunk_count: u32,
        /// BLAKE3 digest of the whole payload.
        expected_hash: [u8; 32],
        /// Sync the file to disk before renaming it.
        fsync: bool,
    },
    /// Drop the job and its temporary file.
    Cancel {
        /// Job identifier.
        job_id: u128,
    },
    /// Clean up and end.
    Shutdown,
}

/// What a control message says.
pub enum ControlView {
    ChunkDescriptor { job_id: u128, path: Seq<char>, chunk_index: u32, descriptor: Descriptor },
    Commit {
        job_id: u128,
        path: Seq<char>,
        chunk_count: u32,
        expected_hash: Seq<u8>,
        fsync: bool,
    },
    Cancel { job_id: u128 },
    Shutdown,
}

impl View for ControlMessage {
    type V = ControlView;

    open spec fn view(&self) -> ControlView {
        match self {
            ControlMessage::ChunkDescriptor { job_id, path, chunk_index, descriptor } =>
                ControlView::ChunkDescriptor {
                job_id: *job_id,
                path: path@,
                chunk_index: *chunk_index,
                descriptor: *descriptor,
            },
            ControlMessage::Commit { job_id, path, chunk_count, expected_hash, fsync } =>
                ControlView::Commit {
                job_id: *job_id,
                path: path@,
                chunk_count: *chunk_count,
                expected_hash: expected_hash@,
                fsync: *fsync,
            },
            ControlMessage::Cancel { job_id } => ControlView::Cancel { job_id: *job_id },
            ControlMessage::Shutdown => ControlView::Shutdown,
        }
    }
}

/// What a worker tells the owner.
#[derive(Clone, Debug, PartialEq, Eq)]
pub enum AckMessage {
    /// The worker has its segments and takes messages.
    WorkerReady {
        /// Index of the worker.
        worker_id: u32,
    },
    /// A chunk was written; its lease can be released.
    ChunkAck {
        /// Job identifier.
        job_id: u128,
        /// Index of the chunk.
        chunk_index: u32,
    },
    /// A chunk could not be written.
    ChunkFailed {
        /// Job identifier.
        job_id: u128,
        /// Index of the chunk.
        chunk_index: u32,
        /// What went wrong.
        error: String,
    },
    /// The job was dropped as told.
    CancelAck {
        /// Job identifier.
        job_id: u128,
    },
    /// The job ended.
    JobComplete {
        /// Job identifier.
        job_id: u128,
        /// The file is in place.
        success: bool,
        /// Target path of the job.
        path: String,
        /// What went wrong; empty on success.
        error: String,
    },
}

/// What an ack message says.
pub enum AckView {
    WorkerReady { worker_id: u32 },
    ChunkAck { job_id: u128, chunk_index: u32 },
    ChunkFailed { job_id: u128, chunk_index: u32, error: Seq<char> },
    CancelAck { job_id: u128 },
    JobComplete { job_id: u128, success: bool, path: Seq<char>, error: Seq<char> },
}

impl View for AckMessage {
    type V = AckView;

    open spec fn view(&self) -> AckView {
        match self {
            AckMessage::WorkerReady { worker_id } => AckView::WorkerReady { worker_id: *worker_id },
            AckMessage::ChunkAck { job_id, chunk_index } => AckView::ChunkAck {
                job_id: *job_id,
                chunk_index: *chunk_index,
            },
            AckMessage::ChunkFailed { job_id, chunk_index, error } => AckView::ChunkFailed {
                job_id: *job_id,
                chunk_index: *chunk_index,
                error: error@,
            },
            AckMessage::CancelAck { job_id } => AckView::CancelAck { job_id: *job_id },
            AckMessage::JobComplete { job_id, success, path, error } => AckView::JobComplete {
                job_id: *job_id,
                success: *success,
                path: path@,
                error: error@,
            },
        }
    }
}

impl ControlView {
    /// The message on the wire.
    pub open spec fn bytes(self) -> Seq<u8> {
        match self {
            ControlView::ChunkDescriptor { job_id, path, chunk_index, descriptor } => seq![
                TAG_CHUNK_DESCRIPTOR,
            ] + wire::u128_bytes(job_id) + wire::str_bytes(path) + wire::u32_bytes(chunk_index)
                + wire::descriptor_bytes(descriptor),
            ControlView::Commit { job_id, path, chunk_count, expected_hash, fsync } => seq![
                TAG_COMMIT,
            ] + wire::u128_bytes(job_id) + wire::str_bytes(path) + wire::u32_bytes(chunk_count)
                + expected_hash + wire::bool_bytes(fsync),
            ControlView::Cancel { job_id } => seq![TAG_CANCEL] + wire::u128_bytes(job_id),
            ControlView::Shutdown => seq![TAG_SHUTDOWN],
        }
    }

    /// The parts of the message are such as a message can have, and the
    /// length of its string can be told on the wire.
    pub open spec fn fits(self) -> bool {
        &&& self.bytes().len() <= usize::MAX
        &&& match self {
            ControlView::ChunkDescriptor { job_id, path, chunk_index, descriptor } =>
                utf8::encode_utf8(path).len() <= u32::MAX,
            ControlView::Commit { job_id, path, chunk_count, expected_hash, fsync } =>
                utf8::encode_utf8(path).len() <= u32::MAX && expected_hash.len() == 32,
            _ => true,
        }
    }
}

impl AckView {
    /// The message on the wire.
    pub open spec fn bytes(self) -> Seq<u8> {
        match self {
            AckView::WorkerReady { worker_id } => seq![TAG_WORKER_READY] + wire::u32_bytes(
                worker_id,
            ),
            AckView::ChunkAck { job_id, chunk_index } => seq![TAG_CHUNK_ACK] + wire::u128_bytes(
                job_id,
            ) + wire::u32_bytes(chunk_index),
            AckView::ChunkFailed { job_id, chunk_index, error } => seq![TAG_CHUNK_FAILED]
                + wire::u128_bytes(job_id) + wire::u32_bytes(chunk_index) + wire::str_bytes(error),
            AckView::CancelAck { job_id } => seq![TAG_CANCEL_ACK] + wire::u128_bytes(job_id),
            AckView::JobComplete { job_id, success, path, error } => seq![TAG_JOB_COMPLETE]
                + wire::u128_bytes(job_id) + wire::bool_bytes(success) + wire::str_bytes(path)
                + wire::str_bytes(error),
        }
    }

    /// The lengths of the message's strings can be told on the wire.
    pub open spec fn fits(self) -> bool {
        &&& self.bytes().len() <= usize::MAX
        &&& match self {
            AckView::ChunkFailed { job_id, chunk_index, error } => utf8::encode_utf8(error).len()
                <= u32::MAX,
            AckView::JobComplete { job_id, success, path, error } => utf8::encode_utf8(path).len()
                <= u32::MAX && utf8::encode_utf8(error).len() <= u32::MAX,
            _ => true,
        }
    }
}

/// Bytes of a [`AckMessage::ChunkFailed`] beside its text.
pub const CHUNK_FAILED_FIXED_BYTES: u32 = 25;

/// Bytes of a [`AckMessage::JobComplete`] beside its texts.
pub const JOB_COMPLETE_FIXED_BYTES: u32 = 26;

/// What a slot has room for beside a fixed part.
pub open spec fn room_beside(slot: u32, part: u32) -> int {
    if slot < part {
        0
    } else {
        slot - part
    }
}

impl AckView {
    /// The answer as a slot of this size can hold it: texts that are too
    /// long are cut at their end, the path before the error, which is what
    /// the owner reports.
    pub open spec fn fitted(self, slot: u32) -> AckView {
        match self {
            AckView::ChunkFailed { job_id, chunk_index, error } => AckView::ChunkFailed {
                job_id,
                chunk_index,
                error: text::cut(error, room_beside(slot, CHUNK_FAILED_FIXED_BYTES)),
            },
            AckView::JobComplete { job_id, success, path, error } => {
                let room = room_beside(slot, JOB_COMPLETE_FIXED_BYTES);
                let words = text::cut(error, room);
                AckView::JobComplete {
                    job_id,
                    success,
                    path: text::cut(path, room - utf8::encode_utf8(words).len()),
                    error: words,
                }
            },
            _ => self,
        }
    }
}

/// The one string begins the other.
pub open spec fn begins(a: Seq<char>, b: Seq<char>) -> bool {
    a.len() <= b.len() && a == b.take(a.len() as int)
}

/// The length of each answer on the wire.
pub proof fn lemma_ack_lengths(a: AckView)
    ensures
        a.bytes().len() == match a {
            AckView::WorkerReady { worker_id } => 5,
            AckView::ChunkAck { job_id, chunk_index } => 21,
            AckView::ChunkFailed { job_id, chunk_index, error } => CHUNK_FAILED_FIXED_BYTES
                + utf8::encode_utf8(error).len(),
            AckView::CancelAck { job_id } => 17,
            AckView::JobComplete { job_id, success, path, error } => JOB_COMPLETE_FIXED_BYTES
                + utf8::encode_utf8(path).len() + utf8::encode_utf8(error).len(),
        },
{
    match a {
        AckView::WorkerReady { worker_id } => {
            bytes::lemma_le_len(worker_id as nat, 4);
        },
        AckView::ChunkAck { job_id, chunk_index } => {
            bytes::lemma_le_len(job_id as nat, 16);
            bytes::lemma_le_len(chunk_index as nat, 4);
        },
        AckView::ChunkFailed { job_id, chunk_index, error } => {
            bytes::lemma_le_len(job_id as nat, 16);
            bytes::lemma_le_len(chunk_index as nat, 4);
            bytes::lemma_le_len((utf8::encode_utf8(error).len() as u32) as nat, 4);
        },
        AckView::CancelAck { job_id } => {
            bytes::lemma_le_len(job_id as nat, 16);
        },
        AckView::JobComplete { job_id, success, path, error } => {
            bytes::lemma_le_len(job_id as nat, 16);
            bytes::lemma_le_len((utf8::encode_utf8(path).len() as u32) as nat, 4);
            bytes::lemma_le_len((utf8::encode_utf8(error).len() as u32) as nat, 4);
        },
    }
}

/// A fitted answer fits its slot and is of the same kind, job, chunk and
/// outcome; its texts begin those of the answer. One that fits as it is
/// stays as it is.
pub proof fn law_fitted_answers_fit(a: AckView, slot: u32)
    requires
        slot >= JOB_COMPLETE_FIXED_BYTES,
    ensures
        a.fitted(slot).bytes().len() <= slot,
        a.bytes().len() <= slot ==> a.fitted(slot) == a,
        match a {
            AckView::ChunkFailed { job_id, chunk_index, error } => a.fitted(
                slot,
            ) matches AckView::ChunkFailed { job_id: j, chunk_index: c, error: e } && j == job_id
                && c == chunk_index && begins(e, error),
            AckView::JobComplete { job_id, success, path, error } => a.fitted(
                slot,
            ) matches AckView::JobComplete { job_id: j, success: s, path: p, error: e } && j
                == job_id && s == success && begins(p, path) && begins(e, error),
            _ => a.fitted(slot) == a,
        },
{
    lemma_ack_lengths(a);
    lemma_ack_lengths(a.fitted(slot));
    match a {
        AckView::ChunkFailed { job_id, chunk_index, error } => {
            text::lemma_cut_fits(error, room_beside(slot, CHUNK_FAILED_FIXED_BYTES));
        },
        AckView::JobComplete { job_id, success, path, error } => {
            let room = room_beside(slot, JOB_COMPLETE_FIXED_BYTES);
            text::lemma_cut_fits(error, room);
            text::lemma_cut_fits(
                path,
                room - utf8::encode_utf8(text::cut(error, room)).len(),
            );
        },
        _ => {},
    }
}

/// A message that was read up to `pos`.
pub open spec fn consumed<T>(b: Seq<u8>, pos: int, m: T) -> core::result::Result<T, Seq<char>> {
    if pos == b.len() {
        Ok(m)
    } else {
        Err(wire::trailing_words(pos, b.len() as int))
    }
}

/// What bytes say as a control message, or why they are refused.
pub open spec fn control_decoded(b: Seq<u8>) -> core::result::Result<ControlView, Seq<char>> {
    match wire::u8_field(b, 0) {
        Field::Stop(words) => Err(words),
        Field::At(tag, p0) => if tag == TAG_CHUNK_DESCRIPTOR {
            match wire::u128_field(b, p0) {
                Field::Stop(words) => Err(words),
                Field::At(job_id, p1) => match wire::str_field(b, p1) {
                    Field::Stop(words) => Err(words),
                    Field::At(path, p2) => match wire::u32_field(b, p2) {
                        Field::Stop(words) => Err(words),
                        Field::At(chunk_index, p3) => match wire::descriptor_field(b, p3) {
                            Field::Stop(words) => Err(words),
                            Field::At(descriptor, p4) => consumed(
                                b,
                                p4,
                                ControlView::ChunkDescriptor {
                                    job_id,
                                    path,
                                    chunk_index,
                                    descriptor,
                                },
                            ),
                        },
                    },
                },
            }
        } else if tag == TAG_COMMIT {
            match wire::u128_field(b, p0) {
                Field::Stop(words) => Err(words),
                Field::At(job_id, p1) => match wire::str_field(b, p1) {
                    Field::Stop(words) => Err(words),
                    Field::At(path, p2) => match wire::u32_field(b, p2) {
                        Field::Stop(words) => Err(words),
                        Field::At(chunk_count, p3) => match wire::raw_field(b, p3, 32) {
                            Field::Stop(words) => Err(words),
                            Field::At(expected_hash, p4) => match wire::bool_field(b, p4) {
                                Field::Stop(words) => Err(words),
                                Field::At(fsync, p5) => consumed(
                                    b,
                                    p5,
                                    ControlView::Commit {
                                        job_id,
                                        path,
                                        chunk_count,
                                        expected_hash,
                                        fsync,
                                    },
                                ),
                            },
                        },
                    },
                },
            }
        } else if tag == TAG_CANCEL {
            match wire::u128_field(b, p0) {
                Field::Stop(words) => Err(words),
                Field::At(job_id, p1) => consumed(b, p1, ControlView::Cancel { job_id }),
            }
        } else if tag == TAG_SHUTDOWN {
            consumed(b, p0, ControlView::Shutdown)
        } else {
            Err("unknown control message tag "@ + text::dec(tag as nat))
        },
    }
}

/// What bytes say as an ack message, or why they are refused.
pub open spec fn ack_decoded(b: Seq<u8>) -> core::result::Result<AckView, Seq<char>> {
    match wire::u8_field(b, 0) {
        Field::Stop(words) => Err(words),
        Field::At(tag, p0) => if tag == TAG_WORKER_READY {
            match wire::u32_field(b, p0) {
                Field::Stop(words) => Err(words),
                Field::At(worker_id, p1) => consumed(b, p1, AckView::WorkerReady { worker_id }),
            }
        } else if tag == TAG_CHUNK_ACK {
            match wire::u128_field(b, p0) {
                Field::Stop(words) => Err(words),
                Field::At(job_id, p1) => match wire::u32_field(b, p1) {
                    Field::Stop(words) => Err(words),
                    Field::At(chunk_index, p2) => consumed(
                        b,
                        p2,
                        AckView::ChunkAck { job_id, chunk_index },
                    ),
                },
            }
        } else if tag == TAG_CHUNK_FAILED {
            match wire::u128_field(b, p0) {
                Field::Stop(words) => Err(words),
                Field::At(job_id, p1) => match wire::u32_field(b, p1) {
                    Field::Stop(words) => Err(words),
                    Field::At(chunk_index, p2) => match wire::str_field(b, p2) {
                        Field::Stop(words) => Err(words),
                        Field::At(error, p3) => consumed(
                            b,
                            p3,
                            AckView::ChunkFailed { job_id, chunk_index, error },
                        ),
                    },
                },
            }
        } else if tag == TAG_CANCEL_ACK {
            match wire::u128_field(b, p0) {
                Field::Stop(words) => Err(words),
                Field::At(job_id, p1) => consumed(b, p1, AckView::CancelAck { job_id }),
            }
        } else if tag == TAG_JOB_COMPLETE {
            match wire::u128_field(b, p0) {
                Field::Stop(words) => Err(words),
                Field::At(job_id, p1) => match wire::bool_field(b, p1) {
                    Field::Stop(words) => Err(words),
                    Field::At(success, p2) => match wire::str_field(b, p2) {
                        Field::Stop(words) => Err(words),
                        Field::At(path, p3) => match wire::str_field(b, p3) {
                            Field::Stop(words) => Err(words),
                            Field::At(error, p4) => consumed(
                                b,
                                p4,
                                AckView::JobComplete { job_id, success, path, error },
                            ),
                        },
                    },
                },
            }
        } else {
            Err("unknown ack message tag "@ + text::dec(tag as nat))
        },
    }
}

fn unknown_tag(prefix: &str, tag: u8) -> (e: TesseraSinkError)
    ensures
        error::is_protocol(e, prefix@ + text::dec(tag as nat)),
{
    let mut words = String::from_str(prefix);
    text::push_dec(&mut words, tag as u64);
    TesseraSinkError::Protocol(words)
}

impl ControlMessage {
    /// The message on the wire.
    pub fn encode(&self) -> (b: Vec<u8>)
        ensures
            b@ == self@.bytes(),
    {
        let mut w = Writer::new();
        match self {
            ControlMessage::ChunkDescriptor { job_id, path, chunk_index, descriptor } => {
                w.put_u8(TAG_CHUNK_DESCRIPTOR);
                w.put_u128(*job_id);
                w.put_str(path.as_str());
                w.put_u32(*chunk_index);
                w.put_descriptor(descriptor);
            },
            ControlMessage::Commit { job_id, path, chunk_count, expected_hash, fsync } => {
                w.put_u8(TAG_COMMIT);
                w.put_u128(*job_id);
                w.put_str(path.as_str());
                w.put_u32(*chunk_count);
                w.put_raw(expected_hash.as_slice());
                w.put_bool(*fsync);
            },
            ControlMessage::Cancel { job_id } => {
                w.put_u8(TAG_CANCEL);
                w.put_u128(*job_id);
            },
            ControlMessage::Shutdown => {
                w.put_u8(TAG_SHUTDOWN);
            },
        }
        assert(w@ =~= self@.bytes());
        w.into_inner()
    }

    fn decode_chunk<'a>(r: &mut Reader<'a>) -> (m: Result<ControlMessage>)
        requires
            old(r).wf(),
            wire::u8_field(old(r).bytes(), 0) == Field::At(TAG_CHUNK_DESCRIPTOR, old(r).pos()),
        ensures
            match control_decoded(old(r).bytes()) {
                Ok(v) => m matches Ok(x) && x@ == v,
                Err(words) => m matches Err(e) && error::is_protocol(e, words),
            },
    {
        let job_id: u128 = match r.get_u128() {
            Ok(v) => v,
            Err(e) => return Err(e),
        };
        let path = match r.get_str() {
            Ok(v) => v,
            Err(e) => return Err(e),
        };
        let chunk_index: u32 = match r.get_u32() {
            Ok(v) => v,
            Err(e) => return Err(e),
        };
        let descriptor = match r.get_descriptor() {
            Ok(v) => v,
            Err(e) => return Err(e),
        };
        match r.expect_consumed() {
            Ok(_) => Ok(ControlMessage::ChunkDescriptor { job_id, path, chunk_index, descriptor }),
            Err(e) => Err(e),
        }
    }

    fn decode_commit<'a>(r: &mut Reader<'a>) -> (m: Result<ControlMessage>)
        requires
            old(r).wf(),
            wire::u8_field(old(r).bytes(), 0) == Field::At(TAG_COMMIT, old(r).pos()),
        ensures
            match control_decoded(old(r).bytes()) {
                Ok(v) => m matches Ok(x) && x@ == v,
                Err(words) => m matches Err(e) && error::is_protocol(e, words),
            },
    {
        let job_id: u128 = match r.get_u128() {
            Ok(v) => v,
            Err(e) => return Err(e),
        };
        let path = match r.get_str() {
            Ok(v) => v,
            Err(e) => return Err(e),
        };
        let chunk_count: u32 = match r.get_u32() {
            Ok(v) => v,
            Err(e) => return Err(e),
        };
        let expected_hash: [u8; 32] = match r.get_arr::<32>() {
            Ok(v) => v,
            Err(e) => return Err(e),
        };
        let fsync: bool = match r.get_bool() {
            Ok(v) => v,
            Err(e) => return Err(e),
        };
        match r.expect_consumed() {
            Ok(_) => Ok(
                ControlMessage::Commit { job_id, path, chunk_count, expected_hash, fsync },
            ),
            Err(e) => Err(e),
        }
    }

    /// Reads a message from the wire.
    pub fn decode(b: &[u8]) -> (m: Result<ControlMessage>)
        ensures
            match control_decoded(b@) {
                Ok(v) => m matches Ok(x) && x@ == v,
                Err(words) => m matches Err(e) && error::is_protocol(e, words),
            },
    {
        let mut r = Reader::new(b);
        let tag: u8 = match r.get_u8() {
            Ok(v) => v,
            Err(e) => return Err(e),
        };
        if tag == TAG_CHUNK_DESCRIPTOR {
            ControlMessage::decode_chunk(&mut r)
        } else if tag == TAG_COMMIT {
            ControlMessage::decode_commit(&mut r)
        } else if tag == TAG_CANCEL {
            let job_id: u128 = match r.get_u128() {
                Ok(v) => v,
                Err(e) => return Err(e),
            };
            match r.expect_consumed() {
                Ok(_) => Ok(ControlMessage::Cancel { job_id }),
                Err(e) => Err(e),
            }
        } else if tag == TAG_SHUTDOWN {
            match r.expect_consumed() {
                Ok(_) => Ok(ControlMessage::Shutdown),
                Err(e) => Err(e),
            }
        } else {
            Err(unknown_tag("unknown control message tag ", tag))
        }
    }
}

impl AckMessage {
    /// The message on the wire.
    pub fn encode(&self) -> (b: Vec<u8>)
        ensures
            b@ == self@.bytes(),
    {
        let mut w = Writer::new();
        match self {
            AckMessage::WorkerReady { worker_id } => {
                w.put_u8(TAG_WORKER_READY);
                w.put_u32(*worker_id);
            },
            AckMessage::ChunkAck { job_id, chunk_index } => {
                w.put_u8(TAG_CHUNK_ACK);
                w.put_u128(*job_id);
                w.put_u32(*chunk_index);
            },
            AckMessage::ChunkFailed { job_id, chunk_index, error } => {
                w.put_u8(TAG_CHUNK_FAILED);
                w.put_u128(*job_id);
                w.put_u32(*chunk_index);
                w.put_str(error.as_str());
            },
            AckMessage::CancelAck { job_id } => {
                w.put_u8(TAG_CANCEL_ACK);
                w.put_u128(*job_id);
            },
            AckMessage::JobComplete { job_id, success, path, error } => {
                w.put_u8(TAG_JOB_COMPLETE);
                w.put_u128(*job_id);
                w.put_bool(*success);
                w.put_str(path.as_str());
                w.put_str(error.as_str());
            },
        }
        assert(w@ =~= self@.bytes());
        w.into_inner()
    }

    fn decode_complete<'a>(r: &mut Reader<'a>) -> (m: Result<AckMessage>)
        requires
            old(r).wf(),
            wire::u8_field(old(r).bytes(), 0) == Field::At(TAG_JOB_COMPLETE, old(r).pos()),
        ensures
            match ack_decoded(old(r).bytes()) {
                Ok(v) => m matches Ok(x) && x@ == v,
                Err(words) => m matches Err(e) && error::is_protocol(e, words),
            },
    {
        let job_id: u128 = match r.get_u128() {
            Ok(v) => v,
            Err(e) => return Err(e),
        };
        let success: bool = match r.get_bool() {
            Ok(v) => v,
            Err(e) => return Err(e),
        };
        let path = match r.get_str() {
            Ok(v) => v,
            Err(e) => return Err(e),
        };
        let error = match r.get_str() {
            Ok(v) => v,
            Err(e) => return Err(e),
        };
        match r.expect_consumed() {
            Ok(_) => Ok(AckMessage::JobComplete { job_id, success, path, error }),
            Err(e) => Err(e),
        }
    }

    fn decode_chunk<'a>(r: &mut Reader<'a>, failed: bool) -> (m: Result<AckMessage>)
        requires
            old(r).wf(),
            wire::u8_field(old(r).bytes(), 0) == Field::At(
                if failed {
                    TAG_CHUNK_FAILED
                } else {
                    TAG_CHUNK_ACK
                },
                old(r).pos(),
            ),
        ensures
            match ack_decoded(old(r).bytes()) {
                Ok(v) => m matches Ok(x) && x@ == v,
                Err(words) => m matches Err(e) && error::is_protocol(e, words),
            },
    {
        let job_id: u128 = match r.get_u128() {
            Ok(v) => v,
            Err(e) => return Err(e),
        };
        let chunk_index: u32 = match r.get_u32() {
            Ok(v) => v,
            Err(e) => return Err(e),
        };
        if failed {
            let error = match r.get_str() {
                Ok(v) => v,
                Err(e) => return Err(e),
            };
            match r.expect_consumed() {
                Ok(_) => Ok(AckMessage::ChunkFailed { job_id, chunk_index, error }),
                Err(e) => Err(e),
            }
        } else {
            match r.expect_consumed() {
                Ok(_) => Ok(AckMessage::ChunkAck { job_id, chunk_index }),
                Err(e) => Err(e),
            }
        }
    }

    /// Reads a message from the wire.
    pub fn decode(b: &[u8]) -> (m: Result<AckMessage>)
        ensures
            match ack_decoded(b@) {
                Ok(v) => m matches Ok(x) && x@ == v,
                Err(words) => m matches Err(e) && error::is_protocol(e, words),
            },
    {
        let mut r = Reader::new(b);
        let tag: u8 = match r.get_u8() {
            Ok(v) => v,
            Err(e) => return Err(e),
        };
        if tag == TAG_WORKER_READY {
            let worker_id: u32 = match r.get_u32() {
                Ok(v) => v,
                Err(e) => return Err(e),
            };
            match r.expect_consumed() {
                Ok(_) => Ok(AckMessage::WorkerReady { worker_id }),
                Err(e) => Err(e),
            }
        } else if tag == TAG_CHUNK_ACK {
            AckMessage::decode_chunk(&mut r, false)
        } else if tag == TAG_CHUNK_FAILED {
            AckMessage::decode_chunk(&mut r, true)
        } else if tag == TAG_CANCEL_ACK {
            let job_id: u128 = match r.get_u128() {
                Ok(v) => v,
                Err(e) => return Err(e),
            };
            match r.expect_consumed() {
                Ok(_) => Ok(AckMessage::CancelAck { job_id }),
                Err(e) => Err(e),
            }
        } else if tag == TAG_JOB_COMPLETE {
            AckMessage::decode_complete(&mut r)
        } else {
            Err(unknown_tag("unknown ack message tag ", tag))
        }
    }
}

/// Name of a job: 32 hexadecimal digits.
pub fn job_id_hex(job_id: u128) -> (r: String)
    ensures
        r@ == text::hex_fixed(job_id as nat, 32),
{
    let mut r = String::new();
    text::push_hex_fixed(&mut r, job_id, 32);
    assert(r@ =~= text::hex_fixed(job_id as nat, 32));
    r
}

proof fn lemma_str_len(s: Seq<char>)
    ensures
        wire::str_bytes(s).len() == 4 + utf8::encode_utf8(s).len(),
{
    crate::bytes::lemma_le_len((utf8::encode_utf8(s).len() as u32) as nat, 4);
}

proof fn lemma_descriptor_len(d: Descriptor)
    ensures
        wire::descriptor_bytes(d).len() == 32,
{
    crate::bytes::lemma_int_round_trip(d.slot_index, d.generation);
    crate::bytes::lemma_int_round_trip(d.size_bytes, d.lease_id.high);
    crate::bytes::lemma_int_round_trip(0, d.lease_id.low);
}

proof fn lemma_chunk_descriptor_round_trip(job_id: u128, path: Seq<char>, chunk_index: u32, descriptor: Descriptor)
    requires
        (ControlView::ChunkDescriptor { job_id, path, chunk_index, descriptor }).fits(),
    ensures
        control_decoded((ControlView::ChunkDescriptor { job_id, path, chunk_index, descriptor }).bytes()) == Ok::<ControlView, Seq<char>>(ControlView::ChunkDescriptor { job_id, path, chunk_index, descriptor }),
{
    let m = ControlView::ChunkDescriptor { job_id, path, chunk_index, descriptor };
    let b = m.bytes();
    let none = Seq::<u8>::empty();
    let f0 = seq![TAG_CHUNK_DESCRIPTOR];
    let f1 = wire::u128_bytes(job_id);
    let f2 = wire::str_bytes(path);
    let f3 = wire::u32_bytes(chunk_index);
    let f4 = wire::descriptor_bytes(descriptor);
    crate::bytes::lemma_le_len(job_id as nat, 16);
    lemma_str_len(path);
    crate::bytes::lemma_le_len(chunk_index as nat, 4);
    lemma_descriptor_len(descriptor);
    let pre0 = none;
    let post0 = f1 + f2 + f3 + f4;
    let pre1 = f0;
    let post1 = f2 + f3 + f4;
    let pre2 = f0 + f1;
    let post2 = f3 + f4;
    let pre3 = f0 + f1 + f2;
    let post3 = f4;
    let pre4 = f0 + f1 + f2 + f3;
    let post4 = none;
    assert(wire::u8_field(b, 0) == Field::At(TAG_CHUNK_DESCRIPTOR, pre1.len() as int)) by {
        assert(b =~= pre0 + f0 + post0);
        wire::lemma_raw_round_trip(pre0, f0, post0);
    }
    assert(wire::u128_field(b, pre1.len() as int) == Field::At(job_id, pre2.len() as int)) by {
        assert(b =~= pre1 + f1 + post1);
        wire::lemma_int_round_trip(pre1, post1, 0, 0, job_id, false);
    }
    assert(wire::str_field(b, pre2.len() as int) == Field::At(path, pre3.len() as int)) by {
        assert(b =~= pre2 + f2 + post2);
        wire::lemma_str_round_trip(pre2, path, post2);
    }
    assert(wire::u32_field(b, pre3.len() as int) == Field::At(chunk_index, pre4.len() as int)) by {
        assert(b =~= pre3 + f3 + post3);
        wire::lemma_int_round_trip(pre3, post3, chunk_index, 0, 0, false);
    }
    assert(wire::descriptor_field(b, pre4.len() as int) == Field::At(descriptor, b.len() as int)) by {
        assert(b =~= pre4 + f4 + post4);
        wire::lemma_descriptor_round_trip(pre4, descriptor, post4);
    }
}

proof fn lemma_commit_round_trip(job_id: u128, path: Seq<char>, chunk_count: u32, expected_hash: Seq<u8>, fsync: bool)
    requires
        (ControlView::Commit { job_id, path, chunk_count, expected_hash, fsync }).fits(),
    ensures
        control_decoded((ControlView::Commit { job_id, path, chunk_count, expected_hash, fsync }).bytes()) == Ok::<ControlView, Seq<char>>(ControlView::Commit { job_id, path, chunk_count, expected_hash, fsync }),
{
    let m = ControlView::Commit { job_id, path, chunk_count, expected_hash, fsync };
    let b = m.bytes();
    let none = Seq::<u8>::empty();
    let f0 = seq![TAG_COMMIT];
    let f1 = wire::u128_bytes(job_id);
    let f2 = wire::str_bytes(path);
    let f3 = wire::u32_bytes(chunk_count);
    let f4 = expected_hash;
    let f5 = wire::bool_bytes(fsync);
    crate::bytes::lemma_le_len(job_id as nat, 16);
    lemma_str_len(path);
    crate::bytes::lemma_le_len(chunk_count as nat, 4);
    let pre0 = none;
    let post0 = f1 + f2 + f3 + f4 + f5;
    let pre1 = f0;
    let post1 = f2 + f3 + f4 + f5;
    let pre2 = f0 + f1;
    let post2 = f3 + f4 + f5;
    let pre3 = f0 + f1 + f2;
    let post3 = f4 + f5;
    let pre4 = f0 + f1 + f2 + f3;
    let post4 = f5;
    let pre5 = f0 + f1 + f2 + f3 + f4;
    let post5 = none;
    assert(wire::u8_field(b, 0) == Field::At(TAG_COMMIT, pre1.len() as int)) by {
        assert(b =~= pre0 + f0 + post0);
        wire::lemma_raw_round_trip(pre0, f0, post0);
    }
    assert(wire::u128_field(b, pre1.len() as int) == Field::At(job_id, pre2.len() as int)) by {
        assert(b =~= pre1 + f1 + post1);
        wire::lemma_int_round_trip(pre1, post1, 0, 0, job_id, false);
    }
    assert(wire::str_field(b, pre2.len() as int) == Field::At(path, pre3.len() as int)) by {
        assert(b =~= pre2 + f2 + post2);
        wire::lemma_str_round_trip(pre2, path, post2);
    }
    assert(wire::u32_field(b, pre3.len() as int) == Field::At(chunk_count, pre4.len() as int)) by {
        assert(b =~= pre3 + f3 + post3);
        wire::lemma_int_round_trip(pre3, post3, chunk_count, 0, 0, false);
    }
    assert(wire::raw_field(b, pre4.len() as int, 32) == Field::At(expected_hash, pre5.len() as int)) by {
        assert(b =~= pre4 + f4 + post4);
        wire::lemma_raw_round_trip(pre4, f4, post4);
    }
    assert(wire::bool_field(b, pre5.len() as int) == Field::At(fsync, b.len() as int)) by {
        assert(b =~= pre5 + f5 + post5);
        wire::lemma_int_round_trip(pre5, post5, 0, 0, 0, fsync);
    }
}

proof fn lemma_cancel_round_trip(job_id: u128)
    requires
        (ControlView::Cancel { job_id }).fits(),
    ensures
        control_decoded((ControlView::Cancel { job_id }).bytes()) == Ok::<ControlView, Seq<char>>(ControlView::Cancel { job_id }),
{
    let m = ControlView::Cancel { job_id };
    let b = m.bytes();
    let none = Seq::<u8>::empty();
    let f0 = seq![TAG_CANCEL];
    let f1 = wire::u128_bytes(job_id);
    crate::bytes::lemma_le_len(job_id as nat, 16);
    let pre0 = none;
    let post0 = f1;
    let pre1 = f0;
    let post1 = none;
    assert(wire::u8_field(b, 0) == Field::At(TAG_CANCEL, pre1.len() as int)) by {
        assert(b =~= pre0 + f0 + post0);
        wire::lemma_raw_round_trip(pre0, f0, post0);
    }
    assert(wire::u128_field(b, pre1.len() as int) == Field::At(job_id, b.len() as int)) by {
        assert(b =~= pre1 + f1 + post1);
        wire::lemma_int_round_trip(pre1, post1, 0, 0, job_id, false);
    }
}

/// Every control message that fits is decoded from the wire as it was
/// encoded.
pub proof fn law_control_round_trip(m: ControlView)
    requires
        m.fits(),
    ensures
        control_decoded(m.bytes()) == Ok::<ControlView, Seq<char>>(m),
{
    match m {
        ControlView::ChunkDescriptor { job_id, path, chunk_index, descriptor } => {
            lemma_chunk_descriptor_round_trip(job_id, path, chunk_index, descriptor);
        },
        ControlView::Commit { job_id, path, chunk_count, expected_hash, fsync } => {
            lemma_commit_round_trip(job_id, path, chunk_count, expected_hash, fsync);
        },
        ControlView::Cancel { job_id } => {
            lemma_cancel_round_trip(job_id);
        },
        ControlView::Shutdown => {
            let none = Seq::<u8>::empty();
            assert(m.bytes() =~= none + seq![TAG_SHUTDOWN] + none);
            wire::lemma_raw_round_trip(none, seq![TAG_SHUTDOWN], none);
        },
    }
}

proof fn lemma_worker_ready_round_trip(worker_id: u32)
    requires
        (AckView::WorkerReady { worker_id }).fits(),
    ensures
        ack_decoded((AckView::WorkerReady { worker_id }).bytes()) == Ok::<AckView, Seq<char>>(AckView::WorkerReady { worker_id }),
{
    let m = AckView::WorkerReady { worker_id };
    let b = m.bytes();
    let none = Seq::<u8>::empty();
    let f0 = seq![TAG_WORKER_READY];
    let f1 = wire::u32_bytes(worker_id);
    crate::bytes::lemma_le_len(worker_id as nat, 4);
    let pre0 = none;
    let post0 = f1;
    let pre1 = f0;
    let post1 = none;
    assert(wire::u8_field(b, 0) == Field::At(TAG_WORKER_READY, pre1.len() as int)) by {
        assert(b =~= pre0 + f0 + post0);
        wire::lemma_raw_round_trip(pre0, f0, post0);
    }
    assert(wire::u32_field(b, pre1.len() as int) == Field::At(worker_id, b.len() as int)) by {
        assert(b =~= pre1 + f1 + post1);
        wire::lemma_int_round_trip(pre1, post1, worker_id, 0, 0, false);
    }
}

proof fn lemma_chunk_ack_round_trip(job_id: u128, chunk_index: u32)
    requires
        (AckView::ChunkAck { job_id, chunk_index }).fits(),
    ensures
        ack_decoded((AckView::ChunkAck { job_id, chunk_index }).bytes()) == Ok::<AckView, Seq<char>>(AckView::ChunkAck { job_id, chunk_index }),
{
    let m = AckView::ChunkAck { job_id, chunk_index };
    let b = m.bytes();
    let none = Seq::<u8>::empty();
    let f0 = seq![TAG_CHUNK_ACK];
    let f1 = wire::u128_bytes(job_id);
    let f2 = wire::u32_bytes(chunk_index);
    crate::bytes::lemma_le_len(job_id as nat, 16);
    crate::bytes::lemma_le_len(chunk_index as nat, 4);
    let pre0 = none;
    let post0 = f1 + f2;
    let pre1 = f0;
    let post1 = f2;
    let pre2 = f0 + f1;
    let post2 = none;
    assert(wire::u8_field(b, 0) == Field::At(TAG_CHUNK_ACK, pre1.len() as int)) by {
        assert(b =~= pre0 + f0 + post0);
        wire::lemma_raw_round_trip(pre0, f0, post0);
    }
    assert(wire::u128_field(b, pre1.len() as int) == Field::At(job_id, pre2.len() as int)) by {
        assert(b =~= pre1 + f1 + post1);
        wire::lemma_int_round_trip(pre1, post1, 0, 0, job_id, false);
    }
    assert(wire::u32_field(b, pre2.len() as int) == Field::At(chunk_index, b.len() as int)) by {
        assert(b =~= pre2 + f2 + post2);
        wire::lemma_int_round_trip(pre2, post2, chunk_index, 0, 0, false);
    }
}

proof fn lemma_chunk_failed_round_trip(job_id: u128, chunk_index: u32, error: Seq<char>)
    requires
        (AckView::ChunkFailed { job_id, chunk_index, error }).fits(),
    ensures
        ack_decoded((AckView::ChunkFailed { job_id, chunk_index, error }).bytes()) == Ok::<AckView, Seq<char>>(AckView::ChunkFailed { job_id, chunk_index, error }),
{
    let m = AckView::ChunkFailed { job_id, chunk_index, error };
    let b = m.bytes();
    let none = Seq::<u8>::empty();
    let f0 = seq![TAG_CHUNK_FAILED];
    let f1 = wire::u128_bytes(job_id);
    let f2 = wire::u32_bytes(chunk_index);
    let f3 = wire::str_bytes(error);
    crate::bytes::lemma_le_len(job_id as nat, 16);
    crate::bytes::lemma_le_len(chunk_index as nat, 4);
    lemma_str_len(error);
    let pre0 = none;
    let post0 = f1 + f2 + f3;
    let pre1 = f0;
    let post1 = f2 + f3;
    let pre2 = f0 + f1;
    let post2 = f3;
    let pre3 = f0 + f1 + f2;
    let post3 = none;
    assert(wire::u8_field(b, 0) == Field::At(TAG_CHUNK_FAILED, pre1.len() as int)) by {
        assert(b =~= pre0 + f0 + post0);
        wire::lemma_raw_round_trip(pre0, f0, post0);
    }
    assert(wire::u128_field(b, pre1.len() as int) == Field::At(job_id, pre2.len() as int)) by {
        assert(b =~= pre1 + f1 + post1);
        wire::lemma_int_round_trip(pre1, post1, 0, 0, job_id, false);
    }
    assert(wire::u32_field(b, pre2.len() as int) == Field::At(chunk_index, pre3.len() as int)) by {
        assert(b =~= pre2 + f2 + post2);
        wire::lemma_int_round_trip(pre2, post2, chunk_index, 0, 0, false);
    }
    assert(wire::str_field(b, pre3.len() as int) == Field::At(error, b.len() as int)) by {
        assert(b =~= pre3 + f3 + post3);
        wire::lemma_str_round_trip(pre3, error, post3);
    }
}

proof fn lemma_cancel_ack_round_trip(job_id: u128)
    requires
        (AckView::CancelAck { job_id }).fits(),
    ensures
        ack_decoded((AckView::CancelAck { job_id }).bytes()) == Ok::<AckView, Seq<char>>(AckView::CancelAck { job_id }),
{
    let m = AckView::CancelAck { job_id };
    let b = m.bytes();
    let none = Seq::<u8>::empty();
    let f0 = seq![TAG_CANCEL_ACK];
    let f1 = wire::u128_bytes(job_id);
    crate::bytes::lemma_le_len(job_id as nat, 16);
    let pre0 = none;
    let post0 = f1;
    let pre1 = f0;
    let post1 = none;
    assert(wire::u8_field(b, 0) == Field::At(TAG_CANCEL_ACK, pre1.len() as int)) by {
        assert(b =~= pre0 + f0 + post0);
        wire::lemma_raw_round_trip(pre0, f0, post0);
    }
    assert(wire::u128_field(b, pre1.len() as int) == Field::At(job_id, b.len() as int)) by {
        assert(b =~= pre1 + f1 + post1);
        wire::lemma_int_round_trip(pre1, post1, 0, 0, job_id, false);
    }
}

proof fn lemma_job_complete_round_trip(job_id: u128, success: bool, path: Seq<char>, error: Seq<char>)
    requires
        (AckView::JobComplete { job_id, success, path, error }).fits(),
    ensures
        ack_decoded((AckView::JobComplete { job_id, success, path, error }).bytes()) == Ok::<AckView, Seq<char>>(AckView::JobComplete { job_id, success, path, error }),
{
    let m = AckView::JobComplete { job_id, success, path, error };
    let b = m.bytes();
    let none = Seq::<u8>::empty();
    let f0 = seq![TAG_JOB_COMPLETE];
    let f1 = wire::u128_bytes(job_id);
    let f2 = wire::bool_bytes(success);
    let f3 = wire::str_bytes(path);
    let f4 = wire::str_bytes(error);
    crate::bytes::lemma_le_len(job_id as nat, 16);
    lemma_str_len(path);
    lemma_str_len(error);
    let pre0 = none;
    let post0 = f1 + f2 + f3 + f4;
    let pre1 = f0;
    let post1 = f2 + f3 + f4;
    let pre2 = f0 + f1;
    let post2 = f3 + f4;
    let pre3 = f0 + f1 + f2;
    let post3 = f4;
    let pre4 = f0 + f1 + f2 + f3;
    let post4 = none;
    assert(wire::u8_field(b, 0) == Field::At(TAG_JOB_COMPLETE, pre1.len() as int)) by {
        assert(b =~= pre0 + f0 + post0);
        wire::lemma_raw_round_trip(pre0, f0, post0);
    }
    assert(wire::u128_field(b, pre1.len() as int) == Field::At(job_id, pre2.len() as int)) by {
        assert(b =~= pre1 + f1 + post1);
        wire::lemma_int_round_trip(pre1, post1, 0, 0, job_id, false);
    }
    assert(wire::bool_field(b, pre2.len() as int) == Field::At(success, pre3.len() as int)) by {
        assert(b =~= pre2 + f2 + post2);
        wire::lemma_int_round_trip(pre2, post2, 0, 0, 0, success);
    }
    assert(wire::str_field(b, pre3.len() as int) == Field::At(path, pre4.len() as int)) by {
        assert(b =~= pre3 + f3 + post3);
        wire::lemma_str_round_trip(pre3, path, post3);
    }
    assert(wire::str_field(b, pre4.len() as int) == Field::At(error, b.len() as int)) by {
        assert(b =~= pre4 + f4 + post4);
        wire::lemma_str_round_trip(pre4, error, post4);
    }
}

/// Every ack message that fits is decoded from the wire as it was encoded.
pub proof fn law_ack_round_trip(m: AckView)
    requires
        m.fits(),
    ensures
        ack_decoded(m.bytes()) == Ok::<AckView, Seq<char>>(m),
{
    match m {
        AckView::WorkerReady { worker_id } => {
            lemma_worker_ready_round_trip(worker_id);
        },
        AckView::ChunkAck { job_id, chunk_index } => {
            lemma_chunk_ack_round_trip(job_id, chunk_index);
        },
        AckView::ChunkFailed { job_id, chunk_index, error } => {
            lemma_chunk_failed_round_trip(job_id, chunk_index, error);
        },
        AckView::CancelAck { job_id } => {
            lemma_cancel_ack_round_trip(job_id);
        },
        AckView::JobComplete { job_id, success, path, error } => {
            lemma_job_complete_round_trip(job_id, success, path, error);
        },
    }
}

/// A field that was read from the beginning of a message is the same field
/// of the whole.
proof fn lemma_prefix_fields(b: Seq<u8>, k: int)
    requires
        0 <= k <= b.len(),
    ensures
        forall|pos: int, n: int|
            0 <= pos && 0 <= n && (#[trigger] wire::raw_field(b.take(k), pos, n)) is At
                ==> wire::raw_field(b, pos, n) == wire::raw_field(b.take(k), pos, n),
{
    assert forall|pos: int, n: int|
        0 <= pos && 0 <= n && (#[trigger] wire::raw_field(b.take(k), pos, n)) is At implies
        wire::raw_field(b, pos, n) == wire::raw_field(b.take(k), pos, n) by {
        assert(crate::bytes::range(b, pos, n) =~= crate::bytes::range(b.take(k), pos, n));
    }
}

/// Where a message is decoded, nothing that it begins with is, and nothing
/// that begins with it: a message that was cut short or that has bytes
/// added is refused.
pub proof fn law_control_cut_or_extended_is_refused(b: Seq<u8>, k: int)
    requires
        0 <= k < b.len(),
    ensures
        control_decoded(b.take(k)) is Err || control_decoded(b) is Err,
{
    lemma_prefix_fields(b, k);
    assert(b.take(k).len() == k);
}

/// Where a message is decoded, nothing that it begins with is, and nothing
/// that begins with it: a message that was cut short or that has bytes
/// added is refused.
pub proof fn law_ack_cut_or_extended_is_refused(b: Seq<u8>, k: int)
    requires
        0 <= k < b.len(),
    ensures
        ack_decoded(b.take(k)) is Err || ack_decoded(b) is Err,
{
    lemma_prefix_fields(b, k);
    assert(b.take(k).len() == k);
}

/// A message on the wire begins with the tag of its kind.
pub proof fn law_messages_begin_with_their_tag(c: ControlView, a: AckView)
    ensures
        c.bytes().len() > 0,
        c.bytes()[0] == match c {
            ControlView::ChunkDescriptor { .. } => 1u8,
            ControlView::Commit { .. } => 2u8,
            ControlView::Cancel { .. } => 3u8,
            ControlView::Shutdown => 4u8,
        },
        a.bytes().len() > 0,
        a.bytes()[0] == match a {
            AckView::ChunkAck { .. } => 16u8,
            AckView::ChunkFailed { .. } => 17u8,
            AckView::CancelAck { .. } => 18u8,
            AckView::JobComplete { .. } => 19u8,
            AckView::WorkerReady { .. } => 20u8,
        },
{
}

/// What is decoded is a message of the kind that the first byte tells of;
/// bytes that begin otherwise, and no bytes, are refused.
pub proof fn law_the_tag_decides(b: Seq<u8>)
    ensures
        control_decoded(b) matches Ok(c) ==> b.len() > 0 && b[0] == c.bytes()[0],
        ack_decoded(b) matches Ok(a) ==> b.len() > 0 && b[0] == a.bytes()[0],
        b.len() == 0 ==> control_decoded(b) is Err && ack_decoded(b) is Err,
        b.len() > 0 && !(1 <= b[0] && b[0] <= 4) ==> control_decoded(b) is Err,
        b.len() > 0 && !(16 <= b[0] && b[0] <= 20) ==> ack_decoded(b) is Err,
{
}

/// A shutdown is a single byte, and a cancelling one that byte and the job:
/// the job that is decoded is the one whose bytes were sent.
pub proof fn law_short_messages(b: Seq<u8>, job_id: u128)
    ensures
        control_decoded(b) == Ok::<ControlView, Seq<char>>(ControlView::Shutdown) <==> b == seq![
            4u8,
        ],
        control_decoded(seq![3u8] + bytes::le_bytes(job_id as nat, 16)) == Ok::<
            ControlView,
            Seq<char>,
        >(ControlView::Cancel { job_id }),
{
    if b == seq![4u8] {
        assert(bytes::range(b, 0, 1) =~= b);
    }
    if control_decoded(b) == Ok::<ControlView, Seq<char>>(ControlView::Shutdown) {
        assert(b.len() == 1);
        assert(bytes::range(b, 0, 1)[0] == b[0]);
        assert(b =~= seq![4u8]);
    }
    let m = ControlView::Cancel { job_id };
    bytes::lemma_le_len(job_id as nat, 16);
    law_control_round_trip(m);
}

/// An answer that is too long for its slot loses the end of its texts and
/// no more than it must: the error stays whole where it fits without the
/// path, and the path gets all the room that the error leaves.
pub proof fn law_an_answer_loses_no_more_than_it_must(
    a: AckView,
    slot: u32,
    more: int,
)
    requires
        slot >= JOB_COMPLETE_FIXED_BYTES,
    ensures
        a matches AckView::JobComplete { job_id, success, path, error } ==> (a.fitted(
            slot,
        ) matches AckView::JobComplete { job_id: j, success: s, path: p, error: e } && {
            &&& j == job_id && s == success
            &&& 26 + utf8::encode_utf8(error).len() <= slot ==> e == error
            &&& begins(e, error) && begins(p, path)
            &&& e.len() < more <= error.len() ==> 26 + utf8::encode_utf8(error.take(more)).len()
                > slot
            &&& p.len() < more <= path.len() ==> 26 + utf8::encode_utf8(e).len()
                + utf8::encode_utf8(path.take(more)).len() > slot
        }),
        a matches AckView::ChunkFailed { job_id, chunk_index, error } ==> (a.fitted(
            slot,
        ) matches AckView::ChunkFailed { job_id: j, chunk_index: c, error: e } && {
            &&& j == job_id && c == chunk_index
            &&& begins(e, error)
            &&& e.len() < more <= error.len() ==> 25 + utf8::encode_utf8(error.take(more)).len()
                > slot
        }),
{
    match a {
        AckView::ChunkFailed { job_id, chunk_index, error } => {
            text::law_a_cut_keeps_what_fits(error, slot - 25, more);
        },
        AckView::JobComplete { job_id, success, path, error } => {
            let room = slot - 26;
            text::law_a_cut_keeps_what_fits(error, room, more);
            text::lemma_cut_fits(error, room);
            let e = text::cut(error, room);
            text::law_a_cut_keeps_what_fits(path, room - utf8::encode_utf8(e).len(), more);
        },
        _ => {},
    }
}

} // verus!
