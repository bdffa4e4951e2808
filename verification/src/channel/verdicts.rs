//! What a caller is told of a send or a receive, and what becomes of the
//! queue, in every case.
use vstd::prelude::*;

use crate::bytes;
use crate::channel::channel;
use crate::channel::channel::{ChannelView, RecvOutcome, Wait};
use crate::channel::header;
use crate::channel::header::{HeaderView, SlotHeaderView};
use crate::channel::protocol;
use crate::channel::protocol::{RecvPhase, SendPhase};
use crate::channel::region;
use crate::channel::region::QueueView;
use crate::channel::{ChannelConfig, ChannelRole, ChannelRoleSnapshot, TesseraChannelError};

verus! {

/// There is nothing to receive: no position is taken, or the message of the
/// next one is not published yet.
pub open spec fn nothing_to_receive(q: QueueView, n: u32) -> bool {
    q.head >= q.tail || q.slots[q.head as int % n as int].ready == 0
}

/// As many positions are taken as there are slots, the counters going round
/// at their width.
pub open spec fn no_room(q: QueueView, n: u32) -> bool {
    if q.tail >= q.head {
        q.tail - q.head >= n
    } else {
        q.tail - q.head + 0x1_0000_0000_0000_0000 >= n
    }
}

/// A receive without a time limit never fails for want of a message: it
/// changes nothing and asks to be tried again. One with a limit fails then
/// only once its deadline is reached, and a non-blocking one always.
pub proof fn law_a_receive_waits_as_it_was_told(
    c: ChannelView,
    q: QueueView,
    wait: Wait,
    deadline_reached: bool,
    r: core::result::Result<Option<Vec<u8>>, TesseraChannelError>,
    after: QueueView,
)
    requires
        c.role == ChannelRole::Receiver,
        nothing_to_receive(q, c.region.slot_count),
        c.region.slot_count > 0,
        channel::recv_contract(c, q, wait, deadline_reached, r, after),
    ensures
        after == q,
        wait is Forever ==> r == Ok::<Option<Vec<u8>>, TesseraChannelError>(None),
        wait is Never ==> r == Err::<Option<Vec<u8>>, TesseraChannelError>(
            TesseraChannelError::ChannelEmpty { head: q.head },
        ),
        wait matches Wait::Micros(timeout_micros) ==> (if deadline_reached {
            r == Err::<Option<Vec<u8>>, TesseraChannelError>(
                TesseraChannelError::Timeout { timeout_micros, head: q.head, tail: q.tail },
            )
        } else {
            r == Ok::<Option<Vec<u8>>, TesseraChannelError>(None)
        }),
{
    vstd::arithmetic::div_mod::lemma_mod_bound(q.head as int, c.region.slot_count as int);
}

/// A receiver gets the message at the head of the queue as soon as it is
/// published, however long it would have waited, and the head moves on by
/// one. The slot of the message is free again; nothing else changes.
pub proof fn law_a_published_message_is_received(
    c: ChannelView,
    q: QueueView,
    wait: Wait,
    deadline_reached: bool,
    r: core::result::Result<Option<Vec<u8>>, TesseraChannelError>,
    after: QueueView,
)
    requires
        c.role == ChannelRole::Receiver,
        c.region.slot_count > 0,
        q.slots.len() == c.region.slot_count,
        !nothing_to_receive(q, c.region.slot_count),
        channel::recv_contract(c, q, wait, deadline_reached, r, after),
    ensures
        ({
            let i = q.head as int % c.region.slot_count as int;
            let s = q.slots[i];
            &&& s.sequence != q.head ==> r is Err && r->Err_0 is Region && after == q
            &&& s.sequence == q.head ==> {
                &&& r matches Ok(Some(m)) && (s.length <= s.payload.len() ==> m@
                    == s.payload.subrange(0, s.length as int)) && (s.length > s.payload.len()
                    ==> m@ == s.payload)
                &&& after.head == q.head + 1
                &&& after.tail == q.tail
                &&& after.slots.len() == q.slots.len()
                &&& after.slots[i].ready == 0
                &&& after.slots[i].payload == s.payload && after.slots[i].length == s.length
                &&& after.slots[i].sequence == s.sequence
                &&& forall|j: int|
                    0 <= j < q.slots.len() && j != i ==> #[trigger] after.slots[j] == q.slots[j]
            }
        }),
{
    vstd::arithmetic::div_mod::lemma_mod_bound(q.head as int, c.region.slot_count as int);
}

/// Only a receiver receives, and only a sender sends; whoever else tries is
/// told the role that it has and the one that it needs, and the queue stays
/// as it is.
pub proof fn law_roles_are_kept(
    c: ChannelView,
    q: QueueView,
    message: Seq<u8>,
    timestamp: u64,
    wait: Wait,
    deadline_reached: bool,
    received: core::result::Result<Option<Vec<u8>>, TesseraChannelError>,
    after_recv: QueueView,
    sent: core::result::Result<bool, TesseraChannelError>,
    after_send: QueueView,
)
    requires
        channel::recv_contract(c, q, wait, deadline_reached, received, after_recv),
        channel::send_contract(
            c,
            q,
            message,
            timestamp,
            wait,
            deadline_reached,
            sent,
            after_send,
        ),
    ensures
        c.role == ChannelRole::Sender ==> after_recv == q && received == Err::<
            Option<Vec<u8>>,
            TesseraChannelError,
        >(
            TesseraChannelError::RoleMismatch {
                actual: ChannelRoleSnapshot::Sender,
                required: ChannelRoleSnapshot::Receiver,
            },
        ),
        c.role == ChannelRole::Receiver ==> after_send == q && sent == Err::<
            bool,
            TesseraChannelError,
        >(
            TesseraChannelError::RoleMismatch {
                actual: ChannelRoleSnapshot::Receiver,
                required: ChannelRoleSnapshot::Sender,
            },
        ),
{
}

/// What a sender is told. A message that is longer than a slot is always
/// refused, and any other is sent at once if there is room. Without room, a
/// send without a time limit asks to be tried again; one with a limit fails
/// only once its deadline is reached, and a non-blocking one always. A send
/// that is not done changes nothing.
pub proof fn law_a_send_waits_as_it_was_told(
    c: ChannelView,
    q: QueueView,
    message: Seq<u8>,
    timestamp: u64,
    wait: Wait,
    deadline_reached: bool,
    r: core::result::Result<bool, TesseraChannelError>,
    after: QueueView,
)
    requires
        c.role == ChannelRole::Sender,
        message.len() <= usize::MAX,
        channel::send_contract(c, q, message, timestamp, wait, deadline_reached, r, after),
    ensures
        message.len() > c.region.slot_size_bytes ==> after == q && r == Err::<
            bool,
            TesseraChannelError,
        >(
            TesseraChannelError::OversizedPayload {
                payload_size: message.len() as usize,
                slot_size: c.region.slot_size_bytes as usize,
            },
        ),
        message.len() <= c.region.slot_size_bytes && !no_room(q, c.region.slot_count) ==> r == Ok::<
            bool,
            TesseraChannelError,
        >(true),
        message.len() <= c.region.slot_size_bytes && no_room(q, c.region.slot_count) ==> {
            &&& after == q
            &&& wait is Forever ==> r == Ok::<bool, TesseraChannelError>(false)
            &&& wait is Never ==> r == Err::<bool, TesseraChannelError>(
                TesseraChannelError::ChannelFull { slot_count: c.region.slot_count },
            )
            &&& wait matches Wait::Micros(timeout_micros) ==> (if deadline_reached {
                r == Err::<bool, TesseraChannelError>(
                    TesseraChannelError::Timeout { timeout_micros, head: q.head, tail: q.tail },
                )
            } else {
                r == Ok::<bool, TesseraChannelError>(false)
            })
        },
{
}

/// A message that is sent lies in the slot of the old tail, published under
/// that position with its length and time, and the tail moves on by one.
/// Nothing else changes.
pub proof fn law_a_sent_message_is_published(
    c: ChannelView,
    q: QueueView,
    message: Seq<u8>,
    timestamp: u64,
    wait: Wait,
    deadline_reached: bool,
    r: core::result::Result<bool, TesseraChannelError>,
    after: QueueView,
)
    requires
        c.region.slot_count > 0,
        q.slots.len() == c.region.slot_count,
        forall|j: int|
            0 <= j < q.slots.len() ==> (#[trigger] q.slots[j]).payload.len()
                == c.region.slot_size_bytes,
        channel::send_contract(c, q, message, timestamp, wait, deadline_reached, r, after),
        r == Ok::<bool, TesseraChannelError>(true),
    ensures
        ({
            let i = q.tail as int % c.region.slot_count as int;
            let s = after.slots[i];
            &&& c.role == ChannelRole::Sender
            &&& message.len() <= c.region.slot_size_bytes
            &&& s.ready == 1 && s.sequence == q.tail
            &&& s.length == message.len() && s.timestamp == timestamp
            &&& s.payload.len() == c.region.slot_size_bytes
            &&& s.payload.subrange(0, message.len() as int) == message
            &&& after.head == q.head
            &&& q.tail < u64::MAX ==> after.tail == q.tail + 1
            &&& q.tail == u64::MAX ==> after.tail == 0
            &&& after.slots.len() == q.slots.len()
            &&& forall|j: int|
                0 <= j < q.slots.len() && j != i ==> #[trigger] after.slots[j] == q.slots[j]
        }),
{
    let i = q.tail as int % c.region.slot_count as int;
    vstd::arithmetic::div_mod::lemma_mod_bound(q.tail as int, c.region.slot_count as int);
    assert(q.slots[i].payload.len() == c.region.slot_size_bytes);
    bytes::lemma_overwrite(q.slots[i].payload, 0, message);
    assert(after.slots[i].payload.subrange(0, message.len() as int) =~= message);
}

/// A geometry can be created exactly if it has slots, of a size that is a
/// multiple of eight, and its segment can be mapped; and it can be attached
/// to under the same conditions on slots and size.
pub proof fn law_which_geometries_are_taken(n: u32, size: u32)
    ensures
        region::create_refusal(n, size) is None <==> n > 0 && size > 0 && size % 8 == 0
            && header::segment_len(n as int, size as int) <= usize::MAX,
        region::attach_refusal(n, size) is None <==> n > 0 && size > 0 && size % 8 == 0,
{
}

/// A sender takes a segment exactly if it is one of a channel in this
/// format, with the geometry and the description that it expects.
pub proof fn law_which_segments_are_taken(h: HeaderView, digest: Seq<u8>, n: u32, size: u32)
    ensures
        region::accepts(h, digest, n, size) <==> h.magic == header::MAGIC && h.format_version
            == header::FORMAT_VERSION && h.slot_count == n && h.slot_size_bytes == size
            && h.handle_blake3 == digest,
{
}

/// A new channel's header tells of its geometry and its description, and of
/// no message.
pub proof fn law_a_new_channel_is_empty(digest: Seq<u8>, epoch: u64, n: u32, size: u32)
    ensures
        ({
            let h = region::fresh_header(digest, epoch, n, size);
            &&& h.magic == header::MAGIC && h.format_version == header::FORMAT_VERSION
            &&& h.epoch_micros == epoch
            &&& h.slot_count == n && h.slot_size_bytes == size
            &&& h.head == 0 && h.tail == 0
            &&& h.handle_blake3 == digest
        }),
{
}

/// Where the fields of a segment's header and of a slot lie, and how many
/// bytes a segment has.
pub proof fn law_where_the_fields_lie(
    h: HeaderView,
    s: SlotHeaderView,
    mem: Seq<u8>,
    i: int,
    n: nat,
    size: int,
)
    requires
        h.handle_blake3.len() == 32,
        h.reserved.len() == 40,
        s.reserved.len() == 24,
        0 <= i < n,
    ensures
        h.bytes().len() == 120,
        bytes::u64_at(h.bytes(), 0) == h.magic,
        bytes::u32_at(h.bytes(), 8) == h.format_version,
        bytes::u64_at(h.bytes(), 16) == h.epoch_micros,
        bytes::u32_at(h.bytes(), 24) == h.slot_count,
        bytes::u32_at(h.bytes(), 28) == h.slot_size_bytes,
        bytes::u64_at(h.bytes(), 32) == h.head,
        bytes::u64_at(h.bytes(), 40) == h.tail,
        h.bytes().subrange(48, 80) == h.handle_blake3,
        s.bytes().len() == 56,
        bytes::u64_at(s.bytes(), 0) == s.sequence,
        bytes::u64_at(s.bytes(), 8) == s.ready,
        bytes::u32_at(s.bytes(), 16) == s.length,
        bytes::u64_at(s.bytes(), 24) == s.timestamp_nanos,
        header::slot_start(i, size) == 120 + i * (56 + size),
        header::segment_len(n as int, size) == 120 + n * (56 + size),
        ({
            let q = region::queue_of(mem, n, size);
            let at = 120 + i * (56 + size);
            &&& q.head == bytes::u64_at(mem, 32) && q.tail == bytes::u64_at(mem, 40)
            &&& q.slots.len() == n
            &&& q.slots[i].sequence == bytes::u64_at(mem, at)
            &&& q.slots[i].ready == bytes::u64_at(mem, at + 8)
            &&& q.slots[i].length == bytes::u32_at(mem, at + 16)
            &&& q.slots[i].timestamp == bytes::u64_at(mem, at + 24)
            &&& q.slots[i].payload == mem.subrange(at + 56, at + 56 + size)
        }),
{
    header::law_header_round_trip(h);
    header::law_slot_header_round_trip(s);
    assert(HeaderView::of(h.bytes()).handle_blake3 == h.handle_blake3);
}

/// A sender that has seen both counters reports a full channel exactly if as
/// many positions are taken as there are slots, and otherwise tries to claim
/// the tail. If another sender was faster it looks anew rather than give up.
pub proof fn law_how_a_sender_claims(tail: u64, word: u64, n: u32)
    ensures
        SendPhase::LoadTail.after(word, n) == (SendPhase::LoadHead { tail: word }),
        ({
            let taken = if tail >= word {
                tail - word
            } else {
                tail - word + 0x1_0000_0000_0000_0000
            };
            let p = (SendPhase::LoadHead { tail }).after(word, n);
            &&& taken >= n ==> p is Full
            &&& taken < n ==> p == (SendPhase::Claim { tail })
        }),
        word == 0 ==> (SendPhase::Claim { tail }).after(word, n) is LoadTail,
        word != 0 ==> (SendPhase::Claim { tail }).after(word, n) == (SendPhase::CopyPayload {
            claimed: tail,
        }),
{
}

/// A sender that has claimed a position writes message, fields and position
/// into the position's slot before it publishes the slot, and then is done.
pub proof fn law_how_a_sender_fills_its_slot(claimed: u64, word: u64, n: u32)
    requires
        n > 0,
    ensures
        (SendPhase::CopyPayload { claimed }).after(word, n) == (SendPhase::WriteMetadata {
            claimed,
        }),
        (SendPhase::WriteMetadata { claimed }).after(word, n) == (SendPhase::StampSequence {
            claimed,
        }),
        (SendPhase::StampSequence { claimed }).after(word, n) == (SendPhase::MarkReady { claimed }),
        (SendPhase::MarkReady { claimed }).after(word, n) is Sent,
        protocol::slot_of(claimed, n) == claimed as int % n as int,
        claimed < u64::MAX ==> protocol::next_position(claimed) == claimed + 1,
        claimed == u64::MAX ==> protocol::next_position(claimed) == 0,
{
    vstd::arithmetic::div_mod::lemma_mod_bound(claimed as int, n as int);
}

/// A receiver finds the channel empty exactly if no position is taken, and
/// the next message not ready exactly if its slot is not published. It takes
/// no message whose slot tells of another position, and gives the slot back
/// before it moves the head on.
pub proof fn law_how_a_receiver_looks(head: u64, word: u64)
    ensures
        RecvPhase::LoadHead.after(word) == (RecvPhase::LoadTail { head: word }),
        head >= word <==> (RecvPhase::LoadTail { head }).after(word) is Empty,
        head < word ==> (RecvPhase::LoadTail { head }).after(word) == (RecvPhase::LoadReady { head }),
        word == 0 <==> (RecvPhase::LoadReady { head }).after(word) is NotReady,
        word != 0 ==> (RecvPhase::LoadReady { head }).after(word) == (RecvPhase::LoadSequence {
            head,
        }),
        word == head ==> (RecvPhase::LoadSequence { head }).after(word) == (
        RecvPhase::CopyPayload { head }),
        word != head ==> (RecvPhase::LoadSequence { head }).after(word) == (RecvPhase::Mismatch {
            head,
            observed: word,
        }),
        (RecvPhase::CopyPayload { head }).after(word) == (RecvPhase::ClearReady { head }),
        (RecvPhase::ClearReady { head }).after(word) == (RecvPhase::AdvanceHead { head }),
        (RecvPhase::AdvanceHead { head }).after(word) is Got,
{
}

/// One attempt to receive tells an empty channel from a message that is not
/// published yet, and takes the message at the head and no other. Only that
/// changes the queue.
pub proof fn law_what_one_attempt_tells(
    q: QueueView,
    n: u32,
    r: core::result::Result<RecvOutcome, TesseraChannelError>,
    after: QueueView,
)
    requires
        n > 0,
        q.slots.len() == n,
        channel::received(q, n, r, after),
    ensures
        ({
            let s = q.slots[q.head as int % n as int];
            &&& (r matches Ok(o) && o is Empty) <==> q.head >= q.tail
            &&& (r matches Ok(o) && o is NotReady) <==> q.head < q.tail && s.ready == 0
            &&& r is Err <==> q.head < q.tail && s.ready != 0 && s.sequence != q.head
            &&& (r matches Ok(RecvOutcome::Got(m)) ==> m@ == s.message() && after.head == q.head
                + 1 && after.tail == q.tail)
            &&& !(r matches Ok(o) && o is Got) ==> after == q
        }),
{
    vstd::arithmetic::div_mod::lemma_mod_bound(q.head as int, n as int);
}

/// A sender that refuses a segment says first that it is of another kind,
/// then that format or geometry differ, and then that the description does.
pub proof fn law_what_a_refused_segment_is_told(
    h: HeaderView,
    digest: Seq<u8>,
    n: u32,
    size: u32,
    e: TesseraChannelError,
)
    requires
        region::refused_with(h, digest, n, size, e),
    ensures
        e is HeaderMismatch <==> h.magic == header::MAGIC && (h.format_version
            != header::FORMAT_VERSION || h.slot_count != n || h.slot_size_bytes != size),
        e is HeaderMismatch || e is Region,
        e matches TesseraChannelError::HeaderMismatch {
            message,
            expected_format,
            found_format,
            expected_count,
            found_count,
            expected_size,
            found_size,
        } ==> expected_format == header::FORMAT_VERSION && found_format == h.format_version
            && expected_count == n && found_count == h.slot_count && expected_size == size
            && found_size == h.slot_size_bytes,
{
}

/// A channel's segment is found by its description alone: the name is made
/// of the first half of the description's digest.
pub proof fn law_a_channel_is_found_by_its_description(c: ChannelConfig)
    ensures
        channel::config_name(c) == "/tessera-channel-"@ + crate::text::hex_bytes(
            crate::digest::blake3_digest(vstd::utf8::encode_utf8(c.description@)).take(16),
        ),
{
}

} // verus!
