//! What the language bindings need beside the handles themselves: roles by
//! name, handles rebuilt from their parts, checks of loosely typed arguments
//! and how handles are shown.
use vstd::prelude::*;

use crate::bytes::read_array;
use crate::channel::ChannelRole;
use crate::pool::{Descriptor, Lease, LeaseId};
use crate::ring::{Event, ReaderStats};
use crate::text;

verus! {

/// A character in lower case, if it is an ASCII letter.
pub open spec fn lower_char(c: char) -> char {
    if 'A' <= c <= 'Z' {
        ((c as u32) + 32) as char
    } else {
        c
    }
}

/// A string with its ASCII letters in lower case.
pub open spec fn lower(s: Seq<char>) -> Seq<char> {
    Seq::new(s.len(), |i: int| lower_char(s[i]))
}

/// The lower case of an ASCII capital, as a string.
fn lower_letter(c: char) -> (r: &'static str)
    requires
        'A' <= c <= 'Z',
    ensures
        r@ == seq![lower_char(c)],
{
    proof {
        reveal_strlit("a");
        reveal_strlit("b");
        reveal_strlit("c");
        reveal_strlit("d");
        reveal_strlit("e");
        reveal_strlit("f");
        reveal_strlit("g");
        reveal_strlit("h");
        reveal_strlit("i");
        reveal_strlit("j");
        reveal_strlit("k");
        reveal_strlit("l");
        reveal_strlit("m");
        reveal_strlit("n");
        reveal_strlit("o");
        reveal_strlit("p");
        reveal_strlit("q");
        reveal_strlit("r");
        reveal_strlit("s");
        reveal_strlit("t");
        reveal_strlit("u");
        reveal_strlit("v");
        reveal_strlit("w");
        reveal_strlit("x");
        reveal_strlit("y");
        reveal_strlit("z");
    }
    let r: &'static str = match c {
        'A' => "a",
        'B' => "b",
        'C' => "c",
        'D' => "d",
        'E' => "e",
        'F' => "f",
        'G' => "g",
        'H' => "h",
        'I' => "i",
        'J' => "j",
        'K' => "k",
        'L' => "l",
        'M' => "m",
        'N' => "n",
        'O' => "o",
        'P' => "p",
        'Q' => "q",
        'R' => "r",
        'S' => "s",
        'T' => "t",
        'U' => "u",
        'V' => "v",
        'W' => "w",
        'X' => "x",
        'Y' => "y",
        _ => "z",
    };
    assert(r@ =~= seq![lower_char(c)]);
    r
}

/// A string with its ASCII letters in lower case.
fn to_lower(s: &str) -> (r: String)
    ensures
        r@ == lower(s@),
{
    let len: usize = s.unicode_len();
    let mut r = String::new();
    let mut i: usize = 0;
    while i < len
        invariant
            len == s@.len(),
            i <= len,
            r@ == lower(s@.take(i as int)),
        decreases len - i,
    {
        let c: char = s.get_char(i);
        if 'A' <= c && c <= 'Z' {
            r.append(lower_letter(c));
        } else {
            r.append(s.substring_char(i, i + 1));
        }
        i = i + 1;
        assert(r@ =~= lower(s@.take(i as int)));
    }
    assert(s@.take(len as int) =~= s@);
    r
}

/// The role that a name stands for.
pub open spec fn role_named(name: Seq<char>) -> Option<ChannelRole> {
    let s = lower(name);
    if s == "receiver"@ || s == "recv"@ || s == "consumer"@ {
        Some(ChannelRole::Receiver)
    } else if s == "sender"@ || s == "send"@ || s == "producer"@ {
        Some(ChannelRole::Sender)
    } else {
        None
    }
}

/// The role that a name stands for, in whatever case; otherwise what is
/// wrong with the name.
pub fn parse_role(name: &str) -> (r: core::result::Result<ChannelRole, String>)
    ensures
        match role_named(name@) {
            Some(role) => r == Ok::<ChannelRole, String>(role),
            None => r matches Err(words) && words@ == "invalid role "@ + text::debug_text(
                lower(name@),
            ) + ": expected 'receiver' or 'sender'"@,
        },
{
    let s = to_lower(name);
    let s = s.as_str();
    if text::same(s, "receiver") || text::same(s, "recv") || text::same(s, "consumer") {
        return Ok(ChannelRole::Receiver);
    }
    if text::same(s, "sender") || text::same(s, "send") || text::same(s, "producer") {
        return Ok(ChannelRole::Sender);
    }
    let mut words = String::from_str("invalid role ");
    words.append(text::debug_string(s).as_str());
    words.append(": expected 'receiver' or 'sender'");
    Err(words)
}

/// The name of a role.
pub open spec fn role_text(role: ChannelRole) -> Seq<char> {
    match role {
        ChannelRole::Receiver => "receiver"@,
        ChannelRole::Sender => "sender"@,
    }
}

/// The name of a role.
pub fn role_name(role: ChannelRole) -> (r: &'static str)
    ensures
        r@ == role_text(role),
{
    match role {
        ChannelRole::Receiver => "receiver",
        ChannelRole::Sender => "sender",
    }
}

/// A role's name stands for the role.
pub proof fn law_role_names_are_read_back(role: ChannelRole)
    ensures
        role_named(role_text(role)) == Some(role),
{
    reveal_strlit("receiver");
    reveal_strlit("recv");
    reveal_strlit("consumer");
    reveal_strlit("sender");
    assert(lower("receiver"@) =~= "receiver"@);
    assert(lower("sender"@) =~= "sender"@);
    assert("sender"@ != "receiver"@ && "sender"@ != "recv"@ && "sender"@ != "consumer"@) by {
        assert("sender"@.len() == 6);
    }
}

/// What is wrong with a lease identifier of another length.
pub open spec fn id_length_words() -> Seq<char> {
    "lease_id_bytes must be 16 bytes"@
}

/// A lease from its parts.
pub fn lease_from_bytes(slot_index: u32, generation: u64, lease_id: &[u8]) -> (r:
    core::result::Result<Lease, String>)
    ensures
        if lease_id@.len() == 16 {
            r == Ok::<Lease, String>(
                Lease { slot_index, lease_id: LeaseId::of(lease_id@), generation },
            )
        } else {
            r matches Err(words) && words@ == id_length_words()
        },
{
    if lease_id.len() != 16 {
        return Err(String::from_str("lease_id_bytes must be 16 bytes"));
    }
    let id: [u8; 16] = read_array::<16>(lease_id, 0);
    assert(id@ =~= lease_id@);
    Ok(Lease::new(slot_index, LeaseId::from_bytes(id), generation))
}

/// A descriptor from its parts.
pub fn descriptor_from_bytes(
    slot_index: u32,
    generation: u64,
    lease_id: &[u8],
    size_bytes: u32,
) -> (r: core::result::Result<Descriptor, String>)
    ensures
        if lease_id@.len() == 16 {
            r == Ok::<Descriptor, String>(
                Descriptor {
                    slot_index,
                    lease_id: LeaseId::of(lease_id@),
                    generation,
                    size_bytes,
                },
            )
        } else {
            r matches Err(words) && words@ == id_length_words()
        },
{
    if lease_id.len() != 16 {
        return Err(String::from_str("lease_id_bytes must be 16 bytes"));
    }
    let id: [u8; 16] = read_array::<16>(lease_id, 0);
    assert(id@ =~= lease_id@);
    Ok(Descriptor::new(slot_index, LeaseId::from_bytes(id), generation, size_bytes))
}

/// A lease and a descriptor are rebuilt from their parts as they were.
pub proof fn law_handles_are_rebuilt_from_their_parts(l: Lease, d: Descriptor)
    ensures
        l.lease_id.bytes().len() == 16,
        (Lease {
            slot_index: l.slot_index,
            lease_id: LeaseId::of(l.lease_id.bytes()),
            generation: l.generation,
        }) == l,
        d.lease_id.bytes().len() == 16,
        (Descriptor {
            slot_index: d.slot_index,
            lease_id: LeaseId::of(d.lease_id.bytes()),
            generation: d.generation,
            size_bytes: d.size_bytes,
        }) == d,
{
    let s = Seq::new(16, |i: int| 0u8);
    crate::pool::law_lease_id_round_trip(l.lease_id, s);
    crate::pool::law_lease_id_round_trip(d.lease_id, s);
}

/// Checks one entry of a section list: it must be a tuple, whose length is
/// given if it is one, and have three items.
pub fn check_section_entry(index: usize, tuple_len: Option<usize>) -> (r: core::result::Result<
    (),
    String,
>)
    ensures
        match tuple_len {
            None => r matches Err(words) && words@ == "sections["@ + text::dec(index as nat)
                + "] must be a 3-tuple (section_id, slot_count, slot_size_bytes)"@,
            Some(n) => if n == 3 {
                r is Ok
            } else {
                r matches Err(words) && words@ == "sections["@ + text::dec(index as nat)
                    + "] must be a 3-tuple, got len="@ + text::dec(n as nat)
            },
        },
{
    match tuple_len {
        None => {
            let mut words = String::from_str("sections[");
            text::push_dec(&mut words, index as u64);
            words.append("] must be a 3-tuple (section_id, slot_count, slot_size_bytes)");
            Err(words)
        },
        Some(n) => {
            if n == 3 {
                return Ok(());
            }
            let mut words = String::from_str("sections[");
            text::push_dec(&mut words, index as u64);
            words.append("] must be a 3-tuple, got len=");
            text::push_dec(&mut words, n as u64);
            Err(words)
        },
    }
}

/// What reading a slot of a slate gave.
#[derive(Clone, Debug)]
pub enum ReadResult {
    /// The slot was never written.
    Empty,
    /// Every attempt met a write.
    Torn,
    /// What the slot holds.
    Slot {
        /// Its bytes.
        bytes: Vec<u8>,
        /// Its sequence number.
        sequence: u64,
        /// Time of writing.
        timestamp_nanos: u64,
    },
}

/// What reading a slot of a slate gave, by name of the outcome.
#[derive(Clone, Debug)]
pub struct SlotRead {
    /// `"slot"`, `"empty"` or `"torn"`.
    pub state: String,
    /// The bytes of a slot that was read.
    pub value: Option<Vec<u8>>,
    /// Its sequence number, or 0.
    pub sequence: u64,
    /// Time of writing, or 0.
    pub timestamp_nanos: u64,
}

impl SlotRead {
    /// The outcome by name.
    pub fn from_result(r: ReadResult) -> (s: SlotRead)
        ensures
            match r {
                ReadResult::Empty => s.state@ == "empty"@ && s.value is None && s.sequence == 0
                    && s.timestamp_nanos == 0,
                ReadResult::Torn => s.state@ == "torn"@ && s.value is None && s.sequence == 0
                    && s.timestamp_nanos == 0,
                ReadResult::Slot { bytes, sequence, timestamp_nanos } => s.state@ == "slot"@
                    && s.value == Some(bytes) && s.sequence == sequence && s.timestamp_nanos
                    == timestamp_nanos,
            },
    {
        match r {
            ReadResult::Empty => SlotRead {
                state: String::from_str("empty"),
                value: None,
                sequence: 0,
                timestamp_nanos: 0,
            },
            ReadResult::Torn => SlotRead {
                state: String::from_str("torn"),
                value: None,
                sequence: 0,
                timestamp_nanos: 0,
            },
            ReadResult::Slot { bytes, sequence, timestamp_nanos } => SlotRead {
                state: String::from_str("slot"),
                value: Some(bytes),
                sequence,
                timestamp_nanos,
            },
        }
    }

    /// A slot was read.
    pub fn is_slot(&self) -> (r: bool)
        ensures
            r == (self.state@ == "slot"@),
    {
        text::same(self.state.as_str(), "slot")
    }

    /// The slot was never written.
    pub fn is_empty(&self) -> (r: bool)
        ensures
            r == (self.state@ == "empty"@),
    {
        text::same(self.state.as_str(), "empty")
    }

    /// Every attempt met a write.
    pub fn is_torn(&self) -> (r: bool)
        ensures
            r == (self.state@ == "torn"@),
    {
        text::same(self.state.as_str(), "torn")
    }

    /// How the outcome is shown. Without a value its length is shown as -1.
    pub fn repr(&self) -> (r: String)
        ensures
            r@ == "SlotRead(state="@ + text::debug_text(self.state@) + ", value_len="@ + (
            match self.value {
                Some(v) => text::dec(v@.len()),
                None => "-1"@,
            }) + ", sequence="@ + text::dec(self.sequence as nat) + ", timestamp_nanos="@
                + text::dec(self.timestamp_nanos as nat) + ")"@,
    {
        let mut r = String::from_str("SlotRead(state=");
        r.append(text::debug_string(self.state.as_str()).as_str());
        r.append(", value_len=");
        match &self.value {
            Some(v) => text::push_dec(&mut r, v.len() as u64),
            None => r.append("-1"),
        }
        r.append(", sequence=");
        text::push_dec(&mut r, self.sequence);
        r.append(", timestamp_nanos=");
        text::push_dec(&mut r, self.timestamp_nanos);
        r.append(")");
        r
    }
}

/// A truth value in words.
pub open spec fn bool_text(b: bool) -> Seq<char> {
    if b {
        "true"@
    } else {
        "false"@
    }
}

fn bool_str(b: bool) -> (r: &'static str)
    ensures
        r@ == bool_text(b),
{
    if b {
        "true"
    } else {
        "false"
    }
}

/// Whether a handle is open, in words.
pub open spec fn state_text(closed: bool) -> Seq<char> {
    if closed {
        "closed"@
    } else {
        "open"@
    }
}

fn state_str(closed: bool) -> (r: &'static str)
    ensures
        r@ == state_text(closed),
{
    if closed {
        "closed"
    } else {
        "open"
    }
}

/// How a lease is shown.
pub fn lease_repr(l: &Lease) -> (r: String)
    ensures
        r@ == "Lease(slot_index="@ + text::dec(l.slot_index as nat) + ", generation="@ + text::dec(
            l.generation as nat,
        ) + ", lease_id="@ + text::hex_bytes(l.lease_id.bytes()) + ")"@,
{
    let mut r = String::from_str("Lease(slot_index=");
    text::push_dec(&mut r, l.slot_index as u64);
    r.append(", generation=");
    text::push_dec(&mut r, l.generation);
    r.append(", lease_id=");
    r.append(l.lease_id.to_hex().as_str());
    r.append(")");
    r
}

/// How a descriptor is shown.
pub fn descriptor_repr(d: &Descriptor) -> (r: String)
    ensures
        r@ == "Descriptor(slot_index="@ + text::dec(d.slot_index as nat) + ", generation="@
            + text::dec(d.generation as nat) + ", size_bytes="@ + text::dec(d.size_bytes as nat)
            + ", lease_id="@ + text::hex_bytes(d.lease_id.bytes()) + ")"@,
{
    let mut r = String::from_str("Descriptor(slot_index=");
    text::push_dec(&mut r, d.slot_index as u64);
    r.append(", generation=");
    text::push_dec(&mut r, d.generation);
    r.append(", size_bytes=");
    text::push_dec(&mut r, d.size_bytes as u64);
    r.append(", lease_id=");
    r.append(d.lease_id.to_hex().as_str());
    r.append(")");
    r
}

/// How an event is shown: with the length of its bytes.
pub fn event_repr(e: &Event) -> (r: String)
    ensures
        r@ == "Event(section_id="@ + text::dec(e.section_id as nat) + ", position="@ + text::dec(
            e.position as nat,
        ) + ", timestamp_nanos="@ + text::dec(e.timestamp_nanos as nat) + ", payload_len="@
            + text::dec(e.payload@.len()) + ")"@,
{
    let mut r = String::from_str("Event(section_id=");
    text::push_dec(&mut r, e.section_id as u64);
    r.append(", position=");
    text::push_dec(&mut r, e.position);
    r.append(", timestamp_nanos=");
    text::push_dec(&mut r, e.timestamp_nanos);
    r.append(", payload_len=");
    text::push_dec(&mut r, e.payload.len() as u64);
    r.append(")");
    r
}

/// How a reader's counts are shown.
pub fn reader_stats_repr(s: &ReaderStats) -> (r: String)
    ensures
        r@ == "ReaderStats(section_id="@ + text::dec(s.section_id as nat) + ", cursor="@
            + text::dec(s.cursor as nat) + ", latest="@ + text::dec(s.latest as nat)
            + ", dropped="@ + text::dec(s.dropped as nat) + ")"@,
{
    let mut r = String::from_str("ReaderStats(section_id=");
    text::push_dec(&mut r, s.section_id as u64);
    r.append(", cursor=");
    text::push_dec(&mut r, s.cursor);
    r.append(", latest=");
    text::push_dec(&mut r, s.latest);
    r.append(", dropped=");
    text::push_dec(&mut r, s.dropped);
    r.append(")");
    r
}

/// How a ring's writer is shown.
pub fn writer_repr(closed: bool) -> (r: String)
    ensures
        r@ == "Writer("@ + state_text(closed) + ")"@,
{
    let mut r = String::from_str("Writer(");
    r.append(state_str(closed));
    r.append(")");
    r
}

/// How a ring's reader is shown.
pub fn reader_repr(section_id: u32, cursor: u64, dropped: u64, closed: bool) -> (r: String)
    ensures
        r@ == "Reader(section_id="@ + text::dec(section_id as nat) + ", cursor="@ + text::dec(
            cursor as nat,
        ) + ", dropped="@ + text::dec(dropped as nat) + ", ring_state="@ + state_text(closed)
            + ")"@,
{
    let mut r = String::from_str("Reader(section_id=");
    text::push_dec(&mut r, section_id as u64);
    r.append(", cursor=");
    text::push_dec(&mut r, cursor);
    r.append(", dropped=");
    text::push_dec(&mut r, dropped);
    r.append(", ring_state=");
    r.append(state_str(closed));
    r.append(")");
    r
}

/// How a ring is shown.
pub fn ring_repr(is_owner: bool, closed: bool) -> (r: String)
    ensures
        r@ == "Ring(is_owner="@ + bool_text(is_owner) + ", closed="@ + bool_text(closed) + ")"@,
{
    let mut r = String::from_str("Ring(is_owner=");
    r.append(bool_str(is_owner));
    r.append(", closed=");
    r.append(bool_str(closed));
    r.append(")");
    r
}

/// How a channel is shown.
pub fn channel_repr(role: ChannelRole, slot_count: u32, slot_size_bytes: u32, closed: bool) -> (r:
    String)
    ensures
        r@ == "Channel(role="@ + text::debug_text(role_text(role)) + ", slot_count="@ + text::dec(
            slot_count as nat,
        ) + ", slot_size_bytes="@ + text::dec(slot_size_bytes as nat) + ", closed="@ + bool_text(
            closed,
        ) + ")"@,
{
    let mut r = String::from_str("Channel(role=");
    r.append(text::debug_string(role_name(role)).as_str());
    r.append(", slot_count=");
    text::push_dec(&mut r, slot_count as u64);
    r.append(", slot_size_bytes=");
    text::push_dec(&mut r, slot_size_bytes as u64);
    r.append(", closed=");
    r.append(bool_str(closed));
    r.append(")");
    r
}

/// How a sink is shown.
pub fn sink_repr(description: &str, worker_count: u32, closed: bool) -> (r: String)
    ensures
        r@ == "Sink(description="@ + text::debug_text(description@) + ", worker_count="@
            + text::dec(worker_count as nat) + ", closed="@ + bool_text(closed) + ")"@,
{
    let mut r = String::from_str("Sink(description=");
    r.append(text::debug_string(description).as_str());
    r.append(", worker_count=");
    text::push_dec(&mut r, worker_count as u64);
    r.append(", closed=");
    r.append(bool_str(closed));
    r.append(")");
    r
}

/// How the counters of a slate are shown.
pub fn slate_header_repr(writer_seq: u64, last_update_ns: u64) -> (r: String)
    ensures
        r@ == "Header(writer_seq="@ + text::dec(writer_seq as nat) + ", last_update_ns="@
            + text::dec(last_update_ns as nat) + ")"@,
{
    let mut r = String::from_str("Header(writer_seq=");
    text::push_dec(&mut r, writer_seq);
    r.append(", last_update_ns=");
    text::push_dec(&mut r, last_update_ns);
    r.append(")");
    r
}

/// How a slate is shown.
pub fn slate_repr(is_owner: bool, slot_count: u32, slot_size_bytes: u32, closed: bool) -> (r:
    String)
    ensures
        r@ == "Slate(is_owner="@ + bool_text(is_owner) + ", slot_count="@ + text::dec(
            slot_count as nat,
        ) + ", slot_size_bytes="@ + text::dec(slot_size_bytes as nat) + ", closed="@ + bool_text(
            closed,
        ) + ")"@,
{
    let mut r = String::from_str("Slate(is_owner=");
    r.append(bool_str(is_owner));
    r.append(", slot_count=");
    text::push_dec(&mut r, slot_count as u64);
    r.append(", slot_size_bytes=");
    text::push_dec(&mut r, slot_size_bytes as u64);
    r.append(", closed=");
    r.append(bool_str(closed));
    r.append(")");
    r
}

/// How a slate's reader is shown.
pub fn slate_reader_repr(slot_count: u32, slot_size_bytes: u32, closed: bool) -> (r: String)
    ensures
        r@ == "SlateReader(slot_count="@ + text::dec(slot_count as nat) + ", slot_size_bytes="@
            + text::dec(slot_size_bytes as nat) + ", closed="@ + bool_text(closed) + ")"@,
{
    let mut r = String::from_str("SlateReader(slot_count=");
    text::push_dec(&mut r, slot_count as u64);
    r.append(", slot_size_bytes=");
    text::push_dec(&mut r, slot_size_bytes as u64);
    r.append(", closed=");
    r.append(bool_str(closed));
    r.append(")");
    r
}

/// A name of a role is read in whatever case, and exactly six names are: of
/// the receiver, `receiver`, `recv` and `consumer`; of the sender, `sender`,
/// `send` and `producer`.
pub proof fn law_which_role_names_are_read(name: Seq<char>)
    ensures
        lower(name).len() == name.len(),
        forall|i: int|
            0 <= i < name.len() ==> (#[trigger] lower(name)[i]) as int == (if 65 <= name[i] as int
                && name[i] as int <= 90 {
                name[i] as int + 32
            } else {
                name[i] as int
            }),
        role_named(name) == Some(ChannelRole::Receiver) <==> lower(name) == "receiver"@ || lower(
            name,
        ) == "recv"@ || lower(name) == "consumer"@,
        role_named(name) == Some(ChannelRole::Sender) <==> lower(name) == "sender"@ || lower(name)
            == "send"@ || lower(name) == "producer"@,
{
    reveal_strlit("receiver");
    reveal_strlit("recv");
    reveal_strlit("consumer");
    reveal_strlit("sender");
    reveal_strlit("send");
    reveal_strlit("producer");
    let s = lower(name);
    assert("receiver"@[0] == 'r' && "recv"@[0] == 'r' && "consumer"@[0] == 'c');
    assert("sender"@[0] == 's' && "send"@[0] == 's' && "producer"@[0] == 'p');
}

/// How roles, truth values and states are written.
pub proof fn law_how_values_are_written()
    ensures
        role_text(ChannelRole::Receiver) == "receiver"@,
        role_text(ChannelRole::Sender) == "sender"@,
        bool_text(true) == "true"@,
        bool_text(false) == "false"@,
        state_text(true) == "closed"@,
        state_text(false) == "open"@,
{
}

} // verus!
