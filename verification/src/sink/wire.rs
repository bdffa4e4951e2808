//! Fields of messages on the wire.
//!
//! Integers are little-endian and of fixed width. A string is its length in
//! bytes as a 32-bit integer, followed by its UTF-8 bytes. A descriptor is
//! its four fields. Reading checks every field against the end of the
//! message.
use vstd::prelude::*;

use vstd::utf8;

use crate::bytes;
use crate::bytes::{copy_out, push_bytes, push_le, read_array, read_u32, read_u64};
use crate::pool::{Descriptor, LeaseId};
use crate::sink::error;
use crate::sink::error::{Result, TesseraSinkError};
use crate::text;

verus! {

/// What std says of bytes that are not UTF-8.
pub uninterp spec fn utf8_error_text(b: Seq<u8>) -> Seq<char>;

/// `String::from_utf8` of std, with its error in words: the string that the
/// bytes encode, where they are valid UTF-8. Of the words the contract
/// claims only that they depend on nothing but the bytes.
#[verifier::external_body]
pub(crate) fn string_from_utf8(b: Vec<u8>) -> (r: core::result::Result<String, String>)
    ensures
        match r {
            Ok(s) => utf8::valid_utf8(b@) && s@ == utf8::decode_utf8(b@),
            Err(words) => !utf8::valid_utf8(b@) && words@ == utf8_error_text(b@),
        },
{
    String::from_utf8(b).map_err(|e| format!("{e}"))
}

/// A 32-bit integer on the wire.
pub open spec fn u32_bytes(v: u32) -> Seq<u8> {
    bytes::le_bytes(v as nat, 4)
}

/// A 64-bit integer on the wire.
pub open spec fn u64_bytes(v: u64) -> Seq<u8> {
    bytes::le_bytes(v as nat, 8)
}

/// A 128-bit integer on the wire.
pub open spec fn u128_bytes(v: u128) -> Seq<u8> {
    bytes::le_bytes(v as nat, 16)
}

/// A truth value on the wire.
pub open spec fn bool_bytes(v: bool) -> Seq<u8> {
    seq![
        if v {
            1u8
        } else {
            0u8
        },
    ]
}

/// A string on the wire. Only the low 32 bits of its length are kept.
pub open spec fn str_bytes(s: Seq<char>) -> Seq<u8> {
    u32_bytes(utf8::encode_utf8(s).len() as u32) + utf8::encode_utf8(s)
}

/// A descriptor on the wire.
pub open spec fn descriptor_bytes(d: Descriptor) -> Seq<u8> {
    u32_bytes(d.slot_index) + d.lease_id.bytes() + u64_bytes(d.generation) + u32_bytes(d.size_bytes)
}

/// What reading a field at some place gives: the value and the place behind
/// it, or why the message is refused.
pub enum Field<T> {
    /// The value, and where the next field begins.
    At(T, int),
    /// Why there is none.
    Stop(Seq<char>),
}

/// Words for a message that ends too early.
pub open spec fn truncated_words(n: int, pos: int, len: int) -> Seq<char> {
    "truncated message: need "@ + text::dec(n as nat) + " bytes at offset "@ + text::dec(pos as nat)
        + ", only "@ + text::dec((len - pos) as nat) + " remain"@
}

/// Words for a message that goes on too long.
pub open spec fn trailing_words(pos: int, len: int) -> Seq<char> {
    "trailing bytes after message: consumed "@ + text::dec(pos as nat) + ", total "@ + text::dec(
        len as nat,
    )
}

/// `n` raw bytes at `pos`.
pub open spec fn raw_field(b: Seq<u8>, pos: int, n: int) -> Field<Seq<u8>> {
    if pos + n > usize::MAX {
        Field::Stop("length overflow while decoding"@)
    } else if pos + n > b.len() {
        Field::Stop(truncated_words(n, pos, b.len() as int))
    } else {
        Field::At(bytes::range(b, pos, n), pos + n)
    }
}

/// A byte at `pos`.
pub open spec fn u8_field(b: Seq<u8>, pos: int) -> Field<u8> {
    match raw_field(b, pos, 1) {
        Field::At(s, next) => Field::At(s[0], next),
        Field::Stop(words) => Field::Stop(words),
    }
}

/// A truth value at `pos`.
pub open spec fn bool_field(b: Seq<u8>, pos: int) -> Field<bool> {
    match raw_field(b, pos, 1) {
        Field::At(s, next) => Field::At(s[0] != 0, next),
        Field::Stop(words) => Field::Stop(words),
    }
}

/// A 32-bit integer at `pos`.
pub open spec fn u32_field(b: Seq<u8>, pos: int) -> Field<u32> {
    match raw_field(b, pos, 4) {
        Field::At(s, next) => Field::At(bytes::le_value(s) as u32, next),
        Field::Stop(words) => Field::Stop(words),
    }
}

/// A 64-bit integer at `pos`.
pub open spec fn u64_field(b: Seq<u8>, pos: int) -> Field<u64> {
    match raw_field(b, pos, 8) {
        Field::At(s, next) => Field::At(bytes::le_value(s) as u64, next),
        Field::Stop(words) => Field::Stop(words),
    }
}

/// A 128-bit integer at `pos`.
pub open spec fn u128_field(b: Seq<u8>, pos: int) -> Field<u128> {
    match raw_field(b, pos, 16) {
        Field::At(s, next) => Field::At(bytes::le_value(s) as u128, next),
        Field::Stop(words) => Field::Stop(words),
    }
}

/// A string at `pos`.
pub open spec fn str_field(b: Seq<u8>, pos: int) -> Field<Seq<char>> {
    match u32_field(b, pos) {
        Field::At(len, next) => match raw_field(b, next, len as int) {
            Field::At(s, end) => if utf8::valid_utf8(s) {
                Field::At(utf8::decode_utf8(s), end)
            } else {
                Field::Stop("invalid utf-8 in string field: "@ + utf8_error_text(s))
            },
            Field::Stop(words) => Field::Stop(words),
        },
        Field::Stop(words) => Field::Stop(words),
    }
}

/// A descriptor at `pos`.
pub open spec fn descriptor_field(b: Seq<u8>, pos: int) -> Field<Descriptor> {
    match u32_field(b, pos) {
        Field::At(slot_index, p1) => match raw_field(b, p1, 16) {
            Field::At(id, p2) => match u64_field(b, p2) {
                Field::At(generation, p3) => match u32_field(b, p3) {
                    Field::At(size_bytes, p4) => Field::At(
                        Descriptor {
                            slot_index,
                            lease_id: LeaseId::of(id),
                            generation,
                            size_bytes,
                        },
                        p4,
                    ),
                    Field::Stop(words) => Field::Stop(words),
                },
                Field::Stop(words) => Field::Stop(words),
            },
            Field::Stop(words) => Field::Stop(words),
        },
        Field::Stop(words) => Field::Stop(words),
    }
}

/// A message being written.
pub struct Writer {
    buf: Vec<u8>,
}

impl View for Writer {
    type V = Seq<u8>;

    closed spec fn view(&self) -> Seq<u8> {
        self.buf@
    }
}

impl Writer {
    /// An empty message.
    pub fn new() -> (w: Writer)
        ensures
            w@ == Seq::<u8>::empty(),
    {
        Writer { buf: Vec::new() }
    }

    /// The bytes of the message.
    pub fn into_inner(self) -> (b: Vec<u8>)
        ensures
            b@ == self@,
    {
        self.buf
    }

    /// Adds a byte.
    pub fn put_u8(&mut self, v: u8)
        ensures
            final(self)@ == old(self)@ + seq![v],
    {
        let ghost before = self.buf@;
        self.buf.push(v);
        assert(self.buf@ =~= before + seq![v]);
    }

    /// Adds a truth value.
    pub fn put_bool(&mut self, v: bool)
        ensures
            final(self)@ == old(self)@ + bool_bytes(v),
    {
        let b: u8 = if v {
            1
        } else {
            0
        };
        self.put_u8(b);
    }

    /// Adds a 32-bit integer.
    pub fn put_u32(&mut self, v: u32)
        ensures
            final(self)@ == old(self)@ + u32_bytes(v),
    {
        push_le(&mut self.buf, v as u64, 4);
    }

    /// Adds a 64-bit integer.
    pub fn put_u64(&mut self, v: u64)
        ensures
            final(self)@ == old(self)@ + u64_bytes(v),
    {
        push_le(&mut self.buf, v, 8);
    }

    /// Adds a 128-bit integer.
    pub fn put_u128(&mut self, v: u128)
        ensures
            final(self)@ == old(self)@ + u128_bytes(v),
    {
        let ghost before = self.buf@;
        let low: u64 = (v % 0x1_0000_0000_0000_0000) as u64;
        let high: u64 = (v / 0x1_0000_0000_0000_0000) as u64;
        push_le(&mut self.buf, low, 8);
        push_le(&mut self.buf, high, 8);
        proof {
            bytes::lemma_pow256();
            bytes::lemma_le_split(v as nat, 8, 8);
            bytes::lemma_le_low(v as nat, 8);
            assert(self.buf@ =~= before + u128_bytes(v));
        }
    }

    /// Adds raw bytes.
    pub fn put_raw(&mut self, b: &[u8])
        ensures
            final(self)@ == old(self)@ + b@,
    {
        push_bytes(&mut self.buf, b);
    }

    /// Adds a string.
    pub fn put_str(&mut self, s: &str)
        ensures
            final(self)@ == old(self)@ + str_bytes(s@),
    {
        let ghost before = self@;
        let b = s.as_bytes();
        self.put_u32(#[verifier::truncate] (b.len() as u32));
        self.put_raw(b);
        assert(self@ =~= before + str_bytes(s@));
    }

    /// Adds a descriptor.
    pub fn put_descriptor(&mut self, d: &Descriptor)
        ensures
            final(self)@ == old(self)@ + descriptor_bytes(*d),
    {
        let ghost before = self@;
        self.put_u32(d.slot_index());
        self.put_raw(d.lease_id().to_bytes().as_slice());
        self.put_u64(d.generation());
        self.put_u32(d.size_bytes());
        assert(self@ =~= before + descriptor_bytes(*d));
    }
}

/// A message being read.
pub struct Reader<'a> {
    buf: &'a [u8],
    pos: usize,
}

impl<'a> Reader<'a> {
    /// The whole message.
    pub closed spec fn bytes(&self) -> Seq<u8> {
        self.buf@
    }

    /// Where the next field begins.
    pub closed spec fn pos(&self) -> int {
        self.pos as int
    }

    /// The place is in the message.
    pub open spec fn wf(&self) -> bool {
        0 <= self.pos() <= self.bytes().len() <= usize::MAX
    }

    /// Begins to read a message.
    pub fn new(buf: &'a [u8]) -> (r: Reader<'a>)
        ensures
            r.bytes() == buf@,
            r.pos() == 0,
            r.wf(),
    {
        assert(buf@.len() == buf.len());
        Reader { buf, pos: 0 }
    }

    /// Moves over `n` bytes and returns where they begin.
    fn take(&mut self, n: usize) -> (r: Result<usize>)
        requires
            old(self).wf(),
        ensures
            final(self).wf(),
            final(self).bytes() == old(self).bytes(),
            match raw_field(old(self).bytes(), old(self).pos(), n as int) {
                Field::At(_, next) => r == Ok::<usize, TesseraSinkError>(old(self).pos() as usize)
                    && final(self).pos() == next,
                Field::Stop(words) => r matches Err(e) && error::is_protocol(e, words),
            },
    {
        let at: usize = self.pos;
        let end: usize = match at.checked_add(n) {
            Some(end) => end,
            None => {
                return Err(
                    TesseraSinkError::Protocol(String::from_str("length overflow while decoding")),
                );
            },
        };
        if end > self.buf.len() {
            let mut words = String::from_str("truncated message: need ");
            text::push_dec(&mut words, n as u64);
            words.append(" bytes at offset ");
            text::push_dec(&mut words, at as u64);
            words.append(", only ");
            text::push_dec(&mut words, (self.buf.len() - at) as u64);
            words.append(" remain");
            return Err(TesseraSinkError::Protocol(words));
        }
        self.pos = end;
        Ok(at)
    }

    /// Reads a byte.
    pub fn get_u8(&mut self) -> (r: Result<u8>)
        requires
            old(self).wf(),
        ensures
            final(self).wf(),
            final(self).bytes() == old(self).bytes(),
            match u8_field(old(self).bytes(), old(self).pos()) {
                Field::At(v, next) => r == Ok::<u8, TesseraSinkError>(v) && final(self).pos()
                    == next,
                Field::Stop(words) => r matches Err(e) && error::is_protocol(e, words),
            },
    {
        match self.take(1) {
            Ok(at) => Ok(self.buf[at]),
            Err(e) => Err(e),
        }
    }

    /// Reads a truth value: every byte but zero is true.
    pub fn get_bool(&mut self) -> (r: Result<bool>)
        requires
            old(self).wf(),
        ensures
            final(self).wf(),
            final(self).bytes() == old(self).bytes(),
            match bool_field(old(self).bytes(), old(self).pos()) {
                Field::At(v, next) => r == Ok::<bool, TesseraSinkError>(v) && final(self).pos()
                    == next,
                Field::Stop(words) => r matches Err(e) && error::is_protocol(e, words),
            },
    {
        match self.take(1) {
            Ok(at) => Ok(self.buf[at] != 0),
            Err(e) => Err(e),
        }
    }

    /// Reads a 32-bit integer.
    pub fn get_u32(&mut self) -> (r: Result<u32>)
        requires
            old(self).wf(),
        ensures
            final(self).wf(),
            final(self).bytes() == old(self).bytes(),
            match u32_field(old(self).bytes(), old(self).pos()) {
                Field::At(v, next) => r == Ok::<u32, TesseraSinkError>(v) && final(self).pos()
                    == next,
                Field::Stop(words) => r matches Err(e) && error::is_protocol(e, words),
            },
    {
        match self.take(4) {
            Ok(at) => Ok(read_u32(self.buf, at)),
            Err(e) => Err(e),
        }
    }

    /// Reads a 64-bit integer.
    pub fn get_u64(&mut self) -> (r: Result<u64>)
        requires
            old(self).wf(),
        ensures
            final(self).wf(),
            final(self).bytes() == old(self).bytes(),
            match u64_field(old(self).bytes(), old(self).pos()) {
                Field::At(v, next) => r == Ok::<u64, TesseraSinkError>(v) && final(self).pos()
                    == next,
                Field::Stop(words) => r matches Err(e) && error::is_protocol(e, words),
            },
    {
        match self.take(8) {
            Ok(at) => Ok(read_u64(self.buf, at)),
            Err(e) => Err(e),
        }
    }

    /// Reads a 128-bit integer.
    pub fn get_u128(&mut self) -> (r: Result<u128>)
        requires
            old(self).wf(),
        ensures
            final(self).wf(),
            final(self).bytes() == old(self).bytes(),
            match u128_field(old(self).bytes(), old(self).pos()) {
                Field::At(v, next) => r == Ok::<u128, TesseraSinkError>(v) && final(self).pos()
                    == next,
                Field::Stop(words) => r matches Err(e) && error::is_protocol(e, words),
            },
    {
        match self.take(16) {
            Ok(at) => {
                let low: u64 = read_u64(self.buf, at);
                let high: u64 = read_u64(self.buf, at + 8);
                proof {
                    lemma_u128_halves(self.buf@, at as int);
                }
                Ok(high as u128 * 0x1_0000_0000_0000_0000 + low as u128)
            },
            Err(e) => Err(e),
        }
    }

    /// Reads `N` raw bytes.
    pub fn get_arr<const N: usize>(&mut self) -> (r: Result<[u8; N]>)
        requires
            old(self).wf(),
        ensures
            final(self).wf(),
            final(self).bytes() == old(self).bytes(),
            match raw_field(old(self).bytes(), old(self).pos(), N as int) {
                Field::At(v, next) => r matches Ok(a) && a@ == v && final(self).pos() == next,
                Field::Stop(words) => r matches Err(e) && error::is_protocol(e, words),
            },
    {
        match self.take(N) {
            Ok(at) => Ok(read_array::<N>(self.buf, at)),
            Err(e) => Err(e),
        }
    }

    /// Reads a string.
    pub fn get_str(&mut self) -> (r: Result<String>)
        requires
            old(self).wf(),
        ensures
            final(self).wf(),
            final(self).bytes() == old(self).bytes(),
            match str_field(old(self).bytes(), old(self).pos()) {
                Field::At(v, next) => r matches Ok(s) && s@ == v && final(self).pos() == next,
                Field::Stop(words) => r matches Err(e) && error::is_protocol(e, words),
            },
    {
        let len: u32 = match self.get_u32() {
            Ok(len) => len,
            Err(e) => return Err(e),
        };
        let at: usize = match self.take(len as usize) {
            Ok(at) => at,
            Err(e) => return Err(e),
        };
        match string_from_utf8(copy_out(self.buf, at, len as usize)) {
            Ok(s) => Ok(s),
            Err(why) => {
                let mut words = String::from_str("invalid utf-8 in string field: ");
                words.append(why.as_str());
                Err(TesseraSinkError::Protocol(words))
            },
        }
    }

    /// Reads a descriptor.
    pub fn get_descriptor(&mut self) -> (r: Result<Descriptor>)
        requires
            old(self).wf(),
        ensures
            final(self).wf(),
            final(self).bytes() == old(self).bytes(),
            match descriptor_field(old(self).bytes(), old(self).pos()) {
                Field::At(v, next) => r == Ok::<Descriptor, TesseraSinkError>(v)
                    && final(self).pos() == next,
                Field::Stop(words) => r matches Err(e) && error::is_protocol(e, words),
            },
    {
        let slot_index: u32 = match self.get_u32() {
            Ok(v) => v,
            Err(e) => return Err(e),
        };
        let id: [u8; 16] = match self.get_arr::<16>() {
            Ok(v) => v,
            Err(e) => return Err(e),
        };
        let generation: u64 = match self.get_u64() {
            Ok(v) => v,
            Err(e) => return Err(e),
        };
        let size_bytes: u32 = match self.get_u32() {
            Ok(v) => v,
            Err(e) => return Err(e),
        };
        Ok(Descriptor::new(slot_index, LeaseId::from_bytes(id), generation, size_bytes))
    }

    /// Refuses a message that goes on behind its last field.
    pub fn expect_consumed(&self) -> (r: Result<()>)
        requires
            self.wf(),
        ensures
            if self.pos() == self.bytes().len() {
                r is Ok
            } else {
                r matches Err(e) && error::is_protocol(
                    e,
                    trailing_words(self.pos(), self.bytes().len() as int),
                )
            },
    {
        if self.pos != self.buf.len() {
            let mut words = String::from_str("trailing bytes after message: consumed ");
            text::push_dec(&mut words, self.pos as u64);
            words.append(", total ");
            text::push_dec(&mut words, self.buf.len() as u64);
            return Err(TesseraSinkError::Protocol(words));
        }
        Ok(())
    }
}

/// A 128-bit integer is its two halves.
proof fn lemma_u128_halves(b: Seq<u8>, at: int)
    requires
        0 <= at,
        at + 16 <= b.len(),
    ensures
        bytes::le_value(bytes::range(b, at, 16)) == bytes::le_value(bytes::range(b, at + 8, 8))
            * 0x1_0000_0000_0000_0000 + bytes::le_value(bytes::range(b, at, 8)),
        bytes::le_value(bytes::range(b, at, 8)) <= u64::MAX,
        bytes::le_value(bytes::range(b, at + 8, 8)) <= u64::MAX,
        bytes::le_value(bytes::range(b, at, 16)) <= u128::MAX,
{
    let low = bytes::range(b, at, 8);
    let high = bytes::range(b, at + 8, 8);
    let all = bytes::range(b, at, 16);
    bytes::lemma_pow256();
    bytes::lemma_le_bytes_of_value(low);
    bytes::lemma_le_bytes_of_value(high);
    bytes::lemma_le_bytes_of_value(all);
    let v = bytes::le_value(high) * 0x1_0000_0000_0000_0000 + bytes::le_value(low);
    bytes::lemma_le_split(v, 8, 8);
    bytes::lemma_le_low(v, 8);
    assert(bytes::le_bytes(v, 16) =~= all);
    bytes::lemma_le_round_trip(v, 16);
}

/// What was put into a message is read there: a byte string `s` between
/// what precedes and what follows it.
pub proof fn lemma_raw_round_trip(pre: Seq<u8>, s: Seq<u8>, post: Seq<u8>)
    requires
        (pre + s + post).len() <= usize::MAX,
    ensures
        raw_field(pre + s + post, pre.len() as int, s.len() as int) == Field::At(
            s,
            (pre + s).len() as int,
        ),
{
    assert(bytes::range(pre + s + post, pre.len() as int, s.len() as int) =~= s);
}

/// Integers and truth values are read as they were put.
pub proof fn lemma_int_round_trip(pre: Seq<u8>, post: Seq<u8>, a: u32, b: u64, c: u128, d: bool)
    ensures
        (pre + u32_bytes(a) + post).len() <= usize::MAX ==> u32_field(
            pre + u32_bytes(a) + post,
            pre.len() as int,
        ) == Field::At(a, pre.len() as int + 4),
        (pre + u64_bytes(b) + post).len() <= usize::MAX ==> u64_field(
            pre + u64_bytes(b) + post,
            pre.len() as int,
        ) == Field::At(b, pre.len() as int + 8),
        (pre + u128_bytes(c) + post).len() <= usize::MAX ==> u128_field(
            pre + u128_bytes(c) + post,
            pre.len() as int,
        ) == Field::At(c, pre.len() as int + 16),
        (pre + bool_bytes(d) + post).len() <= usize::MAX ==> bool_field(
            pre + bool_bytes(d) + post,
            pre.len() as int,
        ) == Field::At(d, pre.len() as int + 1),
{
    bytes::lemma_int_round_trip(a, b);
    bytes::lemma_pow256();
    bytes::lemma_le_round_trip(c as nat, 16);
    if (pre + u32_bytes(a) + post).len() <= usize::MAX {
        lemma_raw_round_trip(pre, u32_bytes(a), post);
    }
    if (pre + u64_bytes(b) + post).len() <= usize::MAX {
        lemma_raw_round_trip(pre, u64_bytes(b), post);
    }
    if (pre + u128_bytes(c) + post).len() <= usize::MAX {
        lemma_raw_round_trip(pre, u128_bytes(c), post);
    }
    if (pre + bool_bytes(d) + post).len() <= usize::MAX {
        lemma_raw_round_trip(pre, bool_bytes(d), post);
    }
}

/// A string whose length fits is read as it was put.
pub proof fn lemma_str_round_trip(pre: Seq<u8>, s: Seq<char>, post: Seq<u8>)
    requires
        utf8::encode_utf8(s).len() <= u32::MAX,
        (pre + str_bytes(s) + post).len() <= usize::MAX,
    ensures
        str_bytes(s).len() == 4 + utf8::encode_utf8(s).len(),
        str_field(pre + str_bytes(s) + post, pre.len() as int) == Field::At(
            s,
            (pre + str_bytes(s)).len() as int,
        ),
{
    let e = utf8::encode_utf8(s);
    let n = e.len() as u32;
    let whole = pre + str_bytes(s) + post;
    bytes::lemma_int_round_trip(n, 0);
    assert(whole =~= pre + u32_bytes(n) + (e + post));
    lemma_int_round_trip(pre, e + post, n, 0, 0, false);
    assert(whole =~= (pre + u32_bytes(n)) + e + post);
    lemma_raw_round_trip(pre + u32_bytes(n), e, post);
    utf8::encode_utf8_valid_utf8(s);
    utf8::encode_utf8_decode_utf8(s);
}

/// A descriptor is read as it was put.
pub proof fn lemma_descriptor_round_trip(pre: Seq<u8>, d: Descriptor, post: Seq<u8>)
    requires
        (pre + descriptor_bytes(d) + post).len() <= usize::MAX,
    ensures
        descriptor_bytes(d).len() == 32,
        descriptor_field(pre + descriptor_bytes(d) + post, pre.len() as int) == Field::At(
            d,
            pre.len() as int + 32,
        ),
{
    let a = u32_bytes(d.slot_index);
    let id = d.lease_id.bytes();
    let g = u64_bytes(d.generation);
    let z = u32_bytes(d.size_bytes);
    let whole = pre + descriptor_bytes(d) + post;
    bytes::lemma_int_round_trip(d.slot_index, d.generation);
    bytes::lemma_int_round_trip(d.size_bytes, 0);
    bytes::lemma_int_round_trip(0, d.lease_id.high);
    bytes::lemma_int_round_trip(0, d.lease_id.low);
    crate::pool::law_lease_id_round_trip(d.lease_id, id);
    assert(whole =~= pre + a + (id + g + z + post));
    lemma_int_round_trip(pre, id + g + z + post, d.slot_index, 0, 0, false);
    assert(whole =~= (pre + a) + id + (g + z + post));
    lemma_raw_round_trip(pre + a, id, g + z + post);
    assert(whole =~= (pre + a + id) + g + (z + post));
    lemma_int_round_trip(pre + a + id, z + post, 0, d.generation, 0, false);
    assert(whole =~= (pre + a + id + g) + z + post);
    lemma_int_round_trip(pre + a + id + g, post, d.size_bytes, 0, 0, false);
}

/// How each field lies on the wire: integers with the lowest byte first, a
/// truth value as one byte, a string behind its length, a descriptor as
/// slot, lease, generation and length.
pub proof fn law_how_fields_lie(a: u32, b: u64, c: u128, v: bool, s: Seq<char>, d: Descriptor)
    ensures
        u32_bytes(a) == bytes::le_bytes(a as nat, 4),
        u64_bytes(b) == bytes::le_bytes(b as nat, 8),
        u128_bytes(c) == bytes::le_bytes(c as nat, 16),
        bool_bytes(v) == (if v {
            seq![1u8]
        } else {
            seq![0u8]
        }),
        utf8::encode_utf8(s).len() <= u32::MAX ==> str_bytes(s) == bytes::le_bytes(
            utf8::encode_utf8(s).len(),
            4,
        ) + utf8::encode_utf8(s),
        descriptor_bytes(d) == bytes::le_bytes(d.slot_index as nat, 4) + (bytes::le_bytes(
            d.lease_id.high as nat,
            8,
        ) + bytes::le_bytes(d.lease_id.low as nat, 8)) + bytes::le_bytes(d.generation as nat, 8)
            + bytes::le_bytes(d.size_bytes as nat, 4),
{
}

/// A truth value is false exactly if its byte is zero, and a string is
/// refused if its bytes are not UTF-8.
pub proof fn law_how_fields_are_read(b: Seq<u8>, pos: int)
    requires
        0 <= pos < b.len(),
        b.len() <= usize::MAX,
    ensures
        bool_field(b, pos) == Field::At(b[pos] != 0, pos + 1),
        u8_field(b, pos) == Field::At(b[pos], pos + 1),
        u32_field(b, pos) matches Field::At(len, next) ==> next == pos + 4 && (next + len
            <= b.len() && !utf8::valid_utf8(b.subrange(next, next + len)) ==> str_field(
            b,
            pos,
        ) is Stop),
{
}

} // verus!
