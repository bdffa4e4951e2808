//! Rendering of numbers, bytes and strings for names and messages.
use vstd::prelude::*;

use vstd::utf8;

use crate::bytes::bytes_eq;

verus! {

/// The character of a digit below sixteen, in lower case.
pub open spec fn digit_char(d: nat) -> char {
    if d < 10 {
        (48 + d) as char
    } else {
        (87 + d) as char
    }
}

/// `n` in decimal, without leading zeros.
pub open spec fn dec(n: nat) -> Seq<char>
    decreases n,
{
    if n < 10 {
        seq![digit_char(n)]
    } else {
        dec(n / 10).push(digit_char(n % 10))
    }
}

/// `i` in decimal, with a minus sign where it is negative.
pub open spec fn dec_int(i: int) -> Seq<char> {
    if i < 0 {
        "-"@ + dec((-i) as nat)
    } else {
        dec(i as nat)
    }
}

/// `n` in hexadecimal, without leading zeros.
pub open spec fn hex(n: nat) -> Seq<char>
    decreases n,
{
    if n < 16 {
        seq![digit_char(n)]
    } else {
        hex(n / 16).push(digit_char(n % 16))
    }
}

/// The `k` low-order hexadecimal digits of `n`.
pub open spec fn hex_fixed(n: nat, k: nat) -> Seq<char>
    decreases k,
{
    if k == 0 {
        Seq::empty()
    } else {
        hex_fixed(n / 16, (k - 1) as nat).push(digit_char(n % 16))
    }
}

/// Two hexadecimal digits for each byte, in order.
pub open spec fn hex_bytes(s: Seq<u8>) -> Seq<char> {
    Seq::new(
        2 * s.len(),
        |i: int|
            if i % 2 == 0 {
                digit_char((s[i / 2] / 16) as nat)
            } else {
                digit_char((s[i / 2] % 16) as nat)
            },
    )
}

/// The character is a decimal digit.
pub open spec fn is_digit(c: char) -> bool {
    '0' <= c <= '9'
}

/// Every character is a decimal digit.
pub open spec fn all_digits(s: Seq<char>) -> bool {
    forall|i: int| 0 <= i < s.len() ==> is_digit(#[trigger] s[i])
}

/// The number that decimal digits spell.
pub open spec fn digits_value(s: Seq<char>) -> nat
    decreases s.len(),
{
    if s.len() == 0 {
        0
    } else {
        digits_value(s.drop_last()) * 10 + (s.last() as nat - '0' as nat) as nat
    }
}

/// A number in decimal is a non-empty string of digits that spell it.
pub proof fn lemma_dec_round_trip(n: nat)
    ensures
        dec(n).len() > 0,
        all_digits(dec(n)),
        digits_value(dec(n)) == n,
    decreases n,
{
    let d = n % 10;
    assert(digit_char(d) as nat == 48 + d);
    if n >= 10 {
        lemma_dec_round_trip(n / 10);
        assert(dec(n).drop_last() =~= dec(n / 10));
        assert(dec(n).last() == digit_char(d));
    } else {
        assert(dec(n).drop_last() =~= Seq::<char>::empty());
        assert(dec(n).last() == digit_char(n));
        assert(digits_value(dec(n).drop_last()) == 0);
    }
}

/// What `{:?}` prints for a string: the string in double quotes, with some
/// characters escaped.
pub uninterp spec fn debug_text(s: Seq<char>) -> Seq<char>;

/// `format!("{:?}", s)` of std on a string slice. The contract claims only
/// that the text depends on nothing but the string.
#[verifier::external_body]
pub(crate) fn debug_string(s: &str) -> (r: String)
    ensures
        r@ == debug_text(s@),
{
    format!("{:?}", s)
}

/// The longest beginning of a string, in whole characters, that takes up no
/// more than `room` bytes in UTF-8.
pub open spec fn cut(s: Seq<char>, room: int) -> Seq<char>
    decreases s.len(),
{
    if s.len() == 0 || utf8::encode_utf8(s).len() <= room {
        s
    } else {
        cut(s.drop_last(), room)
    }
}

/// A string in UTF-8 is its beginning and its rest in UTF-8.
proof fn lemma_encode_parts(s: Seq<char>, k: int)
    requires
        0 <= k <= s.len(),
    ensures
        utf8::encode_utf8(s) == utf8::encode_utf8(s.take(k)) + utf8::encode_utf8(s.skip(k)),
    decreases k,
{
    if k == 0 {
        assert(s.skip(0) =~= s);
        assert(utf8::encode_utf8(s.take(0)) =~= Seq::<u8>::empty());
        assert(utf8::encode_utf8(s) =~= utf8::encode_utf8(s.take(0)) + utf8::encode_utf8(s));
    } else {
        let rest = s.drop_first();
        lemma_encode_parts(rest, k - 1);
        assert(s.take(k).drop_first() =~= rest.take(k - 1));
        assert(s.skip(k) =~= rest.skip(k - 1));
        assert(utf8::encode_utf8(s) =~= utf8::encode_utf8(s.take(k)) + utf8::encode_utf8(
            s.skip(k),
        ));
    }
}

/// Where a beginning of whole characters ends, a character begins.
proof fn lemma_beginning_ends_at_boundary(s: Seq<char>, k: int)
    requires
        0 <= k <= s.len(),
    ensures
        utf8::is_char_boundary(utf8::encode_utf8(s), utf8::encode_utf8(s.take(k)).len() as int),
    decreases k,
{
    let b = utf8::encode_utf8(s);
    utf8::encode_utf8_valid_utf8(s);
    if k == 0 {
        assert(utf8::encode_utf8(s.take(0)) =~= Seq::<u8>::empty());
    } else {
        let rest = s.drop_first();
        lemma_beginning_ends_at_boundary(rest, k - 1);
        lemma_encode_parts(s, k);
        utf8::encode_utf8_first_scalar(s);
        utf8::encode_utf8_valid_utf8(rest);
        assert(s.take(k).drop_first() =~= rest.take(k - 1));
        assert(utf8::pop_first_scalar(b) =~= utf8::encode_utf8(rest));
    }
}

/// A beginning that fits, while no longer one does, is the cut.
proof fn lemma_cut(s: Seq<char>, k: int, room: int)
    requires
        0 <= k <= s.len(),
        utf8::encode_utf8(s.take(k)).len() <= room,
        forall|j: int| k < j <= s.len() ==> utf8::encode_utf8(#[trigger] s.take(j)).len() > room,
    ensures
        cut(s, room) == s.take(k),
    decreases s.len(),
{
    assert(s.take(s.len() as int) =~= s);
    if k < s.len() {
        let t = s.drop_last();
        assert(t.take(k) =~= s.take(k));
        assert forall|j: int| k < j <= t.len() implies utf8::encode_utf8(
            #[trigger] t.take(j),
        ).len() > room by {
            assert(t.take(j) =~= s.take(j));
        }
        lemma_cut(t, k, room);
    }
}

/// The cut fits, and is a beginning of the string; what fits is not cut.
pub proof fn lemma_cut_fits(s: Seq<char>, room: int)
    requires
        room >= 0,
    ensures
        utf8::encode_utf8(cut(s, room)).len() <= room,
        cut(s, room).len() <= s.len(),
        cut(s, room) == s.take(cut(s, room).len() as int),
        utf8::encode_utf8(s).len() <= room ==> cut(s, room) == s,
    decreases s.len(),
{
    if s.len() == 0 || utf8::encode_utf8(s).len() <= room {
        assert(s.take(s.len() as int) =~= s);
    } else {
        let t = s.drop_last();
        lemma_cut_fits(t, room);
        let k = cut(t, room).len() as int;
        assert(t.take(k) =~= s.take(k));
    }
}

/// The longest beginning of a string, in whole characters, that takes up no
/// more than `room` bytes.
pub fn cut_to(s: &str, room: usize) -> (r: &str)
    ensures
        r@ == cut(s@, room as int),
{
    let ghost b = utf8::encode_utf8(s@);
    let len: usize = s.as_bytes().len();
    if len <= room {
        return s;
    }
    proof {
        utf8::encode_utf8_valid_utf8(s@);
        utf8::is_char_boundary_start_end_of_seq(b);
    }
    let mut i: usize = room;
    while !s.is_char_boundary(i)
        invariant
            i <= room < len,
            len == b.len(),
            b == utf8::encode_utf8(s@),
            utf8::is_char_boundary(b, 0),
            forall|j: int| i < j <= room ==> !utf8::is_char_boundary(b, j),
        decreases i,
    {
        i = i - 1;
    }
    let r = s.split_at(i).0;
    proof {
        utf8::decode_utf8_split(b, i as int);
        utf8::encode_utf8_decode_utf8(s@);
        utf8::encode_utf8_decode_utf8(r@);
        let k = r@.len() as int;
        assert(r@ =~= s@.take(k));
        assert forall|j: int| k < j <= s@.len() implies utf8::encode_utf8(
            #[trigger] s@.take(j),
        ).len() > room by {
            lemma_beginning_ends_at_boundary(s@, j);
            let t = s@.take(j);
            lemma_encode_parts(t, k);
            assert(t.take(k) =~= r@);
            assert(t.skip(k).len() > 0);
            lemma_encode_parts(s@, j);
            assert(utf8::encode_utf8(t.skip(k)).len() > 0);
        }
        lemma_cut(s@, k, room as int);
    }
    r
}

/// Whether two strings are the same.
pub fn same(a: &str, b: &str) -> (r: bool)
    ensures
        r == (a@ == b@),
{
    let r: bool = bytes_eq(a.as_bytes(), b.as_bytes());
    proof {
        utf8::encode_utf8_decode_utf8(a@);
        utf8::encode_utf8_decode_utf8(b@);
    }
    r
}

/// The one-character string of a digit below sixteen.
fn digit_str(d: u8) -> (r: &'static str)
    requires
        d < 16,
    ensures
        r@ == seq![digit_char(d as nat)],
{
    proof {
        reveal_strlit("0");
        reveal_strlit("1");
        reveal_strlit("2");
        reveal_strlit("3");
        reveal_strlit("4");
        reveal_strlit("5");
        reveal_strlit("6");
        reveal_strlit("7");
        reveal_strlit("8");
        reveal_strlit("9");
        reveal_strlit("a");
        reveal_strlit("b");
        reveal_strlit("c");
        reveal_strlit("d");
        reveal_strlit("e");
        reveal_strlit("f");
    }
    let r: &'static str = match d {
        0 => "0",
        1 => "1",
        2 => "2",
        3 => "3",
        4 => "4",
        5 => "5",
        6 => "6",
        7 => "7",
        8 => "8",
        9 => "9",
        10 => "a",
        11 => "b",
        12 => "c",
        13 => "d",
        14 => "e",
        _ => "f",
    };
    assert(r@ =~= seq![digit_char(d as nat)]);
    r
}

/// Appends `n` in decimal.
pub fn push_dec(out: &mut String, n: u64)
    ensures
        final(out)@ == old(out)@ + dec(n as nat),
    decreases n,
{
    let ghost before = out@;
    if n >= 10 {
        push_dec(out, n / 10);
    }
    out.append(digit_str((n % 10) as u8));
    assert(out@ =~= before + dec(n as nat));
}

/// Appends `n` in decimal.
pub fn push_dec_int(out: &mut String, n: i32)
    ensures
        final(out)@ == old(out)@ + dec_int(n as int),
{
    let ghost before = out@;
    if n < 0 {
        out.append("-");
        push_dec(out, (-(n as i64)) as u64);
        assert(out@ =~= before + dec_int(n as int));
    } else {
        push_dec(out, n as u64);
    }
}

/// Appends `n` in hexadecimal.
pub fn push_hex(out: &mut String, n: u64)
    ensures
        final(out)@ == old(out)@ + hex(n as nat),
    decreases n,
{
    let ghost before = out@;
    if n >= 16 {
        push_hex(out, n / 16);
    }
    out.append(digit_str((n % 16) as u8));
    assert(out@ =~= before + hex(n as nat));
}

/// Appends the `k` low-order hexadecimal digits of `n`.
pub fn push_hex_fixed(out: &mut String, n: u128, k: u32)
    ensures
        final(out)@ == old(out)@ + hex_fixed(n as nat, k as nat),
    decreases k,
{
    let ghost before = out@;
    if k > 0 {
        push_hex_fixed(out, n / 16, k - 1);
        out.append(digit_str((n % 16) as u8));
    }
    assert(out@ =~= before + hex_fixed(n as nat, k as nat));
}

/// Appends two hexadecimal digits for each byte.
pub fn push_hex_bytes(out: &mut String, bytes: &[u8])
    ensures
        final(out)@ == old(out)@ + hex_bytes(bytes@),
{
    let ghost before = out@;
    let len: usize = bytes.len();
    let mut i: usize = 0;
    assert(before + hex_bytes(bytes@.take(0)) =~= before);
    while i < len
        invariant
            len == bytes@.len(),
            i <= len,
            out@ == before + hex_bytes(bytes@.take(i as int)),
        decreases len - i,
    {
        let b: u8 = bytes[i];
        out.append(digit_str(b / 16));
        out.append(digit_str(b % 16));
        i = i + 1;
        assert(out@ =~= before + hex_bytes(bytes@.take(i as int)));
    }
    assert(bytes@.take(len as int) =~= bytes@);
}

/// Digits are written `0` to `9`, then `a` to `f`.
pub proof fn law_how_digits_are_written(d: nat)
    requires
        d < 16,
    ensures
        digit_char(d) == "0123456789abcdef"@[d as int],
{
    reveal_strlit("0123456789abcdef");
}

/// A number in decimal is spelt by its digits, has no leading zero, and a
/// minus sign exactly where it is negative.
pub proof fn law_how_numbers_are_written(n: nat)
    ensures
        dec(n).len() > 0,
        all_digits(dec(n)),
        digits_value(dec(n)) == n,
        dec(n)[0] == '0' <==> n == 0,
        dec_int(n as int) == dec(n),
        n > 0 ==> dec_int(-(n as int)) == seq!['-'] + dec(n),
    decreases n,
{
    lemma_dec_round_trip(n);
    reveal_strlit("-");
    assert("-"@ =~= seq!['-']);
    if n >= 10 {
        law_how_numbers_are_written(n / 10);
        assert(dec(n)[0] == dec(n / 10)[0]);
    }
}

/// Of a number in a fixed number of hexadecimal digits, each digit is the
/// one of its place, the highest first.
pub proof fn law_hexadecimal_places(n: nat, k: nat, i: nat)
    requires
        i < k,
    ensures
        hex_fixed(n, k).len() == k,
        hex_fixed(n, k)[k - 1 - i] == digit_char(
            ((n as int / vstd::arithmetic::power::pow(16, i)) % 16) as nat,
        ),
    decreases k,
{
    lemma_hex_fixed_len(n, k);
    lemma_hex_fixed_len(n / 16, (k - 1) as nat);
    vstd::arithmetic::power::lemma_pow0(16);
    if i > 0 {
        let j = (i - 1) as nat;
        law_hexadecimal_places(n / 16, (k - 1) as nat, j);
        vstd::arithmetic::power::lemma_pow_positive(16, j);
        vstd::arithmetic::power::lemma_pow_adds(16, 1, j);
        vstd::arithmetic::power::lemma_pow1(16);
        vstd::arithmetic::div_mod::lemma_div_denominator(
            n as int,
            16,
            vstd::arithmetic::power::pow(16, j),
        );
        assert(hex_fixed(n, k)[k - 1 - i] == hex_fixed(n / 16, (k - 1) as nat)[k - 1 - 1 - j]);
    }
}

proof fn lemma_hex_fixed_len(n: nat, k: nat)
    ensures
        hex_fixed(n, k).len() == k,
    decreases k,
{
    if k > 0 {
        lemma_hex_fixed_len(n / 16, (k - 1) as nat);
    }
}

/// Each byte gives two hexadecimal digits, the high one first.
pub proof fn law_bytes_in_hexadecimal(s: Seq<u8>, i: int)
    requires
        0 <= i < s.len(),
    ensures
        hex_bytes(s).len() == 2 * s.len(),
        hex_bytes(s)[2 * i] == digit_char((s[i] / 16) as nat),
        hex_bytes(s)[2 * i + 1] == digit_char((s[i] % 16) as nat),
{
}

/// A text that is cut to some room keeps its beginning, as much of it as
/// there is room for: not one character more would fit.
pub proof fn law_a_cut_keeps_what_fits(s: Seq<char>, room: int, j: int)
    requires
        room >= 0,
    ensures
        ({
            let c = cut(s, room);
            &&& c.len() <= s.len()
            &&& c == s.take(c.len() as int)
            &&& utf8::encode_utf8(c).len() <= room
            &&& c.len() < j <= s.len() ==> utf8::encode_utf8(s.take(j)).len() > room
        }),
    decreases s.len(),
{
    lemma_cut_fits(s, room);
    assert(s.take(s.len() as int) =~= s);
    if !(s.len() == 0 || utf8::encode_utf8(s).len() <= room) {
        let t = s.drop_last();
        law_a_cut_keeps_what_fits(t, room, j);
        if j <= t.len() && j >= 0 {
            assert(t.take(j) =~= s.take(j));
        }
    }
}

} // verus!
