//! Little-endian integers and byte ranges.
use vstd::prelude::*;
use vstd::array::array_fill_for_copy_types;
use vstd::slice::{slice_subrange, slice_to_vec};

verus! {

/// Every byte is zero, as in a fresh mapping.
pub open spec fn is_zero(mem: Seq<u8>) -> bool {
    forall|i: int| 0 <= i < mem.len() ==> #[trigger] mem[i] == 0
}

/// The `k` low-order bytes of `v`, least significant first.
pub open spec fn le_bytes(v: nat, k: nat) -> Seq<u8>
    decreases k,
{
    if k == 0 {
        Seq::empty()
    } else {
        seq![(v % 256) as u8] + le_bytes(v / 256, (k - 1) as nat)
    }
}

/// The number whose little-endian bytes are `s`.
pub open spec fn le_value(s: Seq<u8>) -> nat
    decreases s.len(),
{
    if s.len() == 0 {
        0
    } else {
        s[0] as nat + 256 * le_value(s.drop_first())
    }
}

/// `256` to the power `k`.
pub open spec fn pow256(k: nat) -> nat
    decreases k,
{
    if k == 0 {
        1
    } else {
        256 * pow256((k - 1) as nat)
    }
}

/// `mem` with the bytes from `at` on replaced by `bytes`.
pub open spec fn overwrite(mem: Seq<u8>, at: int, bytes: Seq<u8>) -> Seq<u8> {
    Seq::new(
        mem.len(),
        |i: int|
            if at <= i < at + bytes.len() {
                bytes[i - at]
            } else {
                mem[i]
            },
    )
}

/// The `len` bytes of `mem` from `at` on.
pub open spec fn range(mem: Seq<u8>, at: int, len: int) -> Seq<u8> {
    mem.subrange(at, at + len)
}

/// The 32-bit integer at offset `at`.
pub open spec fn u32_at(mem: Seq<u8>, at: int) -> u32 {
    le_value(range(mem, at, 4)) as u32
}

/// The 64-bit integer at offset `at`.
pub open spec fn u64_at(mem: Seq<u8>, at: int) -> u64 {
    le_value(range(mem, at, 8)) as u64
}

/// `k` bytes hold every value below `256^k`, and give it back.
pub proof fn lemma_le_round_trip(v: nat, k: nat)
    requires
        v < pow256(k),
    ensures
        le_bytes(v, k).len() == k,
        le_value(le_bytes(v, k)) == v,
    decreases k,
{
    if k > 0 {
        assert(v / 256 < pow256((k - 1) as nat));
        lemma_le_round_trip(v / 256, (k - 1) as nat);
        assert(le_bytes(v, k).drop_first() =~= le_bytes(v / 256, (k - 1) as nat));
    }
}

/// The encoding of `k` bytes is `k` bytes long.
pub proof fn lemma_le_len(v: nat, k: nat)
    ensures
        le_bytes(v, k).len() == k,
    decreases k,
{
    if k > 0 {
        lemma_le_len(v / 256, (k - 1) as nat);
    }
}

/// Decoding bytes and encoding the number again gives the bytes back.
pub proof fn lemma_le_bytes_of_value(s: Seq<u8>)
    ensures
        le_value(s) < pow256(s.len()),
        le_bytes(le_value(s), s.len()) == s,
    decreases s.len(),
{
    if s.len() > 0 {
        let rest = s.drop_first();
        lemma_le_bytes_of_value(rest);
        assert(le_value(s) % 256 == s[0] && le_value(s) / 256 == le_value(rest));
        assert(le_bytes(le_value(s), s.len()) =~= seq![s[0]] + rest);
        assert(seq![s[0]] + rest =~= s);
    } else {
        assert(le_bytes(le_value(s), s.len()) =~= s);
    }
}

/// The bounds of the widths in use.
pub proof fn lemma_pow256()
    ensures
        pow256(1) == 0x100,
        pow256(4) == 0x1_0000_0000,
        pow256(8) == 0x1_0000_0000_0000_0000,
        pow256(16) == 0x1_0000_0000_0000_0000_0000_0000_0000_0000,
{
    reveal_with_fuel(pow256, 17);
}

pub proof fn lemma_pow256_monotone(i: nat, j: nat)
    requires
        i <= j,
    ensures
        pow256(i) <= pow256(j),
    decreases j,
{
    if i < j {
        lemma_pow256_monotone(i, (j - 1) as nat);
    }
}

/// Widths of 4 and 8 bytes lose nothing of the integers they hold.
pub proof fn lemma_int_round_trip(a: u32, b: u64)
    ensures
        le_bytes(a as nat, 4).len() == 4,
        le_value(le_bytes(a as nat, 4)) == a,
        le_bytes(b as nat, 8).len() == 8,
        le_value(le_bytes(b as nat, 8)) == b,
{
    lemma_pow256();
    lemma_le_round_trip(a as nat, 4);
    lemma_le_round_trip(b as nat, 8);
}

/// The encoding of `i + j` bytes is that of the low `i` bytes and that of
/// the others.
pub proof fn lemma_le_split(v: nat, i: nat, j: nat)
    ensures
        le_bytes(v, i + j) == le_bytes(v, i) + le_bytes(v / pow256(i), j),
        pow256(i) > 0,
    decreases i,
{
    if i == 0 {
        assert(le_bytes(v, i + j) =~= le_bytes(v, i) + le_bytes(v / pow256(i), j));
    } else {
        let k = (i - 1) as nat;
        lemma_le_split(v / 256, k, j);
        vstd::arithmetic::div_mod::lemma_div_denominator(v as int, 256, pow256(k) as int);
        assert(le_bytes(v, i + j) =~= le_bytes(v, i) + le_bytes(v / pow256(i), j));
    }
}

/// The low-order bytes of a number are those of its remainder.
pub proof fn lemma_le_low(v: nat, k: nat)
    ensures
        le_bytes(v, k) == le_bytes(v % pow256(k), k),
    decreases k,
{
    if k > 0 {
        let j = (k - 1) as nat;
        lemma_le_split(v, j, 1);
        lemma_le_low(v / 256, j);
        vstd::arithmetic::div_mod::lemma_mod_breakdown(v as int, 256, pow256(j) as int);
        let r = v % pow256(k);
        assert(r % 256 == v % 256 && r / 256 == (v / 256) % pow256(j));
        assert(le_bytes(v, k) =~= le_bytes(r, k));
    }
}

/// What was written at a place is read there, and a range beside it is as
/// it was.
pub proof fn lemma_overwrite(mem: Seq<u8>, at: int, bytes: Seq<u8>)
    requires
        0 <= at,
        at + bytes.len() <= mem.len(),
    ensures
        overwrite(mem, at, bytes).len() == mem.len(),
        range(overwrite(mem, at, bytes), at, bytes.len() as int) == bytes,
        forall|p: int, n: int|
            #![trigger range(overwrite(mem, at, bytes), p, n)]
            0 <= p && 0 <= n && p + n <= mem.len() && (p + n <= at || at + bytes.len() <= p)
                ==> range(overwrite(mem, at, bytes), p, n) == range(mem, p, n),
{
    let out = overwrite(mem, at, bytes);
    assert(range(out, at, bytes.len() as int) =~= bytes);
    assert forall|p: int, n: int|
        #![trigger range(out, p, n)]
        0 <= p && 0 <= n && p + n <= mem.len() && (p + n <= at || at + bytes.len()
            <= p) implies range(out, p, n) == range(mem, p, n) by {
        assert(range(out, p, n) =~= range(mem, p, n));
    }
}

/// A range of a range is a range.
pub proof fn lemma_range_of_range(mem: Seq<u8>, at: int, len: int, p: int, n: int)
    requires
        0 <= at,
        0 <= p,
        0 <= n,
        p + n <= len,
        at + len <= mem.len(),
    ensures
        range(range(mem, at, len), p, n) == range(mem, at + p, n),
{
    assert(range(range(mem, at, len), p, n) =~= range(mem, at + p, n));
}

/// Reads `k` little-endian bytes at `at`.
pub fn read_le(mem: &[u8], at: usize, k: usize) -> (v: u64)
    requires
        k <= 8,
        at + k <= mem@.len(),
    ensures
        v == le_value(range(mem@, at as int, k as int)),
{
    let ghost full = range(mem@, at as int, k as int);
    let mut v: u64 = 0;
    let mut i: usize = k;
    proof {
        lemma_pow256();
        assert(full.skip(k as int) =~= Seq::<u8>::empty());
        assert(mem@.len() == mem.len());
    }
    while i > 0
        invariant
            i <= k <= 8,
            at + k <= mem@.len() <= usize::MAX,
            full == range(mem@, at as int, k as int),
            v == le_value(full.skip(i as int)),
            pow256(8) == 0x1_0000_0000_0000_0000,
        decreases i,
    {
        let ghost here = full.skip(i - 1);
        proof {
            assert(here.drop_first() =~= full.skip(i as int));
            assert(here[0] == mem@[at + i - 1]);
            lemma_le_bytes_of_value(here);
            lemma_pow256_monotone(here.len(), 8);
        }
        i = i - 1;
        v = v * 256 + mem[at + i] as u64;
    }
    proof {
        assert(full.skip(0) =~= full);
    }
    v
}

/// Reads the 32-bit integer at `at`.
pub fn read_u32(mem: &[u8], at: usize) -> (v: u32)
    requires
        at + 4 <= mem@.len(),
    ensures
        v == u32_at(mem@, at as int),
        v == le_value(range(mem@, at as int, 4)),
{
    proof {
        lemma_pow256();
        lemma_le_bytes_of_value(range(mem@, at as int, 4));
    }
    read_le(mem, at, 4) as u32
}

/// Reads the 64-bit integer at `at`.
pub fn read_u64(mem: &[u8], at: usize) -> (v: u64)
    requires
        at + 8 <= mem@.len(),
    ensures
        v == u64_at(mem@, at as int),
        v == le_value(range(mem@, at as int, 8)),
{
    read_le(mem, at, 8)
}

/// Copies `bytes` into `mem` from `at` on.
pub fn copy_in(mem: &mut [u8], at: usize, bytes: &[u8])
    requires
        at + bytes@.len() <= old(mem)@.len(),
    ensures
        final(mem)@ == overwrite(old(mem)@, at as int, bytes@),
{
    let ghost before = mem@;
    let len: usize = bytes.len();
    let mut i: usize = 0;
    assert(mem@.len() == mem.len());
    while i < len
        invariant
            len == bytes@.len(),
            i <= len,
            mem@.len() == before.len(),
            at + len <= before.len() <= usize::MAX,
            mem@ == overwrite(before, at as int, bytes@.take(i as int)),
        decreases len - i,
    {
        mem[at + i] = bytes[i];
        i = i + 1;
        proof {
            assert(mem@ =~= overwrite(before, at as int, bytes@.take(i as int)));
        }
    }
    proof {
        assert(bytes@.take(len as int) =~= bytes@);
    }
}

/// Copies `len` bytes out of `mem` from `at` on.
pub fn copy_out(mem: &[u8], at: usize, len: usize) -> (out: Vec<u8>)
    requires
        at + len <= mem@.len(),
    ensures
        out@ == range(mem@, at as int, len as int),
{
    assert(mem@.len() == mem.len());
    slice_to_vec(slice_subrange(mem, at, at + len))
}

/// Copies `N` bytes out of `mem` from `at` on.
pub fn read_array<const N: usize>(mem: &[u8], at: usize) -> (out: [u8; N])
    requires
        at + N <= mem@.len(),
    ensures
        out@ == range(mem@, at as int, N as int),
{
    let mut out: [u8; N] = array_fill_for_copy_types(0u8);
    let mut i: usize = 0;
    assert(mem@.len() == mem.len());
    while i < N
        invariant
            i <= N,
            at + N <= mem@.len() <= usize::MAX,
            forall|j: int| 0 <= j < i ==> out@[j] == mem@[at + j],
        decreases N - i,
    {
        out[i] = mem[at + i];
        i = i + 1;
    }
    assert(out@ =~= range(mem@, at as int, N as int));
    out
}

/// Whether two byte slices hold the same bytes.
pub fn bytes_eq(a: &[u8], b: &[u8]) -> (same: bool)
    ensures
        same == (a@ == b@),
{
    if a.len() != b.len() {
        return false;
    }
    let len: usize = a.len();
    let mut i: usize = 0;
    while i < len
        invariant
            len == a@.len() == b@.len(),
            i <= len,
            forall|j: int| 0 <= j < i ==> a@[j] == b@[j],
        decreases len - i,
    {
        if a[i] != b[i] {
            return false;
        }
        i = i + 1;
    }
    assert(a@ =~= b@);
    true
}

/// Appends the `k` low-order bytes of `v`, least significant first.
pub fn push_le(out: &mut Vec<u8>, v: u64, k: usize)
    ensures
        final(out)@ == old(out)@ + le_bytes(v as nat, k as nat),
{
    let ghost before = out@;
    let mut rest: u64 = v;
    let mut i: usize = 0;
    proof {
        assert(before + Seq::<u8>::empty() =~= before);
    }
    let ghost mut written: Seq<u8> = Seq::empty();
    while i < k
        invariant
            i <= k,
            out@ == before + written,
            written + le_bytes(rest as nat, (k - i) as nat) == le_bytes(v as nat, k as nat),
        decreases k - i,
    {
        let byte: u8 = (rest % 256) as u8;
        out.push(byte);
        proof {
            assert(out@ =~= before + written.push(byte));
            assert(written.push(byte) + le_bytes((rest / 256) as nat, (k - i - 1) as nat)
                =~= written + le_bytes(rest as nat, (k - i) as nat));
            written = written.push(byte);
        }
        rest = rest / 256;
        i = i + 1;
    }
    proof {
        assert(written =~= le_bytes(v as nat, k as nat));
    }
}

/// Appends a byte slice.
pub fn push_bytes(out: &mut Vec<u8>, bytes: &[u8])
    ensures
        final(out)@ == old(out)@ + bytes@,
{
    let ghost before = out@;
    let len: usize = bytes.len();
    let mut i: usize = 0;
    proof {
        assert(before =~= before + bytes@.take(0));
    }
    while i < len
        invariant
            len == bytes@.len(),
            i <= len,
            out@ == before + bytes@.take(i as int),
        decreases len - i,
    {
        out.push(bytes[i]);
        i = i + 1;
        proof {
            assert(out@ =~= before + bytes@.take(i as int));
        }
    }
    proof {
        assert(bytes@.take(len as int) =~= bytes@);
    }
}

/// Byte `i` of a number is its digit to the base of 256, the lowest first.
pub proof fn law_little_endian(v: nat, k: nat, i: nat)
    requires
        i < k,
    ensures
        le_bytes(v, k).len() == k,
        le_bytes(v, k)[i as int] as int == (v as int / vstd::arithmetic::power::pow(256, i)) % 256,
    decreases k,
{
    lemma_le_len(v, k);
    vstd::arithmetic::power::lemma_pow0(256);
    if i > 0 {
        let j = (i - 1) as nat;
        law_little_endian(v / 256, (k - 1) as nat, j);
        vstd::arithmetic::power::lemma_pow_positive(256, j);
        vstd::arithmetic::power::lemma_pow_adds(256, 1, j);
        vstd::arithmetic::power::lemma_pow1(256);
        vstd::arithmetic::div_mod::lemma_div_denominator(
            v as int,
            256,
            vstd::arithmetic::power::pow(256, j),
        );
        assert(le_bytes(v, k)[i as int] == le_bytes(v / 256, (k - 1) as nat)[j as int]);
    }
}

/// The number that bytes spell is their sum, each byte times 256 for every
/// byte before it.
pub proof fn law_what_bytes_spell(s: Seq<u8>, b: u8)
    ensures
        le_value(Seq::empty()) == 0,
        le_value(s.push(b)) == le_value(s) + b * vstd::arithmetic::power::pow(256, s.len()),
    decreases s.len(),
{
    vstd::arithmetic::power::lemma_pow0(256);
    if s.len() == 0 {
        assert(s.push(b).drop_first() =~= Seq::<u8>::empty());
        assert(s.push(b)[0] == b);
        assert(s =~= Seq::<u8>::empty());
    } else {
        let t = s.drop_first();
        law_what_bytes_spell(t, b);
        assert(s.push(b).drop_first() =~= t.push(b));
        vstd::arithmetic::power::lemma_pow_adds(256, 1, t.len());
        vstd::arithmetic::power::lemma_pow1(256);
        let p = vstd::arithmetic::power::pow(256, t.len());
        assert(256 * (le_value(t) + b * p) == 256 * le_value(t) + b * (256 * p))
            by (nonlinear_arith);
    }
}

/// Overwritten bytes are the new ones where they were written and the old
/// ones elsewhere.
pub proof fn law_what_is_overwritten(mem: Seq<u8>, at: int, b: Seq<u8>, i: int)
    requires
        0 <= at,
        at + b.len() <= mem.len(),
        0 <= i < mem.len(),
    ensures
        overwrite(mem, at, b).len() == mem.len(),
        at <= i < at + b.len() ==> overwrite(mem, at, b)[i] == b[i - at],
        i < at || at + b.len() <= i ==> overwrite(mem, at, b)[i] == mem[i],
{
}

} // verus!
