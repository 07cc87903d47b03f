//! Bit stream reader and writer with LSB-first bit packing.
//!
//! Within each byte, bit 0 (the least significant) comes first in the stream;
//! a value of `n` bits is read or written least significant bit first.

use vstd::prelude::*;
use vstd::arithmetic::power2::{pow2, lemma_pow2_pos, lemma_pow2_unfold};
use vstd::bits::{lemma_u32_shl_is_mul, lemma_u32_pow2_no_overflow};
use crate::error::NetError;

verus! {

/// Bit `k` (0 = least significant) of the byte `b`.
pub open spec fn byte_bit(b: u8, k: int) -> bool {
    (b >> (k as u8)) & 1u8 == 1u8
}

/// The bits of `data` in stream order: byte by byte, each byte least significant bit first.
pub open spec fn stream_bits(data: Seq<u8>) -> Seq<bool> {
    Seq::new(data.len() * 8, |i: int| byte_bit(data[i / 8], i % 8))
}

/// Bit `k` (0 = least significant) of the word `v`.
pub open spec fn word_bit(v: u32, k: int) -> bool {
    (v >> (k as u32)) & 1u32 == 1u32
}

/// The low `n` bits of `v`, least significant first.
pub open spec fn word_bits(v: u32, n: nat) -> Seq<bool> {
    Seq::new(n, |k: int| word_bit(v, k))
}

/// `n` zero bits.
pub open spec fn zero_bits(n: nat) -> Seq<bool> {
    Seq::new(n, |i: int| false)
}

/// The number whose binary digits, least significant first, are `bits`.
pub open spec fn bits_value(bits: Seq<bool>) -> nat
    decreases bits.len(),
{
    if bits.len() == 0 {
        0
    } else {
        bits_value(bits.drop_last()) + if bits.last() {
            pow2((bits.len() - 1) as nat)
        } else {
            0
        }
    }
}

/// The number of bytes that hold `bits` bits.
pub open spec fn ceil_bytes(bits: nat) -> nat {
    (bits + 7) / 8
}

/// Rounding a bit count up to whole bytes adds the bits missing from the last byte.
pub proof fn lemma_ceil_bytes(n: nat)
    ensures
        ceil_bytes(n) * 8 == n + (8 - n % 8) % 8,
        n % 8 == 0 ==> ceil_bytes(n) == n / 8,
        n % 8 != 0 ==> ceil_bytes(n) == n / 8 + 1,
{
    assert(ceil_bytes(n) * 8 == n + (8 - n % 8) % 8) by (nonlinear_arith);
    assert(n % 8 == 0 ==> ceil_bytes(n) == n / 8) by (nonlinear_arith);
    assert(n % 8 != 0 ==> ceil_bytes(n) == n / 8 + 1) by (nonlinear_arith);
}

/// `bytes` holds exactly `bits`, followed by zero bits up to the end of the last byte.
pub open spec fn is_packing(bytes: Seq<u8>, bits: Seq<bool>) -> bool {
    &&& bytes.len() == ceil_bytes(bits.len())
    &&& stream_bits(bytes) == bits + zero_bits((bytes.len() * 8 - bits.len()) as nat)
}

/// The value of `n` bits is below `2^n`.
pub proof fn lemma_bits_value_bound(bits: Seq<bool>)
    ensures
        bits_value(bits) < pow2(bits.len()),
    decreases bits.len(),
{
    lemma_pow2_pos(bits.len());
    if bits.len() > 0 {
        lemma_bits_value_bound(bits.drop_last());
        lemma_pow2_unfold(bits.len());
    }
}

/// Reading back the low `n` bits of a word gives the word modulo `2^n`.
pub proof fn lemma_word_bits_value(v: u32, n: nat)
    requires
        n <= 32,
    ensures
        bits_value(word_bits(v, n)) == v as nat % pow2(n),
    decreases n,
{
    lemma_pow2_pos(n);
    if n == 0 {
        vstd::arithmetic::power2::lemma2_to64();
    } else {
        let m = (n - 1) as nat;
        lemma_word_bits_value(v, m);
        assert(word_bits(v, n).drop_last() =~= word_bits(v, m));
        lemma_pow2_unfold(n);
        lemma_pow2_pos(m);
        let k = m as u32;
        let b = (v >> k) & 1u32;
        assert(b <= 1) by (bit_vector)
            requires
                b == (v >> k) & 1u32,
        ;
        // v mod 2^n splits into v mod 2^m and bit m.
        vstd::arithmetic::div_mod::lemma_mod_breakdown(v as int, pow2(m) as int, 2);
        vstd::bits::lemma_u32_shr_is_div(v, k);
        assert(((v >> k) & 1u32) == (v >> k) % 2) by (bit_vector);
        vstd::arithmetic::mul::lemma_mul_is_commutative(pow2(m) as int, 2);
        assert(pow2(m) * ((v as nat / pow2(m)) % 2) == if b == 1 { pow2(m) } else { 0 }) by {
            if b == 1 {
                vstd::arithmetic::mul::lemma_mul_basics(pow2(m) as int);
            } else {
                vstd::arithmetic::mul::lemma_mul_basics(pow2(m) as int);
            }
        }
    }
}

/// What a reader finds where a writer put a field: over the bytes of a
/// writer that wrote the low `n` bits of `v` after `before`, the `n` bits at
/// position `before.len()` are there and read as `v` modulo `2^n`.
pub proof fn lemma_write_then_read(
    before: Seq<bool>,
    v: u32,
    n: nat,
    after: Seq<bool>,
    bytes: Seq<u8>,
)
    requires
        1 <= n <= 32,
        is_packing(bytes, before + word_bits(v, n) + after),
    ensures
        before.len() + n <= bytes.len() * 8,
        stream_bits(bytes).subrange(before.len() as int, (before.len() + n) as int) == word_bits(
            v,
            n,
        ),
        bits_value(stream_bits(bytes).subrange(before.len() as int, (before.len() + n) as int))
            == v as nat % pow2(n),
{
    let w = before + word_bits(v, n) + after;
    let pad = (bytes.len() * 8 - w.len()) as nat;
    assert(stream_bits(bytes) == w + zero_bits(pad));
    assert(stream_bits(bytes).subrange(before.len() as int, (before.len() + n) as int) =~= word_bits(
        v,
        n,
    )) by {
        assert forall|k: int| 0 <= k < n implies stream_bits(bytes).subrange(
            before.len() as int,
            (before.len() + n) as int,
        )[k] == word_bits(v, n)[k] by {
            assert(w[before.len() + k] == word_bits(v, n)[k]);
        }
    }
    lemma_word_bits_value(v, n);
}

/// Writing `n` bits of zero is writing `n` zero bits.
pub proof fn lemma_word_bits_zero(n: nat)
    ensures
        word_bits(0, n) == zero_bits(n),
{
    assert forall|k: int| 0 <= k < n implies !(#[trigger] word_bits(0, n)[k]) by {
        let s = k as u32;
        assert((0u32 >> s) & 1u32 == 0u32) by (bit_vector);
    }
    assert(word_bits(0, n) =~= zero_bits(n));
}

/// The bits of fields written one after another: field `i` is the low
/// `fs[i].1` bits of `fs[i].0`, least significant first.
pub open spec fn fields_bits(fs: Seq<(u32, nat)>) -> Seq<bool>
    decreases fs.len(),
{
    if fs.len() == 0 {
        Seq::empty()
    } else {
        fields_bits(fs.drop_last()) + word_bits(fs.last().0, fs.last().1)
    }
}

/// Where field `k` starts: after the bits of the fields before it.
pub open spec fn field_start(fs: Seq<(u32, nat)>, k: int) -> nat {
    fields_bits(fs.take(k)).len()
}

/// The fields before `j` are written first.
proof fn lemma_fields_prefix(fs: Seq<(u32, nat)>, j: int)
    requires
        0 <= j <= fs.len(),
    ensures
        fields_bits(fs.take(j)).is_prefix_of(fields_bits(fs)),
    decreases fs.len(),
{
    if j == fs.len() {
        assert(fs.take(j) =~= fs);
    } else {
        let front = fs.drop_last();
        assert(fs.take(j) =~= front.take(j));
        lemma_fields_prefix(front, j);
        let a = fields_bits(front.take(j));
        let b = fields_bits(front);
        let c = fields_bits(fs);
        assert(c == b + word_bits(fs.last().0, fs.last().1));
        assert(a =~= c.subrange(0, a.len() as int)) by {
            assert forall|i: int| 0 <= i < a.len() implies a[i] == c[i] by {
                assert(a[i] == b.subrange(0, a.len() as int)[i]);
            }
        }
    }
}

/// Fields written one after another read back in order: over bytes that
/// pack the fields `fs` (each of 1 to 32 bits), field `k` lies at
/// `field_start(fs, k)`, ends where field `k + 1` starts, and its bits read
/// as its value modulo `2^width`. All the fields fit the bytes, with less than
/// a byte of padding after them.
pub proof fn lemma_fields_read_back(fs: Seq<(u32, nat)>, bytes: Seq<u8>, k: int)
    requires
        forall|i: int| 0 <= i < fs.len() ==> 1 <= (#[trigger] fs[i]).1 <= 32,
        is_packing(bytes, fields_bits(fs)),
        0 <= k < fs.len(),
    ensures
        field_start(fs, k + 1) == field_start(fs, k) + fs[k].1,
        field_start(fs, k + 1) <= fields_bits(fs).len() <= bytes.len() * 8,
        bytes.len() * 8 < fields_bits(fs).len() + 8,
        stream_bits(bytes).subrange(field_start(fs, k) as int, field_start(fs, k + 1) as int)
            == word_bits(fs[k].0, fs[k].1),
        bits_value(stream_bits(bytes).subrange(field_start(fs, k) as int, field_start(fs, k + 1) as int))
            == fs[k].0 as nat % pow2(fs[k].1),
{
    let before = fields_bits(fs.take(k));
    let upto = fields_bits(fs.take(k + 1));
    let all = fields_bits(fs);
    assert(fs.take(k + 1).drop_last() =~= fs.take(k));
    assert(fs.take(k + 1).last() == fs[k]);
    assert(upto == before + word_bits(fs[k].0, fs[k].1));
    lemma_fields_prefix(fs, k + 1);
    let after = all.subrange(upto.len() as int, all.len() as int);
    assert(all =~= before + word_bits(fs[k].0, fs[k].1) + after) by {
        assert forall|i: int| 0 <= i < upto.len() implies all[i] == upto[i] by {
            assert(upto[i] == all.subrange(0, upto.len() as int)[i]);
        }
    }
    lemma_ceil_bytes(all.len());
    lemma_write_then_read(before, fs[k].0, fs[k].1, after, bytes);
}

/// Writing one more field appends its bits.
pub proof fn lemma_fields_push(fs: Seq<(u32, nat)>, f: (u32, nat))
    ensures
        fields_bits(fs.push(f)) == fields_bits(fs) + word_bits(f.0, f.1),
{
    assert(fs.push(f).drop_last() =~= fs);
}

/// Reading fields of the widths `ns` one after another from bit `pos` of
/// `bits`, as successive `read_bits` calls do: the values read and the
/// position after them, or `None` when a width is outside 1..=32 or the bits
/// run out.
pub open spec fn read_fields(bits: Seq<bool>, pos: nat, ns: Seq<nat>) -> Option<(Seq<nat>, nat)>
    decreases ns.len(),
{
    if ns.len() == 0 {
        Some((Seq::empty(), pos))
    } else {
        match read_fields(bits, pos, ns.drop_last()) {
            Some((vs, p)) => {
                let n = ns.last();
                if 1 <= n <= 32 && p + n <= bits.len() {
                    Some((vs.push(bits_value(bits.subrange(p as int, (p + n) as int))), p + n))
                } else {
                    None
                }
            },
            None => None,
        }
    }
}

/// The widths of the fields `fs`.
pub open spec fn field_widths(fs: Seq<(u32, nat)>) -> Seq<nat> {
    Seq::new(fs.len(), |i: int| fs[i].1)
}

/// The values of the fields `fs`, each cut to its width.
pub open spec fn field_values(fs: Seq<(u32, nat)>) -> Seq<nat> {
    Seq::new(fs.len(), |i: int| field_value(fs[i]))
}

/// The value of field `f`, cut to its width.
pub open spec fn field_value(f: (u32, nat)) -> nat {
    f.0 as nat % pow2(f.1)
}

proof fn lemma_read_fields_prefix(fs: Seq<(u32, nat)>, bytes: Seq<u8>, k: int)
    requires
        forall|i: int| 0 <= i < fs.len() ==> 1 <= (#[trigger] fs[i]).1 <= 32,
        is_packing(bytes, fields_bits(fs)),
        0 <= k <= fs.len(),
    ensures
        read_fields(stream_bits(bytes), 0, field_widths(fs).take(k)) == Some(
            (field_values(fs).take(k), field_start(fs, k)),
        ),
    decreases k,
{
    if k == 0 {
        assert(field_widths(fs).take(0) =~= Seq::<nat>::empty());
        assert(field_values(fs).take(0) =~= Seq::<nat>::empty());
        assert(fs.take(0) =~= Seq::<(u32, nat)>::empty());
    } else {
        lemma_read_fields_prefix(fs, bytes, k - 1);
        lemma_fields_read_back(fs, bytes, k - 1);
        assert(field_widths(fs).take(k).drop_last() =~= field_widths(fs).take(k - 1));
        assert(field_values(fs).len() == fs.len());
        assert(field_values(fs)[k - 1] == field_value(fs[k - 1]));
        assert(field_values(fs).take(k) =~= field_values(fs).take(k - 1).push(field_value(fs[k - 1])));
        assert(field_widths(fs).take(k).last() == fs[k - 1].1);
    }
}

/// Fields written one after another read back in order: reading fields of
/// the written widths from the start of the bytes gives every written value
/// cut to its width, and stops where the fields end, with less than a byte
/// of padding after them.
pub proof fn lemma_fields_read_in_order(fs: Seq<(u32, nat)>, bytes: Seq<u8>)
    requires
        forall|i: int| 0 <= i < fs.len() ==> 1 <= (#[trigger] fs[i]).1 <= 32,
        is_packing(bytes, fields_bits(fs)),
    ensures
        read_fields(stream_bits(bytes), 0, field_widths(fs)) == Some(
            (field_values(fs), fields_bits(fs).len()),
        ),
        fields_bits(fs).len() <= bytes.len() * 8 < fields_bits(fs).len() + 8,
{
    lemma_read_fields_prefix(fs, bytes, fs.len() as int);
    assert(field_widths(fs).take(fs.len() as int) =~= field_widths(fs));
    assert(field_values(fs).len() == fs.len());
    assert(field_values(fs).take(fs.len() as int) =~= field_values(fs));
    assert(fs.take(fs.len() as int) =~= fs);
    lemma_ceil_bytes(fields_bits(fs).len());
}

/// Two bytes with the same eight bits are the same byte.
proof fn lemma_byte_from_bits(a: u8, b: u8)
    requires
        forall|k: int| 0 <= k < 8 ==> byte_bit(a, k) == byte_bit(b, k),
    ensures
        a == b,
{
    assert(byte_bit(a, 0) == byte_bit(b, 0));
    assert(byte_bit(a, 1) == byte_bit(b, 1));
    assert(byte_bit(a, 2) == byte_bit(b, 2));
    assert(byte_bit(a, 3) == byte_bit(b, 3));
    assert(byte_bit(a, 4) == byte_bit(b, 4));
    assert(byte_bit(a, 5) == byte_bit(b, 5));
    assert(byte_bit(a, 6) == byte_bit(b, 6));
    assert(byte_bit(a, 7) == byte_bit(b, 7));
    assert(a == b) by (bit_vector)
        requires
            ((a >> 0u8) & 1u8 == 1u8) == ((b >> 0u8) & 1u8 == 1u8),
            ((a >> 1u8) & 1u8 == 1u8) == ((b >> 1u8) & 1u8 == 1u8),
            ((a >> 2u8) & 1u8 == 1u8) == ((b >> 2u8) & 1u8 == 1u8),
            ((a >> 3u8) & 1u8 == 1u8) == ((b >> 3u8) & 1u8 == 1u8),
            ((a >> 4u8) & 1u8 == 1u8) == ((b >> 4u8) & 1u8 == 1u8),
            ((a >> 5u8) & 1u8 == 1u8) == ((b >> 5u8) & 1u8 == 1u8),
            ((a >> 6u8) & 1u8 == 1u8) == ((b >> 6u8) & 1u8 == 1u8),
            ((a >> 7u8) & 1u8 == 1u8) == ((b >> 7u8) & 1u8 == 1u8),
    ;
}

/// Bit packing is least significant bit first: the bytes holding a 32-bit
/// word written as 32 bits are its four little-endian bytes, and a byte
/// written as 8 bits is that byte.
pub proof fn lemma_lsb_first(bytes: Seq<u8>, v: u32, b: u8)
    ensures
        is_packing(bytes, word_bits(v, 32)) ==> bytes == crate::bytes::le32(v),
        is_packing(bytes, word_bits(b as u32, 8)) ==> bytes == seq![b],
{
    if is_packing(bytes, word_bits(v, 32)) {
        let le = crate::bytes::le32(v);
        assert(bytes.len() == 4);
        assert forall|i: int| 0 <= i < 4 implies bytes[i] == le[i] by {
            assert forall|k: int| 0 <= k < 8 implies byte_bit(bytes[i], k) == byte_bit(le[i], k) by {
                assert(stream_bits(bytes)[8 * i + k] == word_bits(v, 32)[8 * i + k]);
                assert((8 * i + k) / 8 == i && (8 * i + k) % 8 == k) by (nonlinear_arith)
                    requires 0 <= i < 4, 0 <= k < 8;
                let kk = k as u8;
                let s = (8 * i) as u32;
                assert(s <= 24 && kk < 8 ==> (((((v >> s) & 0xffu32) as u8) >> kk) & 1u8 == 1u8) == ((v >> (s + kk as u32)) & 1u32 == 1u32)) by (bit_vector);
                if i == 0 {
                    assert(v & 0xffu32 == (v >> 0u32) & 0xffu32) by (bit_vector);
                }
            }
            lemma_byte_from_bits(bytes[i], le[i]);
        }
        assert(bytes =~= le);
    }
    if is_packing(bytes, word_bits(b as u32, 8)) {
        assert(bytes.len() == 1);
        assert forall|k: int| 0 <= k < 8 implies byte_bit(bytes[0], k) == byte_bit(b, k) by {
            assert(stream_bits(bytes)[k] == word_bits(b as u32, 8)[k]);
            let kk = k as u8;
            assert(kk < 8 ==> (((b >> kk) & 1u8 == 1u8) == (((b as u32) >> (kk as u32)) & 1u32 == 1u32))) by (bit_vector);
        }
        lemma_byte_from_bits(bytes[0], b);
        assert(bytes =~= seq![b]);
    }
}

/// The bits of a run of bytes are the matching run of the stream's bits.
pub proof fn lemma_stream_bits_subrange(data: Seq<u8>, a: int, b: int)
    requires
        0 <= a <= b <= data.len(),
    ensures
        stream_bits(data.subrange(a, b)) == stream_bits(data).subrange(8 * a, 8 * b),
{
    let sub = data.subrange(a, b);
    assert forall|i: int| 0 <= i < 8 * (b - a) implies #[trigger] stream_bits(sub)[i] == stream_bits(
        data,
    )[8 * a + i] by {
        assert((8 * a + i) / 8 == a + i / 8);
        assert((8 * a + i) % 8 == i % 8);
    }
    assert(stream_bits(sub) =~= stream_bits(data).subrange(8 * a, 8 * b));
}

/// Appending a byte appends its eight bits, least significant first.
pub proof fn lemma_stream_bits_push(data: Seq<u8>, b: u8)
    ensures
        stream_bits(data.push(b)) == stream_bits(data) + word_bits(b as u32, 8),
{
    let nd = data.push(b);
    assert forall|i: int| 0 <= i < nd.len() * 8 implies #[trigger] stream_bits(nd)[i] == (
    stream_bits(data) + word_bits(b as u32, 8))[i] by {
        if i >= data.len() * 8 {
            let k = i - data.len() * 8;
            assert(i / 8 == data.len());
            assert(i % 8 == k);
            let kk = k as u8;
            assert(kk < 8 ==> (((b >> kk) & 1u8 == 1u8) <==> (((b as u32) >> (kk as u32)) & 1u32
                == 1u32))) by (bit_vector);
        }
    }
    assert(stream_bits(nd) =~= stream_bits(data) + word_bits(b as u32, 8));
}

/// Adding one bit after `k` bits already accumulated in `acc`.
proof fn lemma_or_shifted_bit(acc: u32, b: u32, k: u32)
    requires
        k < 32,
        b <= 1,
        acc < pow2(k as nat),
    ensures
        acc | (b << k) == acc + b * pow2(k as nat),
        acc + b * pow2(k as nat) < pow2((k + 1) as nat),
{
    lemma_u32_pow2_no_overflow(k as nat);
    lemma_u32_shl_is_mul(1, k);
    lemma_u32_shl_is_mul(b, k);
    assert(acc < (1u32 << k) && b <= 1 && k < 32 ==> acc | (b << k) == acc + (b << k))
        by (bit_vector);
    lemma_pow2_unfold((k + 1) as nat);
}

proof fn lemma_stream_bits_index(data: Seq<u8>, i: int)
    requires
        0 <= i < data.len() * 8,
    ensures
        stream_bits(data)[i] == byte_bit(data[i / 8], i % 8),
{
}

/// Setting bit `k` of byte `idx` sets one bit of the stream.
proof fn lemma_set_bit(data: Seq<u8>, idx: int, k: u8, b: u8)
    requires
        0 <= idx < data.len(),
        k < 8,
        b <= 1,
    ensures
        stream_bits(data.update(idx, data[idx] | (b << k))) == stream_bits(data).update(
            idx * 8 + k,
            stream_bits(data)[idx * 8 + k] || b == 1,
        ),
{
    let x = data[idx];
    let nd = data.update(idx, x | (b << k));
    let s = stream_bits(data);
    let t = stream_bits(nd);
    assert forall|i: int| 0 <= i < t.len() implies t[i] == s.update(
        idx * 8 + k,
        s[idx * 8 + k] || b == 1,
    )[i] by {
        if i / 8 == idx {
            let j = (i % 8) as u8;
            assert(b <= 1 && k < 8 && j < 8 ==> ((((x | (b << k)) >> j) & 1u8 == 1u8) == (if j == k {
                ((x >> j) & 1u8 == 1u8) || b == 1
            } else {
                (x >> j) & 1u8 == 1u8
            }))) by (bit_vector);
        }
    }
    assert(t =~= s.update(idx * 8 + k, s[idx * 8 + k] || b == 1));
}

proof fn lemma_push_zero_byte(data: Seq<u8>)
    ensures
        stream_bits(data.push(0u8)) == stream_bits(data) + zero_bits(8),
{
    let nd = data.push(0u8);
    assert forall|i: int| data.len() * 8 <= i < nd.len() * 8 implies !(#[trigger] stream_bits(nd)[i]) by {
        let j = (i % 8) as u8;
        assert(j < 8 ==> (0u8 >> j) & 1u8 == 0u8) by (bit_vector);
    }
    assert(stream_bits(nd) =~= stream_bits(data) + zero_bits(8));
}

/// Reader of bits from a byte slice.
#[derive(Debug)]
pub struct BitStreamReader<'a> {
    data: &'a [u8],
    bit_offset: usize,
}

impl<'a> BitStreamReader<'a> {
    /// The bytes being read.
    pub closed spec fn bytes(&self) -> Seq<u8> {
        self.data@
    }

    /// The number of bits read (or skipped) so far.
    pub closed spec fn position(&self) -> nat {
        self.bit_offset as nat
    }

    /// The stream being read, as bits.
    pub open spec fn bits(&self) -> Seq<bool> {
        stream_bits(self.bytes())
    }

    /// The `n` bits that follow the current position.
    pub open spec fn next_bits(&self, n: nat) -> Seq<bool> {
        self.bits().subrange(self.position() as int, (self.position() + n) as int)
    }

    /// The number of bits left to read.
    pub open spec fn remaining(&self) -> int {
        self.bits().len() - self.position()
    }

    /// The position lies within the stream, and the stream's bit count fits a `usize`.
    pub closed spec fn wf(&self) -> bool {
        &&& self.data@.len() * 8 <= usize::MAX
        &&& self.bit_offset <= self.data@.len() * 8
    }

    /// A well-formed reader's position lies within the stream.
    pub proof fn lemma_position_bound(&self)
        requires
            self.wf(),
        ensures
            self.position() <= self.bits().len(),
            self.bytes().len() * 8 <= usize::MAX,
    {
    }

    /// A reader over bytes that pack the fields `fs`, standing where field
    /// `k` starts, has that field's bits next, and they read as its value
    /// modulo `2^width` (see `lemma_fields_read_back`); so a `read_bits` of
    /// the field's width succeeds with that value and stops where field
    /// `k + 1` starts.
    pub proof fn lemma_reads_field(&self, fs: Seq<(u32, nat)>, k: int)
        requires
            forall|i: int| 0 <= i < fs.len() ==> 1 <= (#[trigger] fs[i]).1 <= 32,
            is_packing(self.bytes(), fields_bits(fs)),
            0 <= k < fs.len(),
            self.position() == field_start(fs, k),
        ensures
            fs[k].1 <= self.remaining(),
            bits_value(self.next_bits(fs[k].1)) == fs[k].0 as nat % pow2(fs[k].1),
            self.position() + fs[k].1 == field_start(fs, k + 1),
    {
        lemma_fields_read_back(fs, self.bytes(), k);
    }

    /// Creates a reader positioned at the first bit of `data`.
    pub fn new(data: &'a [u8]) -> (r: Self)
        requires
            data@.len() * 8 <= usize::MAX,
        ensures
            r.wf(),
            r.bytes() == data@,
            r.position() == 0,
    {
        BitStreamReader { data, bit_offset: 0 }
    }

    /// The number of bits read so far.
    pub fn bit_position(&self) -> (r: usize)
        ensures
            r == self.position(),
    {
        self.bit_offset
    }

    /// The number of bytes touched so far (bits read, rounded up to whole bytes).
    pub fn byte_position(&self) -> (r: usize)
        ensures
            r == ceil_bytes(self.position()),
    {
        self.bit_offset / 8 + if self.bit_offset % 8 != 0 { 1 } else { 0 }
    }

    /// The number of bits left to read.
    pub fn bits_remaining(&self) -> (r: usize)
        requires
            self.wf(),
        ensures
            r == self.remaining(),
    {
        (self.data.len() * 8).saturating_sub(self.bit_offset)
    }

    /// The number of bits left to read, rounded up to whole bytes.
    pub fn bytes_remaining(&self) -> (r: usize)
        requires
            self.wf(),
        ensures
            r == ceil_bytes(self.remaining() as nat),
    {
        let bits = self.bits_remaining();
        bits / 8 + if bits % 8 != 0 { 1 } else { 0 }
    }

    /// Reads `num_bits` bits (1 to 32), least significant first.
    ///
    /// Fails with `InvalidInput` on a bit count outside 1..=32 and with
    /// `UnexpectedEof` when fewer bits remain; on failure nothing is consumed.
    pub fn read_bits(&mut self, num_bits: usize) -> (result: Result<u32, NetError>)
        requires
            old(self).wf(),
        ensures
            final(self).wf(),
            final(self).bytes() == old(self).bytes(),
            result is Ok <==> (1 <= num_bits <= 32 && num_bits <= old(self).remaining()),
            result matches Err(e) ==> {
                &&& e == if num_bits == 0 || num_bits > 32 {
                    NetError::InvalidInput
                } else {
                    NetError::UnexpectedEof
                }
                &&& final(self).position() == old(self).position()
            },
            result matches Ok(v) ==> {
                &&& v as nat == bits_value(
                    old(self).next_bits(num_bits as nat),
                )
                &&& final(self).position() == old(self).position() + num_bits
            },
    {
        if num_bits == 0 || num_bits > 32 {
            return Err(NetError::InvalidInput);
        }
        if self.bits_remaining() < num_bits {
            return Err(NetError::UnexpectedEof);
        }
        let ghost bits = stream_bits(self.data@);
        let ghost start = self.bit_offset as int;
        let mut result: u32 = 0;
        let mut bits_read: usize = 0;
        let mut offset = self.bit_offset;
        proof {
            vstd::arithmetic::power2::lemma2_to64();
            assert(bits.subrange(start, start) =~= Seq::<bool>::empty());
        }
        while bits_read < num_bits
            invariant
                self.wf(),
                self.data@ == old(self).data@,
                self.bit_offset == start,
                bits == stream_bits(self.data@),
                num_bits <= 32,
                start + num_bits <= bits.len(),
                bits_read <= num_bits,
                offset == start + bits_read,
                result as nat == bits_value(bits.subrange(start, start + bits_read)),
                result < pow2(bits_read as nat),
            decreases num_bits - bits_read,
        {
            let byte_idx = offset / 8;
            let bit_idx = offset % 8;
            let byte_val = self.data[byte_idx];
            let bit = (byte_val >> (bit_idx as u8)) & 1u8;
            proof {
                lemma_stream_bits_index(self.data@, offset as int);
                assert(bit == 1u8 || bit == 0u8) by (bit_vector)
                    requires
                        bit == (byte_val >> (bit_idx as u8)) & 1u8,
                ;
                let sub = bits.subrange(start, start + bits_read + 1);
                assert(sub.drop_last() =~= bits.subrange(start, start + bits_read));
                lemma_or_shifted_bit(result, bit as u32, bits_read as u32);
            }
            result = result | ((bit as u32) << (bits_read as u32));
            offset = offset + 1;
            bits_read = bits_read + 1;
        }
        self.bit_offset = offset;
        Ok(result)
    }

    /// Reads one bit.
    pub fn read_bit(&mut self) -> (result: Result<bool, NetError>)
        requires
            old(self).wf(),
        ensures
            final(self).wf(),
            final(self).bytes() == old(self).bytes(),
            result is Ok <==> 1 <= old(self).remaining(),
            result matches Err(e) ==> e == NetError::UnexpectedEof && final(self).position()
                == old(self).position(),
            result matches Ok(b) ==> {
                &&& b == old(self).bits()[old(self).position() as int]
                &&& final(self).position() == old(self).position() + 1
            },
    {
        let v = self.read_bits(1)?;
        proof {
            let p = old(self).position() as int;
            let sub = old(self).bits().subrange(p, p + 1);
            assert(sub.drop_last() =~= Seq::<bool>::empty());
            vstd::arithmetic::power2::lemma2_to64();
            assert(bits_value(sub.drop_last()) == 0);
            assert(bits_value(sub) == if sub[0] { 1nat } else { 0nat });
        }
        Ok(v != 0)
    }

    /// Reads 8 bits.
    pub fn read_byte(&mut self) -> (result: Result<u8, NetError>)
        requires
            old(self).wf(),
        ensures
            final(self).wf(),
            final(self).bytes() == old(self).bytes(),
            result is Ok <==> 8 <= old(self).remaining(),
            result matches Err(e) ==> e == NetError::UnexpectedEof && final(self).position()
                == old(self).position(),
            result matches Ok(v) ==> {
                &&& v as nat == bits_value(
                    old(self).next_bits(8 as nat),
                )
                &&& final(self).position() == old(self).position() + 8
            },
    {
        let v = self.read_bits(8)?;
        proof {
            let p = old(self).position() as int;
            lemma_bits_value_bound(old(self).bits().subrange(p, p + 8));
            vstd::arithmetic::power2::lemma2_to64();
        }
        Ok(v as u8)
    }

    /// Reads 16 bits.
    pub fn read_u16(&mut self) -> (result: Result<u16, NetError>)
        requires
            old(self).wf(),
        ensures
            final(self).wf(),
            final(self).bytes() == old(self).bytes(),
            result is Ok <==> 16 <= old(self).remaining(),
            result matches Err(e) ==> e == NetError::UnexpectedEof && final(self).position()
                == old(self).position(),
            result matches Ok(v) ==> {
                &&& v as nat == bits_value(
                    old(self).next_bits(16 as nat),
                )
                &&& final(self).position() == old(self).position() + 16
            },
    {
        let v = self.read_bits(16)?;
        proof {
            let p = old(self).position() as int;
            lemma_bits_value_bound(old(self).bits().subrange(p, p + 16));
            vstd::arithmetic::power2::lemma2_to64();
        }
        Ok(v as u16)
    }

    /// Reads 32 bits.
    pub fn read_u32(&mut self) -> (result: Result<u32, NetError>)
        requires
            old(self).wf(),
        ensures
            final(self).wf(),
            final(self).bytes() == old(self).bytes(),
            result is Ok <==> 32 <= old(self).remaining(),
            result matches Err(e) ==> e == NetError::UnexpectedEof && final(self).position()
                == old(self).position(),
            result matches Ok(v) ==> {
                &&& v as nat == bits_value(
                    old(self).next_bits(32 as nat),
                )
                &&& final(self).position() == old(self).position() + 32
            },
    {
        self.read_bits(32)
    }

    /// Skips `num_bits` bits; fails with `UnexpectedEof`, consuming nothing, when fewer remain.
    pub fn skip_bits(&mut self, num_bits: usize) -> (result: Result<(), NetError>)
        requires
            old(self).wf(),
        ensures
            final(self).wf(),
            final(self).bytes() == old(self).bytes(),
            result is Ok <==> num_bits <= old(self).remaining(),
            result is Err ==> result == Err::<(), NetError>(NetError::UnexpectedEof)
                && final(self).position() == old(self).position(),
            result is Ok ==> final(self).position() == old(self).position() + num_bits,
    {
        if self.bits_remaining() < num_bits {
            return Err(NetError::UnexpectedEof);
        }
        self.bit_offset = self.bit_offset + num_bits;
        Ok(())
    }

    /// Moves to the next byte boundary (no move when already on one).
    pub fn align(&mut self)
        requires
            old(self).wf(),
        ensures
            final(self).wf(),
            final(self).bytes() == old(self).bytes(),
            final(self).position() == ceil_bytes(old(self).position()) * 8,
    {
        let remainder = self.bit_offset % 8;
        if remainder != 0 {
            self.bit_offset = self.bit_offset + (8 - remainder);
        }
    }

    /// The bytes from the current position (rounded up to a byte boundary) to the end.
    pub fn remaining_bytes(&self) -> (r: &'a [u8])
        requires
            self.wf(),
        ensures
            ceil_bytes(self.position()) < self.bytes().len() ==> r@ == self.bytes().subrange(
                ceil_bytes(self.position()) as int,
                self.bytes().len() as int,
            ),
            ceil_bytes(self.position()) >= self.bytes().len() ==> r@.len() == 0,
    {
        let byte_pos = self.byte_position();
        if byte_pos < self.data.len() {
            vstd::slice::slice_subrange(self.data, byte_pos, self.data.len())
        } else {
            vstd::slice::slice_subrange(self.data, self.data.len(), self.data.len())
        }
    }
}

/// Writer of bits into a growing byte buffer.
#[derive(Debug)]
pub struct BitStreamWriter {
    data: Vec<u8>,
    bit_offset: usize,
}

impl View for BitStreamWriter {
    type V = Seq<bool>;

    /// The bits written so far.
    closed spec fn view(&self) -> Seq<bool> {
        stream_bits(self.data@).take(self.bit_offset as int)
    }
}

impl BitStreamWriter {
    /// The buffer holds exactly the written bits, padded with zero bits to a whole byte.
    pub closed spec fn wf(&self) -> bool {
        &&& self.bit_offset <= self.data@.len() * 8
        &&& self.data@.len() == ceil_bytes(self.bit_offset as nat)
        &&& forall|i: int|
            self.bit_offset <= i < self.data@.len() * 8 ==> !(#[trigger] stream_bits(self.data@)[i])
    }

    proof fn lemma_packing(&self)
        requires
            self.wf(),
        ensures
            is_packing(self.data@, self@),
            self@.len() == self.bit_offset,
    {
        let s = stream_bits(self.data@);
        let pad = (self.data@.len() * 8 - self.bit_offset) as nat;
        assert(s =~= self@ + zero_bits(pad));
    }

    /// Creates an empty writer.
    pub fn new() -> (w: Self)
        ensures
            w.wf(),
            w@ == Seq::<bool>::empty(),
    {
        let w = BitStreamWriter { data: Vec::new(), bit_offset: 0 };
        assert(w@ =~= Seq::<bool>::empty());
        w
    }

    /// Creates an empty writer whose buffer is allocated for `capacity` bytes.
    pub fn with_capacity(capacity: usize) -> (w: Self)
        ensures
            w.wf(),
            w@ == Seq::<bool>::empty(),
    {
        let w = BitStreamWriter { data: Vec::with_capacity(capacity), bit_offset: 0 };
        assert(w@ =~= Seq::<bool>::empty());
        w
    }

    /// The number of bits written so far.
    pub fn bit_position(&self) -> (r: usize)
        requires
            self.wf(),
        ensures
            r == self@.len(),
    {
        proof {
            self.lemma_packing();
        }
        self.bit_offset
    }

    /// The number of bytes written so far (bits rounded up to whole bytes).
    pub fn byte_position(&self) -> (r: usize)
        requires
            self.wf(),
        ensures
            r == ceil_bytes(self@.len()),
    {
        proof {
            self.lemma_packing();
        }
        self.bit_offset / 8 + if self.bit_offset % 8 != 0 { 1 } else { 0 }
    }

    /// Appends the low `num_bits` bits (1 to 32) of `value`, least significant first.
    ///
    /// Fails with `InvalidInput`, writing nothing, on a bit count outside 1..=32.
    pub fn write_bits(&mut self, value: u32, num_bits: usize) -> (result: Result<(), NetError>)
        requires
            old(self).wf(),
            1 <= num_bits <= 32 ==> old(self)@.len() + num_bits <= usize::MAX,
        ensures
            final(self).wf(),
            result is Ok <==> 1 <= num_bits <= 32,
            result is Err ==> result == Err::<(), NetError>(NetError::InvalidInput) && final(self)@
                == old(self)@,
            result is Ok ==> final(self)@ == old(self)@ + word_bits(value, num_bits as nat),
    {
        proof {
            self.lemma_packing();
        }
        if num_bits == 0 || num_bits > 32 {
            return Err(NetError::InvalidInput);
        }
        proof {
            let n = num_bits as u32;
            assert(n < 32 ==> (1u32 << n) >= 1u32) by (bit_vector);
        }
        let mask: u32 = if num_bits == 32 {
            0xFFFFFFFF
        } else {
            (1u32 << (num_bits as u32)) - 1
        };
        let masked = value & mask;
        proof {
            assert forall|k: int| 0 <= k < num_bits implies #[trigger] word_bit(masked, k)
                == word_bit(value, k) by {
                let kk = k as u32;
                let n = num_bits as u32;
                if n == 32 {
                    assert(mask == 0xFFFFFFFFu32);
                    assert(value & 0xFFFFFFFFu32 == value) by (bit_vector);
                } else {
                    assert(kk < n && n < 32 ==> ((value & (((1u32 << n) - 1u32) as u32)) >> kk) & 1u32 == (
                    value >> kk) & 1u32) by (bit_vector);
                }
            }
        }
        let ghost old_bits = self@;
        let mut i: usize = 0;
        while i < num_bits
            invariant
                self.wf(),
                1 <= num_bits <= 32,
                old_bits.len() + num_bits <= usize::MAX,
                i <= num_bits,
                self.bit_offset == old_bits.len() + i,
                self@ == old_bits + word_bits(value, i as nat),
                forall|k: int| 0 <= k < num_bits ==> #[trigger] word_bit(masked, k) == word_bit(value, k),
            decreases num_bits - i,
        {
            let byte_idx = self.bit_offset / 8;
            let bit_idx = self.bit_offset % 8;
            let ghost before = self.data@;
            let ghost prev_view = self@;
            if byte_idx >= self.data.len() {
                proof {
                    lemma_push_zero_byte(self.data@);
                }
                self.data.push(0);
            }
            let bit = (masked >> (i as u32)) & 1u32;
            proof {
                assert(bit <= 1) by (bit_vector)
                    requires
                        bit == (masked >> (i as u32)) & 1u32,
                ;
            }
            let bit8 = bit as u8;
            let cur = self.data[byte_idx];
            let ghost mid = self.data@;
            proof {
                lemma_set_bit(mid, byte_idx as int, bit_idx as u8, bit8);
            }
            self.data.set(byte_idx, cur | (bit8 << (bit_idx as u8)));
            let ghost off = self.bit_offset as int;
            self.bit_offset = self.bit_offset + 1;
            proof {
                let s0 = stream_bits(before);
                let s1 = stream_bits(mid);
                let s2 = stream_bits(self.data@);
                assert(off == byte_idx * 8 + bit_idx);
                assert forall|j: int| 0 <= j < off implies s2[j] == s0[j] by {
                    if before.len() < mid.len() {
                        assert(s1 == s0 + zero_bits(8));
                    }
                }
                assert(!s1[off]);
                assert(s2[off] == (bit == 1u32));
                assert forall|j: int| off + 1 <= j < s2.len() implies !(#[trigger] s2[j]) by {
                    if j < s0.len() {
                    } else {
                        assert(s1 == s0 + zero_bits(8));
                    }
                }
                assert(word_bit(masked, i as int) == word_bit(value, i as int));
                assert(word_bit(masked, i as int) == (bit == 1u32));
                let target = old_bits + word_bits(value, (i + 1) as nat);
                assert forall|j: int| 0 <= j < off + 1 implies #[trigger] self@[j] == target[j] by {
                    if j < off {
                        assert(prev_view[j] == s0[j]);
                        assert(prev_view[j] == (old_bits + word_bits(value, i as nat))[j]);
                    }
                }
                assert(self@ =~= target);
            }
            i = i + 1;
        }
        Ok(())
    }

    /// Appends one bit.
    pub fn write_bit(&mut self, value: bool) -> (result: Result<(), NetError>)
        requires
            old(self).wf(),
            old(self)@.len() + 1 <= usize::MAX,
        ensures
            final(self).wf(),
            result is Ok,
            final(self)@ == old(self)@.push(value),
    {
        let r = self.write_bits(if value { 1 } else { 0 }, 1);
        proof {
            let v: u32 = if value { 1 } else { 0 };
            assert((v >> 0u32) & 1u32 == 1u32 <==> value) by (bit_vector)
                requires
                    v == if value { 1u32 } else { 0u32 },
            ;
            assert(word_bits(v, 1) =~= seq![value]);
        }
        r
    }

    /// Appends 8 bits.
    pub fn write_byte(&mut self, value: u8) -> (result: Result<(), NetError>)
        requires
            old(self).wf(),
            old(self)@.len() + 8 <= usize::MAX,
        ensures
            final(self).wf(),
            result is Ok,
            final(self)@ == old(self)@ + word_bits(value as u32, 8),
    {
        self.write_bits(value as u32, 8)
    }

    /// Appends 16 bits.
    pub fn write_u16(&mut self, value: u16) -> (result: Result<(), NetError>)
        requires
            old(self).wf(),
            old(self)@.len() + 16 <= usize::MAX,
        ensures
            final(self).wf(),
            result is Ok,
            final(self)@ == old(self)@ + word_bits(value as u32, 16),
    {
        self.write_bits(value as u32, 16)
    }

    /// Appends 32 bits.
    pub fn write_u32(&mut self, value: u32) -> (result: Result<(), NetError>)
        requires
            old(self).wf(),
            old(self)@.len() + 32 <= usize::MAX,
        ensures
            final(self).wf(),
            result is Ok,
            final(self)@ == old(self)@ + word_bits(value, 32),
    {
        self.write_bits(value, 32)
    }

    /// Pads with zero bits up to the next byte boundary (nothing when already on one).
    pub fn align(&mut self)
        requires
            old(self).wf(),
            old(self)@.len() + 8 <= usize::MAX,
        ensures
            final(self).wf(),
            final(self)@ == old(self)@ + zero_bits(
                (ceil_bytes(old(self)@.len()) * 8 - old(self)@.len()) as nat,
            ),
    {
        proof {
            self.lemma_packing();
            lemma_ceil_bytes(self@.len());
        }
        let remainder = self.bit_offset % 8;
        if remainder != 0 {
            let _ = self.write_bits(0, 8 - remainder);
            proof {
                lemma_word_bits_zero((8 - remainder) as nat);
            }
        } else {
            assert(old(self)@ =~= old(self)@ + zero_bits(0));
        }
    }

    /// Appends zero bytes until at least `min_size` bytes have been written.
    pub fn pad_to_minimum(&mut self, min_size: usize)
        requires
            old(self).wf(),
            old(self)@.len() + 8 * min_size + 8 <= usize::MAX,
        ensures
            final(self).wf(),
            final(self)@ == old(self)@ + zero_bits(
                (8 * if ceil_bytes(old(self)@.len()) < min_size {
                    min_size - ceil_bytes(old(self)@.len())
                } else {
                    0
                }) as nat,
            ),
    {
        let ghost start = self@;
        let ghost start_bytes = ceil_bytes(start.len());
        assert(start =~= start + zero_bits(0));
        while self.byte_position() < min_size
            invariant
                self.wf(),
                start.len() + 8 * min_size + 8 <= usize::MAX,
                start_bytes == ceil_bytes(start.len()),
                self@.len() >= start.len(),
                (self@.len() - start.len()) % 8 == 0,
                ceil_bytes(self@.len()) == start_bytes + (self@.len() - start.len()) / 8,
                start_bytes < min_size ==> ceil_bytes(self@.len()) <= min_size,
                start_bytes >= min_size ==> self@.len() == start.len(),
                self@ == start + zero_bits((self@.len() - start.len()) as nat),
            decreases min_size - ceil_bytes(self@.len()),
        {
            let ghost before = self@;
            let _ = self.write_byte(0);
            proof {
                lemma_word_bits_zero(8);
                assert(self@ =~= start + zero_bits((self@.len() - start.len()) as nat));
            }
        }
    }

    /// Consumes the writer and returns its bytes.
    pub fn into_bytes(self) -> (r: Vec<u8>)
        requires
            self.wf(),
        ensures
            is_packing(r@, self@),
    {
        proof {
            self.lemma_packing();
        }
        self.data
    }

    /// The bytes written so far.
    pub fn as_bytes(&self) -> (r: &[u8])
        requires
            self.wf(),
        ensures
            is_packing(r@, self@),
    {
        proof {
            self.lemma_packing();
        }
        self.data.as_slice()
    }

    /// The number of bytes written (bits rounded up to whole bytes).
    pub fn len(&self) -> (r: usize)
        requires
            self.wf(),
        ensures
            r == ceil_bytes(self@.len()),
    {
        self.byte_position()
    }

    /// Whether nothing has been written.
    pub fn is_empty(&self) -> (r: bool)
        requires
            self.wf(),
        ensures
            r == (self@.len() == 0),
    {
        proof {
            self.lemma_packing();
        }
        self.bit_offset == 0
    }
}

impl Default for BitStreamWriter {
    fn default() -> (w: Self)
        ensures
            w.wf(),
            w@ == Seq::<bool>::empty(),
    {
        Self::new()
    }
}

} // verus!
