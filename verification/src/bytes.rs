//! Little-endian integer encodings used by the packet formats.

use vstd::prelude::*;

verus! {

/// The two bytes of `v`, least significant first.
pub open spec fn le16(v: u16) -> Seq<u8> {
    seq![(v & 0xffu16) as u8, (v >> 8u16) as u8]
}

/// The four bytes of `v`, least significant first.
pub open spec fn le32(v: u32) -> Seq<u8> {
    seq![
        (v & 0xffu32) as u8,
        ((v >> 8u32) & 0xffu32) as u8,
        ((v >> 16u32) & 0xffu32) as u8,
        ((v >> 24u32) & 0xffu32) as u8,
    ]
}

/// The eight bytes of `v`, least significant first.
pub open spec fn le64(v: u64) -> Seq<u8> {
    Seq::new(8, |i: int| ((v >> ((8 * i) as u64)) & 0xffu64) as u8)
}

/// The sixteen bytes of `v`, least significant first.
pub open spec fn le128(v: u128) -> Seq<u8> {
    Seq::new(16, |i: int| ((v >> ((8 * i) as u128)) & 0xffu128) as u8)
}

/// The `u16` whose little-endian bytes are `b0, b1`.
pub open spec fn from_le16(b0: u8, b1: u8) -> u16 {
    (b0 as u16) | ((b1 as u16) << 8u16)
}

/// The `u32` whose little-endian bytes start at `s[at]`.
pub open spec fn from_le32(s: Seq<u8>, at: int) -> u32 {
    (s[at] as u32) | ((s[at + 1] as u32) << 8u32) | ((s[at + 2] as u32) << 16u32) | ((s[at
        + 3] as u32) << 24u32)
}

/// The `u64` whose little-endian bytes are `s[at..at + 8]`.
pub open spec fn from_le64(s: Seq<u8>, at: int) -> u64
    decreases 8nat,
{
    from_le64_prefix(s, at, 8)
}

/// The value of the first `n` little-endian bytes at `s[at]`.
pub open spec fn from_le64_prefix(s: Seq<u8>, at: int, n: nat) -> u64
    decreases n,
{
    if n == 0 {
        0
    } else {
        from_le64_prefix(s, at, (n - 1) as nat) | ((s[at + n - 1] as u64) << ((8 * (n - 1)) as u64))
    }
}

/// The `u128` whose little-endian bytes are `s[at..at + 16]`.
pub open spec fn from_le128(s: Seq<u8>, at: int) -> u128 {
    from_le128_prefix(s, at, 16)
}

/// The value of the first `n` little-endian bytes at `s[at]`.
pub open spec fn from_le128_prefix(s: Seq<u8>, at: int, n: nat) -> u128
    decreases n,
{
    if n == 0 {
        0
    } else {
        from_le128_prefix(s, at, (n - 1) as nat) | ((s[at + n - 1] as u128) << ((8 * (n - 1))
            as u128))
    }
}

/// Appends the little-endian bytes of `v`.
pub fn push_le16(out: &mut Vec<u8>, v: u16)
    ensures
        final(out)@ == old(out)@ + le16(v),
{
    out.push((v & 0xff) as u8);
    out.push((v >> 8) as u8);
    assert(final(out)@ =~= old(out)@ + le16(v));
}

/// Appends the little-endian bytes of `v`.
pub fn push_le32(out: &mut Vec<u8>, v: u32)
    ensures
        final(out)@ == old(out)@ + le32(v),
{
    out.push((v & 0xff) as u8);
    out.push(((v >> 8) & 0xff) as u8);
    out.push(((v >> 16) & 0xff) as u8);
    out.push(((v >> 24) & 0xff) as u8);
    assert(final(out)@ =~= old(out)@ + le32(v));
}

/// Appends the little-endian bytes of `v`.
pub fn push_le64(out: &mut Vec<u8>, v: u64)
    ensures
        final(out)@ == old(out)@ + le64(v),
{
    let mut i: u64 = 0;
    while i < 8
        invariant
            i <= 8,
            out@.len() == old(out)@.len() + i,
            out@.subrange(0, old(out)@.len() as int) == old(out)@,
            forall|k: int| 0 <= k < i ==> #[trigger] out@[old(out)@.len() + k] == le64(v)[k],
        decreases 8 - i,
    {
        out.push(((v >> (8 * i)) & 0xff) as u8);
        i = i + 1;
    }
    assert forall|k: int| 0 <= k < out@.len() implies #[trigger] out@[k] == (old(out)@ + le64(v))[k] by {
        if k >= old(out)@.len() {
            let j = k - old(out)@.len();
            assert(out@[old(out)@.len() + j] == le64(v)[j]);
        } else {
            assert(out@.subrange(0, old(out)@.len() as int)[k] == out@[k]);
        }
    }
    assert(out@ =~= old(out)@ + le64(v));
}

/// Appends the little-endian bytes of `v`.
pub fn push_le128(out: &mut Vec<u8>, v: u128)
    ensures
        final(out)@ == old(out)@ + le128(v),
{
    let mut i: u128 = 0;
    while i < 16
        invariant
            i <= 16,
            out@.len() == old(out)@.len() + i,
            out@.subrange(0, old(out)@.len() as int) == old(out)@,
            forall|k: int| 0 <= k < i ==> #[trigger] out@[old(out)@.len() + k] == le128(v)[k],
        decreases 16 - i,
    {
        out.push(((v >> (8 * i)) & 0xff) as u8);
        i = i + 1;
    }
    assert forall|k: int| 0 <= k < out@.len() implies #[trigger] out@[k] == (old(out)@ + le128(v))[k] by {
        if k >= old(out)@.len() {
            let j = k - old(out)@.len();
            assert(out@[old(out)@.len() + j] == le128(v)[j]);
        } else {
            assert(out@.subrange(0, old(out)@.len() as int)[k] == out@[k]);
        }
    }
    assert(out@ =~= old(out)@ + le128(v));
}

/// Reads a little-endian `u16` at `at`.
pub fn read_le16(s: &[u8], at: usize) -> (r: u16)
    requires
        at + 2 <= s@.len(),
    ensures
        r == from_le16(s@[at as int], s@[at + 1]),
{
    (s[at] as u16) | ((s[at + 1] as u16) << 8)
}

/// Reads a little-endian `u32` at `at`.
pub fn read_le32(s: &[u8], at: usize) -> (r: u32)
    requires
        at + 4 <= s@.len(),
    ensures
        r == from_le32(s@, at as int),
{
    (s[at] as u32) | ((s[at + 1] as u32) << 8) | ((s[at + 2] as u32) << 16) | ((s[at + 3]
        as u32) << 24)
}

/// Reads a little-endian `u64` at `at`.
pub fn read_le64(s: &[u8], at: usize) -> (r: u64)
    requires
        at + 8 <= s@.len(),
    ensures
        r == from_le64(s@, at as int),
{
    let mut r: u64 = 0;
    let mut n: usize = 0;
    let len = s.len();
    while n < 8
        invariant
            n <= 8,
            at + 8 <= s@.len(),
            len == s@.len(),
            r == from_le64_prefix(s@, at as int, n as nat),
        decreases 8 - n,
    {
        r = r | ((s[at + n] as u64) << ((8 * n) as u64));
        n = n + 1;
    }
    r
}

/// Reads a little-endian `u128` at `at`.
pub fn read_le128(s: &[u8], at: usize) -> (r: u128)
    requires
        at + 16 <= s@.len(),
    ensures
        r == from_le128(s@, at as int),
{
    let mut r: u128 = 0;
    let mut n: usize = 0;
    let len = s.len();
    while n < 16
        invariant
            n <= 16,
            at + 16 <= s@.len(),
            len == s@.len(),
            r == from_le128_prefix(s@, at as int, n as nat),
        decreases 16 - n,
    {
        r = r | ((s[at + n] as u128) << ((8 * n) as u128));
        n = n + 1;
    }
    r
}

/// Little-endian bytes of a `u16` read back as the same value.
pub proof fn lemma_le16_roundtrip(v: u16)
    ensures
        from_le16(le16(v)[0], le16(v)[1]) == v,
{
    assert(((v & 0xffu16) as u8) as u16 | ((((v >> 8u16) as u8) as u16) << 8u16) == v)
        by (bit_vector);
}

/// Little-endian bytes of a `u32` read back as the same value.
pub proof fn lemma_le32_roundtrip(v: u32, s: Seq<u8>, at: int)
    requires
        0 <= at,
        at + 4 <= s.len(),
        s.subrange(at, at + 4) == le32(v),
    ensures
        from_le32(s, at) == v,
{
    assert(s[at] == le32(v)[0]);
    assert(s[at + 1] == le32(v)[1]);
    assert(s[at + 2] == le32(v)[2]);
    assert(s[at + 3] == le32(v)[3]);
    assert(((v & 0xffu32) as u8) as u32 | ((((v >> 8u32) & 0xffu32) as u8) as u32) << 8u32 | ((((v
        >> 16u32) & 0xffu32) as u8) as u32) << 16u32 | ((((v >> 24u32) & 0xffu32) as u8) as u32)
        << 24u32 == v) by (bit_vector);
}

/// Little-endian bytes of a `u64` read back as the same value.
pub proof fn lemma_le64_roundtrip(v: u64, s: Seq<u8>, at: int)
    requires
        0 <= at,
        at + 8 <= s.len(),
        s.subrange(at, at + 8) == le64(v),
    ensures
        from_le64(s, at) == v,
{
    assert forall|k: int| 0 <= k < 8 implies #[trigger] le64(v)[k] == s[at + k] by {
        assert(s.subrange(at, at + 8)[k] == s[at + k]);
    }
    lemma_le64_prefix(v, s, at, 8);
}

proof fn lemma_le64_prefix(v: u64, s: Seq<u8>, at: int, n: nat)
    requires
        0 <= at,
        n <= 8,
        at + 8 <= s.len(),
        forall|k: int| 0 <= k < 8 ==> #[trigger] le64(v)[k] == s[at + k],
    ensures
        n < 8 ==> from_le64_prefix(s, at, n) == v & ((1u64 << ((8 * n) as u64)) - 1u64) as u64,
        n == 8 ==> from_le64_prefix(s, at, n) == v,
    decreases n,
{
    if n == 0 {
        assert(v & (((1u64 << 0u64) - 1u64) as u64) == 0u64) by (bit_vector);
    } else {
        let m = (n - 1) as nat;
        lemma_le64_prefix(v, s, at, m);
        let b = s[at + m];
        let sh = (8 * m) as u64;
        assert(le64(v)[m as int] == b);
        if n < 8 {
            assert(sh < 56 && b == ((v >> sh) & 0xffu64) as u8 ==> (v & (((1u64 << sh) - 1u64)
                as u64)) | ((b as u64) << sh) == v & (((1u64 << ((sh + 8) as u64)) - 1u64)
                as u64)) by (bit_vector);
        } else {
            assert(sh == 56 && b == ((v >> sh) & 0xffu64) as u8 ==> (v & (((1u64 << sh) - 1u64)
                as u64)) | ((b as u64) << sh) == v) by (bit_vector);
        }
    }
}

/// Little-endian bytes of a `u128` read back as the same value.
pub proof fn lemma_le128_roundtrip(v: u128, s: Seq<u8>, at: int)
    requires
        0 <= at,
        at + 16 <= s.len(),
        s.subrange(at, at + 16) == le128(v),
    ensures
        from_le128(s, at) == v,
{
    assert forall|k: int| 0 <= k < 16 implies #[trigger] le128(v)[k] == s[at + k] by {
        assert(s.subrange(at, at + 16)[k] == s[at + k]);
    }
    lemma_le128_prefix(v, s, at, 16);
}

proof fn lemma_le128_prefix(v: u128, s: Seq<u8>, at: int, n: nat)
    requires
        0 <= at,
        n <= 16,
        at + 16 <= s.len(),
        forall|k: int| 0 <= k < 16 ==> #[trigger] le128(v)[k] == s[at + k],
    ensures
        n < 16 ==> from_le128_prefix(s, at, n) == v & ((1u128 << ((8 * n) as u128)) - 1u128) as u128,
        n == 16 ==> from_le128_prefix(s, at, n) == v,
    decreases n,
{
    if n == 0 {
        assert(v & (((1u128 << 0u128) - 1u128) as u128) == 0u128) by (bit_vector);
    } else {
        let m = (n - 1) as nat;
        lemma_le128_prefix(v, s, at, m);
        let b = s[at + m];
        let sh = (8 * m) as u128;
        assert(le128(v)[m as int] == b);
        if n < 16 {
            assert(sh < 120 && b == ((v >> sh) & 0xffu128) as u8 ==> (v & (((1u128 << sh) - 1u128)
                as u128)) | ((b as u128) << sh) == v & (((1u128 << ((sh + 8) as u128)) - 1u128)
                as u128)) by (bit_vector);
        } else {
            assert(sh == 120 && b == ((v >> sh) & 0xffu128) as u8 ==> (v & (((1u128 << sh) - 1u128)
                as u128)) | ((b as u128) << sh) == v) by (bit_vector);
        }
    }
}

} // verus!
