//! Little-endian fields of byte strings.

use vstd::prelude::*;

verus! {

/// The 16-bit field that starts at `offset`.
pub open spec fn u16_at(s: Seq<u8>, offset: int) -> u16 {
    (s[offset] + 0x100 * s[offset + 1]) as u16
}

/// The 32-bit field that starts at `offset`.
pub open spec fn u32_at(s: Seq<u8>, offset: int) -> u32 {
    (s[offset] + 0x100 * s[offset + 1] + 0x1_0000 * s[offset + 2] + 0x100_0000 * s[offset
        + 3]) as u32
}

/// The 64-bit field that starts at `offset`.
pub open spec fn u64_at(s: Seq<u8>, offset: int) -> u64 {
    (u32_at(s, offset) + 0x1_0000_0000 * u32_at(s, offset + 4)) as u64
}

/// Whether every byte in `from..to` is zero.
pub open spec fn zeros(s: Seq<u8>, from: int, to: int) -> bool {
    forall|i: int| from <= i < to ==> #[trigger] s[i] == 0
}

/// Byte `index` of the little-endian encoding of `value`.
pub open spec fn le_byte(value: int, index: int) -> u8 {
    if index == 0 {
        (value % 0x100) as u8
    } else if index == 1 {
        (value / 0x100 % 0x100) as u8
    } else if index == 2 {
        (value / 0x1_0000 % 0x100) as u8
    } else if index == 3 {
        (value / 0x100_0000 % 0x100) as u8
    } else if index == 4 {
        (value / 0x1_0000_0000 % 0x100) as u8
    } else if index == 5 {
        (value / 0x100_0000_0000 % 0x100) as u8
    } else if index == 6 {
        (value / 0x1_0000_0000_0000 % 0x100) as u8
    } else {
        (value / 0x100_0000_0000_0000 % 0x100) as u8
    }
}

/// Reads the 16-bit field at `offset`, if the bytes reach that far.
pub fn read_u16(bytes: &[u8], offset: usize) -> (r: Option<u16>)
    ensures
        r == (if offset + 2 <= bytes@.len() {
            Some(u16_at(bytes@, offset as int))
        } else {
            None
        }),
{
    if bytes.len() < 2 || offset > bytes.len() - 2 {
        return None;
    }
    Some(bytes[offset] as u16 + 0x100 * (bytes[offset + 1] as u16))
}

/// Reads the 32-bit field at `offset`, if the bytes reach that far.
pub fn read_u32(bytes: &[u8], offset: usize) -> (r: Option<u32>)
    ensures
        r == (if offset + 4 <= bytes@.len() {
            Some(u32_at(bytes@, offset as int))
        } else {
            None
        }),
{
    if bytes.len() < 4 || offset > bytes.len() - 4 {
        return None;
    }
    Some(
        bytes[offset] as u32 + 0x100 * (bytes[offset + 1] as u32) + 0x1_0000 * (bytes[offset
            + 2] as u32) + 0x100_0000 * (bytes[offset + 3] as u32),
    )
}

/// Reads the 64-bit field at `offset`, if the bytes reach that far.
pub fn read_u64(bytes: &[u8], offset: usize) -> (r: Option<u64>)
    ensures
        r == (if offset + 8 <= bytes@.len() {
            Some(u64_at(bytes@, offset as int))
        } else {
            None
        }),
{
    if bytes.len() < 8 || offset > bytes.len() - 8 {
        return None;
    }
    match (read_u32(bytes, offset), read_u32(bytes, offset + 4)) {
        (Some(low), Some(high)) => Some(low as u64 + 0x1_0000_0000 * (high as u64)),
        _ => None,
    }
}

/// Whether every byte in `from..to` is zero.
pub fn all_zero(bytes: &[u8], from: usize, to: usize) -> (r: bool)
    requires
        from <= to <= bytes@.len(),
    ensures
        r == zeros(bytes@, from as int, to as int),
{
    let mut i: usize = from;
    while i < to
        invariant
            from <= i <= to <= bytes@.len(),
            zeros(bytes@, from as int, i as int),
        decreases to - i,
    {
        if bytes[i] != 0 {
            return false;
        }
        i += 1;
    }
    true
}

/// Whether two byte strings are the same.
pub fn same_bytes(a: &[u8], b: &[u8]) -> (r: bool)
    ensures
        r == (a@ == b@),
{
    if a.len() != b.len() {
        return false;
    }
    let mut i: usize = 0;
    while i < a.len()
        invariant
            i <= a@.len() == b@.len(),
            forall|j: int| 0 <= j < i ==> a@[j] == b@[j],
        decreases a@.len() - i,
    {
        if a[i] != b[i] {
            return false;
        }
        i += 1;
    }
    assert(a@ =~= b@);
    true
}

/// Copies the sixteen bytes at `offset`.
pub fn copy_16(bytes: &[u8], offset: usize) -> (r: [u8; 16])
    requires
        offset + 16 <= bytes@.len(),
    ensures
        r@ == bytes@.subrange(offset as int, offset + 16),
{
    let mut out: [u8; 16] = [0; 16];
    let mut i: usize = 0;
    while i < 16
        invariant
            i <= 16,
            offset + 16 <= bytes.len(),
            forall|j: int| 0 <= j < i ==> out@[j] == bytes@[offset + j],
        decreases 16 - i,
    {
        out[i] = bytes[offset + i];
        i += 1;
    }
    assert(out@ =~= bytes@.subrange(offset as int, offset + 16));
    out
}

/// Copies the thirty-two bytes at `offset`.
pub fn copy_32(bytes: &[u8], offset: usize) -> (r: [u8; 32])
    requires
        offset + 32 <= bytes@.len(),
    ensures
        r@ == bytes@.subrange(offset as int, offset + 32),
{
    let mut out: [u8; 32] = [0; 32];
    let mut i: usize = 0;
    while i < 32
        invariant
            i <= 32,
            offset + 32 <= bytes.len(),
            forall|j: int| 0 <= j < i ==> out@[j] == bytes@[offset + j],
        decreases 32 - i,
    {
        out[i] = bytes[offset + i];
        i += 1;
    }
    assert(out@ =~= bytes@.subrange(offset as int, offset + 32));
    out
}

/// The little-endian encoding of a 32-bit value.
pub open spec fn le32(value: u32) -> Seq<u8> {
    Seq::new(4, |i: int| le_byte(value as int, i))
}

/// The little-endian encoding of a 64-bit value.
pub open spec fn le64(value: u64) -> Seq<u8> {
    Seq::new(8, |i: int| le_byte(value as int, i))
}

/// What was encoded as a 32-bit field reads back.
pub proof fn law_le32_reads_back(s: Seq<u8>, offset: int, value: u32)
    requires
        0 <= offset,
        offset + 4 <= s.len(),
        s.subrange(offset, offset + 4) == le32(value),
    ensures
        u32_at(s, offset) == value,
{
    let t = s.subrange(offset, offset + 4);
    assert(t[0] == s[offset] && t[1] == s[offset + 1] && t[2] == s[offset + 2] && t[3] == s[offset
        + 3]);
}

/// What was encoded as a 64-bit field reads back.
pub proof fn law_le64_reads_back(s: Seq<u8>, offset: int, value: u64)
    requires
        0 <= offset,
        offset + 8 <= s.len(),
        s.subrange(offset, offset + 8) == le64(value),
    ensures
        u64_at(s, offset) == value,
{
    let t = s.subrange(offset, offset + 8);
    assert(t[0] == s[offset] && t[1] == s[offset + 1] && t[2] == s[offset + 2] && t[3] == s[offset
        + 3] && t[4] == s[offset + 4] && t[5] == s[offset + 5] && t[6] == s[offset + 6] && t[7]
        == s[offset + 7]);
    let v = value as int;
    let low = v % 0x1_0000_0000;
    let high = v / 0x1_0000_0000;
    lemma_four_bytes(low);
    lemma_four_bytes(high);
    assert(low / 0x100 % 0x100 == v / 0x100 % 0x100) by {
        lemma_low_byte(v, 0x100, 0x1_0000);
    }
    assert(low / 0x1_0000 % 0x100 == v / 0x1_0000 % 0x100) by {
        lemma_low_byte(v, 0x1_0000, 0x100);
    }
    assert(low / 0x100_0000 % 0x100 == v / 0x100_0000 % 0x100) by {
        lemma_low_byte(v, 0x100_0000, 1);
    }
    assert(low % 0x100 == v % 0x100);
    vstd::arithmetic::div_mod::lemma_div_denominator(v, 0x1_0000_0000, 0x100);
    vstd::arithmetic::div_mod::lemma_div_denominator(v, 0x1_0000_0000, 0x1_0000);
    vstd::arithmetic::div_mod::lemma_div_denominator(v, 0x1_0000_0000, 0x100_0000);
    assert(u32_at(s, offset) == low);
    assert(u32_at(s, offset + 4) == high);
}

/// A 32-bit number is the sum of its four weighted bytes.
proof fn lemma_four_bytes(v: int)
    requires
        0 <= v < 0x1_0000_0000,
    ensures
        v == v % 0x100 + 0x100 * (v / 0x100 % 0x100) + 0x1_0000 * (v / 0x1_0000 % 0x100)
            + 0x100_0000 * (v / 0x100_0000 % 0x100),
{
}

/// A byte of the low half is that byte of the whole.
proof fn lemma_low_byte(v: int, c: int, d: int)
    requires
        0 <= v,
        c > 0,
        d > 0,
        c * 0x100 * d == 0x1_0000_0000,
    ensures
        v % 0x1_0000_0000 / c % 0x100 == v / c % 0x100,
{
    let k = v / 0x1_0000_0000;
    let low = v % 0x1_0000_0000;
    assert(v == 0x1_0000_0000 * k + low);
    assert(0x1_0000_0000 * k == (0x100 * d * k) * c) by (nonlinear_arith)
        requires
            c * 0x100 * d == 0x1_0000_0000,
    ;
    vstd::arithmetic::div_mod::lemma_hoist_over_denominator(low, 0x100 * d * k, c as nat);
    assert(v / c == low / c + 0x100 * d * k);
    assert((low / c + 0x100 * (d * k)) % 0x100 == (low / c) % 0x100) by {
        vstd::arithmetic::div_mod::lemma_mod_multiples_vanish(d * k, low / c, 0x100);
    }
    assert(0x100 * d * k == 0x100 * (d * k)) by (nonlinear_arith);
}

/// Appends a 32-bit field.
pub fn push_u32(out: &mut Vec<u8>, value: u32)
    ensures
        final(out)@ == old(out)@ + le32(value),
{
    out.push((value % 0x100) as u8);
    out.push((value / 0x100 % 0x100) as u8);
    out.push((value / 0x1_0000 % 0x100) as u8);
    out.push((value / 0x100_0000 % 0x100) as u8);
    assert(out@ =~= old(out)@ + le32(value));
}

/// Appends a 64-bit field.
pub fn push_u64(out: &mut Vec<u8>, value: u64)
    ensures
        final(out)@ == old(out)@ + le64(value),
{
    out.push((value % 0x100) as u8);
    out.push((value / 0x100 % 0x100) as u8);
    out.push((value / 0x1_0000 % 0x100) as u8);
    out.push((value / 0x100_0000 % 0x100) as u8);
    out.push((value / 0x1_0000_0000 % 0x100) as u8);
    out.push((value / 0x100_0000_0000 % 0x100) as u8);
    out.push((value / 0x1_0000_0000_0000 % 0x100) as u8);
    out.push((value / 0x100_0000_0000_0000 % 0x100) as u8);
    assert(out@ =~= old(out)@ + le64(value));
}

/// Memory with `bytes` written at `at`.
pub open spec fn spliced(memory: Seq<u8>, at: int, bytes: Seq<u8>) -> Seq<u8> {
    Seq::new(
        memory.len(),
        |i: int|
            if at <= i < at + bytes.len() {
                bytes[i - at]
            } else {
                memory[i]
            },
    )
}

/// Writes `bytes` at `at`.
pub fn splice(memory: &mut Vec<u8>, at: usize, bytes: &[u8])
    requires
        at + bytes@.len() <= old(memory)@.len(),
    ensures
        final(memory)@ == spliced(old(memory)@, at as int, bytes@),
{
    let mut i: usize = 0;
    while i < bytes.len()
        invariant
            i <= bytes@.len(),
            at + bytes@.len() <= memory.len(),
            memory@.len() == old(memory)@.len(),
            forall|j: int|
                0 <= j < memory@.len() ==> #[trigger] memory@[j] == (if at <= j < at + i {
                    bytes@[j - at]
                } else {
                    old(memory)@[j]
                }),
        decreases bytes@.len() - i,
    {
        memory[at + i] = bytes[i];
        i += 1;
    }
    assert(memory@ =~= spliced(old(memory)@, at as int, bytes@));
}

} // verus!
