//! Reading and writing unsigned fields packed most-significant-bit first,
//! and byte arrays, inside a byte buffer.
use vstd::prelude::*;
use vstd::arithmetic::power2::{pow2, lemma2_to64, lemma_pow2_strictly_increases, lemma_pow2_unfold};

use crate::error::PacketError;

verus! {

/// Bit `k` of `s`, counting from the most significant bit of `s[0]`.
pub open spec fn bit_at(s: Seq<u8>, k: int) -> nat {
    ((s[k / 8] >> ((7 - k % 8) as u8)) & 1u8) as nat
}

/// The unsigned integer spelled by the `w` bits of `s` starting at bit `k`,
/// the first of them being the most significant.
pub open spec fn bits_value(s: Seq<u8>, k: int, w: nat) -> nat
    decreases w,
{
    if w == 0 {
        0
    } else {
        2 * bits_value(s, k, (w - 1) as nat) + bit_at(s, k + w - 1)
    }
}

/// Absolute index of the first bit of a field at bit `pos` of a header at
/// byte `base`.
pub open spec fn start_bit(base: usize, pos: usize) -> int {
    base * 8 + pos
}

/// Number of bytes of an array of `count` elements of `elem_bits` bits each.
pub open spec fn array_len(elem_bits: u32, count: u32) -> nat {
    ((elem_bits / 8) * count) as nat
}

/// Byte index of the first byte of a byte-aligned field.
pub open spec fn start_byte(base: usize, pos: usize) -> int {
    base + pos / 8
}

/// `s` with the bytes from `start` on replaced by `data`.
pub open spec fn splice(s: Seq<u8>, start: int, data: Seq<u8>) -> Seq<u8> {
    s.subrange(0, start) + data + s.subrange(start + data.len(), s.len() as int)
}

/// A field of `width` bits at bit `pos` of a header at byte `base` lies
/// within a buffer of `len` bytes.
pub open spec fn bits_fit(len: nat, base: usize, pos: usize, width: nat) -> bool {
    start_bit(base, pos) + width <= len * 8
}

pub proof fn lemma_bit_at_le_1(s: Seq<u8>, k: int)
    ensures
        bit_at(s, k) <= 1,
{
    let b = s[k / 8];
    let sh = (7 - k % 8) as u8;
    assert((b >> sh) & 1u8 <= 1u8) by (bit_vector);
}

pub proof fn lemma_bits_value_bound(s: Seq<u8>, k: int, w: nat)
    ensures
        bits_value(s, k, w) < pow2(w),
    decreases w,
{
    if w > 0 {
        lemma_bits_value_bound(s, k, (w - 1) as nat);
        lemma_bit_at_le_1(s, k + w - 1);
        lemma_pow2_unfold(w);
    } else {
        lemma2_to64();
    }
}

/// Reads the `width`-bit field at bit `pos` of the header at byte `base`.
pub fn read_bits(buf: &[u8], base: usize, pos: usize, width: u32) -> (r: Result<u32, PacketError>)
    requires
        width <= 32,
    ensures
        bits_fit(buf@.len(), base, pos, width as nat) ==> r == Ok::<u32, PacketError>(
            bits_value(buf@, start_bit(base, pos), width as nat) as u32,
        ),
        !bits_fit(buf@.len(), base, pos, width as nat) ==> r == Err::<u32, PacketError>(
            PacketError::BufferTooShort,
        ),
{
    let start: u128 = base as u128 * 8 + pos as u128;
    if start + width as u128 > buf.len() as u128 * 8 {
        return Err(PacketError::BufferTooShort);
    }
    let mut acc: u64 = 0;
    let mut i: u32 = 0;
    while i < width
        invariant
            i <= width <= 32,
            start == start_bit(base, pos),
            start + width <= buf@.len() * 8,
            acc == bits_value(buf@, start as int, i as nat),
        decreases width - i,
    {
        let k: u128 = start + i as u128;
        let byte: u8 = buf[(k / 8) as usize];
        let bit: u8 = (byte >> ((7 - k % 8) as u8)) & 1;
        proof {
            lemma_bits_value_bound(buf@, start as int, i as nat);
            lemma2_to64();
            lemma_pow2_strictly_increases(i as nat, 32);
            lemma_bit_at_le_1(buf@, k as int);
        }
        acc = acc * 2 + bit as u64;
        i = i + 1;
    }
    proof {
        lemma_bits_value_bound(buf@, start as int, width as nat);
        lemma2_to64();
        if width < 32 {
            lemma_pow2_strictly_increases(width as nat, 32);
        }
    }
    Ok(acc as u32)
}

/// `bits_value` only depends on the bits it spans.
pub proof fn lemma_bits_value_ext(s1: Seq<u8>, s2: Seq<u8>, k: int, w: nat)
    requires
        forall|j: int| k <= j < k + w ==> bit_at(s1, j) == bit_at(s2, j),
    ensures
        bits_value(s1, k, w) == bits_value(s2, k, w),
    decreases w,
{
    if w > 0 {
        lemma_bits_value_ext(s1, s2, k, (w - 1) as nat);
        assert(bit_at(s1, k + w - 1) == bit_at(s2, k + w - 1));
    }
}

proof fn lemma_byte_set_bit(b: u8, sh: u8, t: u8)
    requires
        sh < 8,
        t < 8,
    ensures
        ((b | (1u8 << sh)) >> t) & 1u8 == (if t == sh { 1u8 } else { (b >> t) & 1u8 }),
        ((b & !(1u8 << sh)) >> t) & 1u8 == (if t == sh { 0u8 } else { (b >> t) & 1u8 }),
{
    assert(((b | (1u8 << sh)) >> t) & 1u8 == (if t == sh { 1u8 } else { (b >> t) & 1u8 }))
        by (bit_vector)
        requires
            sh < 8,
            t < 8,
    ;
    assert(((b & !(1u8 << sh)) >> t) & 1u8 == (if t == sh { 0u8 } else { (b >> t) & 1u8 }))
        by (bit_vector)
        requires
            sh < 8,
            t < 8,
    ;
}

proof fn lemma_shr_step(v: u64, sh: u64)
    requires
        sh < 63,
    ensures
        (v >> sh) as int == 2 * ((v >> (sh + 1) as u64) as int) + ((v >> sh) & 1u64) as int,
{
    let a = v >> sh;
    assert(a >> 1u64 == v >> (sh + 1) as u64) by (bit_vector)
        requires
            a == v >> sh,
            sh < 63,
    ;
    assert(a >> 1u64 == a / 2 && a & 1u64 == a % 2) by (bit_vector);
}

/// `v` fits in `w` bits exactly when shifting it right by `w` leaves nothing.
proof fn lemma_fits_iff_shr_zero(v: u64, w: u64)
    requires
        w < 64,
    ensures
        (v >> w == 0) <==> (v as nat) < pow2(w as nat),
{
    vstd::bits::lemma_u64_shr_is_div(v, w);
    vstd::arithmetic::power2::lemma_pow2_pos(w as nat);
    if (v as nat) < pow2(w as nat) {
        vstd::arithmetic::div_mod::lemma_basic_div_specific_divisor(pow2(w as nat) as int);
    } else {
        vstd::arithmetic::div_mod::lemma_div_non_zero(v as int, pow2(w as nat) as int);
    }
}

/// Writes `value` into the `width`-bit field at bit `pos` of the header at
/// byte `base`, leaving every other bit of the buffer as it was.
pub fn write_bits(buf: &mut [u8], base: usize, pos: usize, width: u32, value: u32) -> (r: Result<
    (),
    PacketError,
>)
    requires
        width <= 32,
    ensures
        final(buf)@.len() == old(buf)@.len(),
        !bits_fit(old(buf)@.len(), base, pos, width as nat) ==> r == Err::<(), PacketError>(
            PacketError::BufferTooShort,
        ) && final(buf)@ == old(buf)@,
        bits_fit(old(buf)@.len(), base, pos, width as nat) && value as nat >= pow2(width as nat)
            ==> r == Err::<(), PacketError>(PacketError::RangeError) && final(buf)@ == old(buf)@,
        bits_fit(old(buf)@.len(), base, pos, width as nat) && (value as nat) < pow2(width as nat)
            ==> r is Ok,
        r is Ok ==> bits_value(final(buf)@, start_bit(base, pos), width as nat) == value,
        r is Ok ==> forall|j: int|
            0 <= j < old(buf)@.len() * 8 && !(start_bit(base, pos) <= j < start_bit(base, pos)
                + width) ==> #[trigger] bit_at(final(buf)@, j) == bit_at(old(buf)@, j),
{
    let start: u128 = base as u128 * 8 + pos as u128;
    if start + width as u128 > buf.len() as u128 * 8 {
        return Err(PacketError::BufferTooShort);
    }
    let v: u64 = value as u64;
    proof {
        lemma_fits_iff_shr_zero(v, width as u64);
    }
    if v >> width != 0 {
        return Err(PacketError::RangeError);
    }
    let ghost old_buf = buf@;
    let mut i: u32 = 0;
    while i < width
        invariant
            i <= width <= 32,
            v == value,
            start == start_bit(base, pos),
            start + width <= old_buf.len() * 8,
            buf@.len() == old_buf.len(),
            bits_value(buf@, start as int, i as nat) == v >> (width - i) as u64,
            forall|j: int|
                0 <= j < old_buf.len() * 8 && !(start <= j < start + i) ==> #[trigger] bit_at(buf@, j)
                    == bit_at(old_buf, j),
        decreases width - i,
    {
        let k: u128 = start + i as u128;
        assert(k / 8 < buf@.len());
        let idx: usize = (k / 8) as usize;
        let sh: u8 = (7 - k % 8) as u8;
        let bit: u64 = (v >> (width - 1 - i)) & 1;
        let byte: u8 = buf[idx];
        let new_byte: u8 = if bit == 1 {
            byte | (1u8 << sh)
        } else {
            byte & !(1u8 << sh)
        };
        let ghost prev = buf@;
        buf[idx] = new_byte;
        proof {
            assert forall|j: int| 0 <= j < old_buf.len() * 8 implies #[trigger] bit_at(buf@, j) == (
            if j == k {
                bit as nat
            } else {
                bit_at(prev, j)
            }) by {
                if j / 8 == idx as int {
                    lemma_byte_set_bit(byte, sh, (7 - j % 8) as u8);
                    assert((bit & 1u64) == bit) by (bit_vector)
                        requires
                            bit == (v >> (width - 1 - i) as u64) & 1u64,
                    ;
                    if bit != 1 {
                        assert(bit == 0) by (bit_vector)
                            requires
                                bit == (v >> (width - 1 - i) as u64) & 1u64,
                                bit != 1,
                        ;
                    }
                }
            }
            lemma_bits_value_ext(buf@, prev, start as int, i as nat);
            lemma_shr_step(v, (width - 1 - i) as u64);
        }
        i = i + 1;
    }
    assert(v >> 0u64 == v) by (bit_vector);
    Ok(())
}

/// Borrows the byte-aligned array field at bit `pos` of the header at byte
/// `base`.
pub fn read_array<'a>(buf: &'a [u8], base: usize, pos: usize, elem_bits: u32, count: u32) -> (r:
    Result<&'a [u8], PacketError>)
    requires
        pos % 8 == 0,
        elem_bits % 8 == 0,
    ensures
        start_byte(base, pos) + array_len(elem_bits, count) <= buf@.len() ==> r is Ok && r->Ok_0@
            == buf@.subrange(
            start_byte(base, pos),
            start_byte(base, pos) + array_len(elem_bits, count),
        ),
        start_byte(base, pos) + array_len(elem_bits, count) > buf@.len() ==> r == Err::<
            &'a [u8],
            PacketError,
        >(PacketError::BufferTooShort),
{
    let e: u128 = (elem_bits / 8) as u128;
    let c: u128 = count as u128;
    assert(e * c <= 0xffff_ffff * 0xffff_ffff) by (nonlinear_arith)
        requires
            e <= 0xffff_ffff,
            c <= 0xffff_ffff,
    ;
    let n: u128 = e * c;
    let start: u128 = base as u128 + (pos / 8) as u128;
    if start + n > buf.len() as u128 {
        return Err(PacketError::BufferTooShort);
    }
    Ok(vstd::slice::slice_subrange(buf, start as usize, (start + n) as usize))
}

/// Copies `src` into the byte-aligned array field at bit `pos` of the header
/// at byte `base`.
pub fn write_array(
    buf: &mut [u8],
    base: usize,
    pos: usize,
    elem_bits: u32,
    count: u32,
    src: &[u8],
) -> (r: Result<(), PacketError>)
    requires
        pos % 8 == 0,
        elem_bits % 8 == 0,
    ensures
        start_byte(base, pos) + array_len(elem_bits, count) > old(buf)@.len() ==> r == Err::<
            (),
            PacketError,
        >(PacketError::BufferTooShort) && final(buf)@ == old(buf)@,
        start_byte(base, pos) + array_len(elem_bits, count) <= old(buf)@.len() && src@.len()
            != array_len(elem_bits, count) ==> r == Err::<(), PacketError>(PacketError::RangeError)
            && final(buf)@ == old(buf)@,
        start_byte(base, pos) + array_len(elem_bits, count) <= old(buf)@.len() && src@.len()
            == array_len(elem_bits, count) ==> r is Ok && final(buf)@ == splice(
            old(buf)@,
            start_byte(base, pos),
            src@,
        ),
{
    let e: u128 = (elem_bits / 8) as u128;
    let c: u128 = count as u128;
    assert(e * c <= 0xffff_ffff * 0xffff_ffff) by (nonlinear_arith)
        requires
            e <= 0xffff_ffff,
            c <= 0xffff_ffff,
    ;
    let n: u128 = e * c;
    let start: u128 = base as u128 + (pos / 8) as u128;
    if start + n > buf.len() as u128 {
        return Err(PacketError::BufferTooShort);
    }
    if src.len() as u128 != n {
        return Err(PacketError::RangeError);
    }
    let first: usize = start as usize;
    let ghost old_buf = buf@;
    let mut i: usize = 0;
    while i < src.len()
        invariant
            i <= src@.len(),
            first + src@.len() <= old_buf.len(),
            buf@.len() == old_buf.len(),
            buf.len() == old_buf.len(),
            buf@ == splice(old_buf, first as int, src@.subrange(0, i as int)),
        decreases src@.len() - i,
    {
        buf[first + i] = src[i];
        i = i + 1;
        assert(buf@ =~= splice(old_buf, first as int, src@.subrange(0, i as int)));
    }
    assert(src@.subrange(0, src@.len() as int) =~= src@);
    Ok(())
}

} // verus!
