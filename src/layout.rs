//! Header layouts as ordered tables of fields, and field access through them.
use vstd::prelude::*;
use vstd::arithmetic::power2::pow2;

use crate::codec::{
    array_len, bit_at, bits_value, lemma_bits_value_ext, read_array, read_bits, splice, write_array,
    write_bits,
};
use crate::error::PacketError;

verus! {

/// What a field holds.
#[derive(Debug, Clone, Copy, PartialEq, Eq, Structural)]
pub enum FieldKind {
    /// An unsigned integer of the field's bit width.
    Scalar,
    /// This many elements of the field's bit width, stored byte-aligned.
    Array(u32),
}

/// One entry of a header layout.
#[derive(Debug, Clone, Copy)]
pub struct FieldSpec {
    pub name: &'static str,
    /// The width of the field, or of each element of an array field.
    pub bit_width: u32,
    pub kind: FieldKind,
}

impl FieldSpec {
    /// Number of elements: the length of an array, one for a scalar.
    pub fn count(&self) -> (r: u32)
        ensures
            r == match self.kind {
                FieldKind::Scalar => 1,
                FieldKind::Array(count) => count,
            },
    {
        match self.kind {
            FieldKind::Scalar => 1,
            FieldKind::Array(count) => count,
        }
    }
}

/// Number of bits the field occupies.
pub open spec fn field_bits(f: FieldSpec) -> nat {
    match f.kind {
        FieldKind::Scalar => f.bit_width as nat,
        FieldKind::Array(count) => (f.bit_width * count) as nat,
    }
}

/// Bit position of field `i` within its header: the widths of the fields
/// before it, summed.
pub open spec fn bit_pos(l: Seq<FieldSpec>, i: int) -> nat
    decreases i,
{
    if i <= 0 {
        0
    } else {
        bit_pos(l, i - 1) + field_bits(l[i - 1])
    }
}

/// Total width of a layout in bits.
pub open spec fn header_bits(l: Seq<FieldSpec>) -> nat {
    bit_pos(l, l.len() as int)
}

/// Size of a layout in bytes.
pub open spec fn header_bytes(l: Seq<FieldSpec>) -> nat {
    header_bits(l) / 8
}

pub open spec fn wf_field(f: FieldSpec) -> bool {
    &&& f.bit_width > 0
    &&& match f.kind {
        FieldKind::Scalar => f.bit_width <= 32,
        FieldKind::Array(count) => count > 0 && f.bit_width % 8 == 0,
    }
}

/// Widths are positive, scalars fit in 32 bits, arrays start on a byte, and
/// the whole header is a modest number of whole bytes.
pub open spec fn wf_layout(l: Seq<FieldSpec>) -> bool {
    &&& forall|i: int| 0 <= i < l.len() ==> wf_field(#[trigger] l[i])
    &&& forall|i: int| 0 <= i < l.len() && (#[trigger] l[i]).kind is Array ==> bit_pos(l, i) % 8 == 0
    &&& header_bits(l) % 8 == 0
    &&& header_bits(l) <= 0x10000
}

pub proof fn lemma_bit_pos_mono(l: Seq<FieldSpec>, i: int, j: int)
    requires
        0 <= i <= j,
    ensures
        bit_pos(l, i) <= bit_pos(l, j),
    decreases j - i,
{
    if i < j {
        lemma_bit_pos_mono(l, i, j - 1);
    }
}

/// A field lies inside its header, and before every later field.
pub proof fn lemma_field_in_header(l: Seq<FieldSpec>, i: int, j: int)
    requires
        0 <= i < j <= l.len(),
    ensures
        bit_pos(l, i) + field_bits(l[i]) <= bit_pos(l, j) <= header_bits(l),
{
    lemma_bit_pos_mono(l, i + 1, j);
    lemma_bit_pos_mono(l, j, l.len() as int);
}

/// A header type: a layout, and where in the buffer the header starts.
pub trait Header {
    spec fn spec_layout() -> Seq<FieldSpec>;

    spec fn spec_offset(&self) -> usize;

    proof fn lemma_layout_wf()
        ensures
            wf_layout(Self::spec_layout()),
    ;

    fn layout() -> (r: Vec<FieldSpec>)
        ensures
            r@ == Self::spec_layout(),
            wf_layout(r@),
    ;

    fn offset(&self) -> (r: usize)
        ensures
            r == self.spec_offset(),
    ;
}

/// Bit position of field `i`, summed from the table.
pub fn field_pos(layout: &[FieldSpec], i: usize) -> (r: usize)
    requires
        wf_layout(layout@),
        i <= layout@.len(),
    ensures
        r == bit_pos(layout@, i as int),
{
    let mut acc: usize = 0;
    let mut j: usize = 0;
    while j < i
        invariant
            j <= i <= layout@.len(),
            wf_layout(layout@),
            acc == bit_pos(layout@, j as int),
        decreases i - j,
    {
        let f = layout[j];
        proof {
            lemma_field_in_header(layout@, j as int, j + 1);
            assert(wf_field(layout@[j as int]));
        }
        let bits: u64 = match f.kind {
            FieldKind::Scalar => f.bit_width as u64,
            FieldKind::Array(count) => {
                assert(f.bit_width * count <= 0x10000);
                f.bit_width as u64 * count as u64
            },
        };
        acc = acc + bits as usize;
        j = j + 1;
    }
    acc
}

/// Size in bytes of the header a table lays out.
pub fn layout_bytes(layout: &[FieldSpec]) -> (r: usize)
    requires
        wf_layout(layout@),
    ensures
        r == header_bytes(layout@),
{
    field_pos(layout, layout.len()) / 8
}

/// Absolute bit index of the first bit of field `i` of a header at byte
/// `offset`.
pub open spec fn field_start(offset: usize, l: Seq<FieldSpec>, i: int) -> int {
    offset * 8 + bit_pos(l, i)
}

/// The fixed part of the header, as its layout declares it, lies within the
/// buffer. This is the bound that field access checks; options that a header
/// announces beyond its fixed part (IPv4's IHL) are checked where they are
/// used, when the payload offset is computed.
pub open spec fn header_fits(s: Seq<u8>, offset: usize, l: Seq<FieldSpec>) -> bool {
    offset + header_bytes(l) <= s.len()
}

/// What reading scalar field `i` of the header at byte `offset` gives.
pub open spec fn scalar_value(s: Seq<u8>, offset: usize, l: Seq<FieldSpec>, i: int) -> Result<
    u32,
    PacketError,
> {
    if !header_fits(s, offset, l) {
        Err(PacketError::BufferTooShort)
    } else {
        Ok(bits_value(s, field_start(offset, l, i), l[i].bit_width as nat) as u32)
    }
}

/// What reading array field `i` of the header at byte `offset` gives.
pub open spec fn array_value(s: Seq<u8>, offset: usize, l: Seq<FieldSpec>, i: int) -> Result<
    Seq<u8>,
    PacketError,
> {
    if !header_fits(s, offset, l) {
        Err(PacketError::BufferTooShort)
    } else {
        Ok(
            s.subrange(
                field_start(offset, l, i) / 8,
                field_start(offset, l, i) / 8 + field_bits(l[i]) / 8,
            ),
        )
    }
}

/// `after` is `before` with scalar field `i` holding `v` and every other bit
/// kept.
pub open spec fn scalar_written(
    before: Seq<u8>,
    after: Seq<u8>,
    offset: usize,
    l: Seq<FieldSpec>,
    i: int,
    v: u32,
) -> bool {
    &&& after.len() == before.len()
    &&& bits_value(after, field_start(offset, l, i), l[i].bit_width as nat) == v
    &&& forall|k: int|
        0 <= k < before.len() * 8 && !(field_start(offset, l, i) <= k < field_start(offset, l, i)
            + l[i].bit_width) ==> #[trigger] bit_at(after, k) == bit_at(before, k)
}

/// `after` is `before` with array field `i` holding `data` and every other
/// byte kept.
pub open spec fn array_written(
    before: Seq<u8>,
    after: Seq<u8>,
    offset: usize,
    l: Seq<FieldSpec>,
    i: int,
    data: Seq<u8>,
) -> bool {
    &&& data.len() == field_bits(l[i]) / 8
    &&& after == splice(before, field_start(offset, l, i) / 8, data)
}

proof fn lemma_array_bytes(bw: u32, count: u32)
    requires
        bw % 8 == 0,
    ensures
        array_len(bw, count) == (bw * count) as nat / 8,
        (bw * count) % 8 == 0,
{
    let q = bw / 8;
    assert(bw == 8 * q);
    assert((8 * q) * count == 8 * (q * count)) by (nonlinear_arith);
    assert(q * count >= 0) by (nonlinear_arith)
        requires
            q >= 0,
            count >= 0,
    ;
}

/// Reads scalar field `i` of header `h`.
/// Fails with `BufferTooShort` exactly when the fixed part of the header
/// does not fit the buffer.
pub fn get_field<H: Header>(h: &H, buf: &[u8], i: usize) -> (r: Result<u32, PacketError>)
    requires
        i < H::spec_layout().len(),
        H::spec_layout()[i as int].kind is Scalar,
    ensures
        r == scalar_value(buf@, h.spec_offset(), H::spec_layout(), i as int),
        r is Ok ==> (r->Ok_0 as nat) < pow2(H::spec_layout()[i as int].bit_width as nat),
{
    let l = H::layout();
    let off = h.offset();
    let size = layout_bytes(l.as_slice());
    if size > buf.len() || off > buf.len() - size {
        return Err(PacketError::BufferTooShort);
    }
    let pos = field_pos(l.as_slice(), i);
    proof {
        lemma_field_in_header(l@, i as int, i + 1);
        assert(wf_field(l@[i as int]));
        crate::codec::lemma_bits_value_bound(
            buf@,
            field_start(off, l@, i as int),
            l@[i as int].bit_width as nat,
        );
    }
    read_bits(buf, off, pos, l[i].bit_width)
}

/// Writes `value` into scalar field `i` of header `h`.
/// Fails with `BufferTooShort` exactly when the fixed part of the header
/// does not fit the buffer.
pub fn set_field<H: Header>(h: &H, buf: &mut [u8], i: usize, value: u32) -> (r: Result<
    (),
    PacketError,
>)
    requires
        i < H::spec_layout().len(),
        H::spec_layout()[i as int].kind is Scalar,
    ensures
        !header_fits(old(buf)@, h.spec_offset(), H::spec_layout()) ==> r == Err::<(), PacketError>(
            PacketError::BufferTooShort,
        ) && final(buf)@ == old(buf)@,
        header_fits(old(buf)@, h.spec_offset(), H::spec_layout()) && value as nat >= pow2(
            H::spec_layout()[i as int].bit_width as nat,
        ) ==> r == Err::<(), PacketError>(PacketError::RangeError) && final(buf)@ == old(buf)@,
        header_fits(old(buf)@, h.spec_offset(), H::spec_layout()) && (value as nat) < pow2(
            H::spec_layout()[i as int].bit_width as nat,
        ) ==> r is Ok && scalar_written(
            old(buf)@,
            final(buf)@,
            h.spec_offset(),
            H::spec_layout(),
            i as int,
            value,
        ),
{
    let l = H::layout();
    let off = h.offset();
    let size = layout_bytes(l.as_slice());
    if size > buf.len() || off > buf.len() - size {
        return Err(PacketError::BufferTooShort);
    }
    let pos = field_pos(l.as_slice(), i);
    proof {
        lemma_field_in_header(l@, i as int, i + 1);
        assert(wf_field(l@[i as int]));
    }
    write_bits(buf, off, pos, l[i].bit_width, value)
}

/// Borrows array field `i` of header `h`.
/// Fails with `BufferTooShort` exactly when the fixed part of the header
/// does not fit the buffer.
pub fn get_bytes<'a, H: Header>(h: &H, buf: &'a [u8], i: usize) -> (r: Result<
    &'a [u8],
    PacketError,
>)
    requires
        i < H::spec_layout().len(),
        H::spec_layout()[i as int].kind is Array,
    ensures
        r is Ok ==> array_value(buf@, h.spec_offset(), H::spec_layout(), i as int) == Ok::<
            Seq<u8>,
            PacketError,
        >(r->Ok_0@),
        r is Err ==> array_value(buf@, h.spec_offset(), H::spec_layout(), i as int) == Err::<
            Seq<u8>,
            PacketError,
        >(r->Err_0),
{
    let l = H::layout();
    let off = h.offset();
    let size = layout_bytes(l.as_slice());
    if size > buf.len() || off > buf.len() - size {
        return Err(PacketError::BufferTooShort);
    }
    let pos = field_pos(l.as_slice(), i);
    let f = l[i];
    proof {
        lemma_field_in_header(l@, i as int, i + 1);
        assert(wf_field(l@[i as int]));
        assert(bit_pos(l@, i as int) % 8 == 0);
    }
    let count = f.count();
    proof {
        lemma_array_bytes(f.bit_width, count);
    }
    read_array(buf, off, pos, f.bit_width, count)
}

/// Copies `src` into array field `i` of header `h`.
/// Fails with `BufferTooShort` exactly when the fixed part of the header
/// does not fit the buffer.
pub fn set_bytes<H: Header>(h: &H, buf: &mut [u8], i: usize, src: &[u8]) -> (r: Result<
    (),
    PacketError,
>)
    requires
        i < H::spec_layout().len(),
        H::spec_layout()[i as int].kind is Array,
    ensures
        !header_fits(old(buf)@, h.spec_offset(), H::spec_layout()) ==> r == Err::<(), PacketError>(
            PacketError::BufferTooShort,
        ) && final(buf)@ == old(buf)@,
        header_fits(old(buf)@, h.spec_offset(), H::spec_layout()) && src@.len() != field_bits(
            H::spec_layout()[i as int],
        ) / 8 ==> r == Err::<(), PacketError>(PacketError::RangeError) && final(buf)@ == old(buf)@,
        header_fits(old(buf)@, h.spec_offset(), H::spec_layout()) && src@.len() == field_bits(
            H::spec_layout()[i as int],
        ) / 8 ==> r is Ok && array_written(
            old(buf)@,
            final(buf)@,
            h.spec_offset(),
            H::spec_layout(),
            i as int,
            src@,
        ),
{
    let l = H::layout();
    let off = h.offset();
    let size = layout_bytes(l.as_slice());
    if size > buf.len() || off > buf.len() - size {
        return Err(PacketError::BufferTooShort);
    }
    let pos = field_pos(l.as_slice(), i);
    let f = l[i];
    proof {
        lemma_field_in_header(l@, i as int, i + 1);
        assert(wf_field(l@[i as int]));
        assert(bit_pos(l@, i as int) % 8 == 0);
    }
    let count = f.count();
    proof {
        lemma_array_bytes(f.bit_width, count);
    }
    write_array(buf, off, pos, f.bit_width, count, src)
}

/// `s` with array fields `i` and `j` of the header at byte `offset` holding
/// each other's bytes.
pub open spec fn fields_swapped(s: Seq<u8>, offset: usize, l: Seq<FieldSpec>, i: int, j: int) -> Seq<
    u8,
> {
    let a = field_start(offset, l, i) / 8;
    let b = field_start(offset, l, j) / 8;
    let n = field_bits(l[i]) / 8;
    splice(splice(s, a, s.subrange(b, b + n)), b, s.subrange(a, a + n))
}

/// Array fields `i` and `j` are distinct and of one size.
pub open spec fn swappable(l: Seq<FieldSpec>, i: int, j: int) -> bool {
    &&& 0 <= i < l.len()
    &&& 0 <= j < l.len()
    &&& i != j
    &&& l[i].kind is Array
    &&& l[j].kind is Array
    &&& field_bits(l[i]) == field_bits(l[j])
}

/// Exchanges the contents of array fields `i` and `j` of header `h`.
pub fn swap_fields<H: Header>(h: &H, buf: &mut [u8], i: usize, j: usize) -> (r: Result<
    (),
    PacketError,
>)
    requires
        swappable(H::spec_layout(), i as int, j as int),
    ensures
        !header_fits(old(buf)@, h.spec_offset(), H::spec_layout()) ==> r == Err::<(), PacketError>(
            PacketError::BufferTooShort,
        ) && final(buf)@ == old(buf)@,
        header_fits(old(buf)@, h.spec_offset(), H::spec_layout()) ==> r is Ok && final(buf)@
            == fields_swapped(old(buf)@, h.spec_offset(), H::spec_layout(), i as int, j as int),
{
    let first = match get_bytes(h, buf, i) {
        Ok(bytes) => vstd::slice::slice_to_vec(bytes),
        Err(e) => return Err(e),
    };
    let second = match get_bytes(h, buf, j) {
        Ok(bytes) => vstd::slice::slice_to_vec(bytes),
        Err(e) => return Err(e),
    };
    let ghost before = buf@;
    let ghost l = H::spec_layout();
    let ghost off = h.spec_offset();
    proof {
        H::lemma_layout_wf();
        lemma_field_in_header(l, j as int, l.len() as int);
        lemma_field_in_header(l, i as int, l.len() as int);
        lemma_array_span(l, off, j as int);
        lemma_array_span(l, off, i as int);
    }
    assert(first@ == before.subrange(
        field_start(off, l, i as int) / 8,
        field_start(off, l, i as int) / 8 + field_bits(l[i as int]) / 8,
    ));
    assert(header_fits(before, off, l));
    assert(second@ == before.subrange(
        field_start(off, l, j as int) / 8,
        field_start(off, l, j as int) / 8 + field_bits(l[j as int]) / 8,
    ));
    let r1 = set_bytes(h, buf, i, second.as_slice());
    assert(r1 is Ok);
    assert(buf@.len() == before.len());
    let r2 = set_bytes(h, buf, j, first.as_slice());
    assert(r2 is Ok);
    r2
}

/// Swapping two array fields twice gives back the buffer unchanged.
pub proof fn lemma_swap_twice(s: Seq<u8>, offset: usize, l: Seq<FieldSpec>, i: int, j: int)
    requires
        wf_layout(l),
        swappable(l, i, j),
        header_fits(s, offset, l),
    ensures
        fields_swapped(s, offset, l, i, j).len() == s.len(),
        fields_swapped(fields_swapped(s, offset, l, i, j), offset, l, i, j) == s,
{
    lemma_fields_disjoint(l, i, j);
    lemma_field_in_header(l, i, l.len() as int);
    lemma_array_span(l, offset, i);
    lemma_array_span(l, offset, j);
    let a = field_start(offset, l, i) / 8;
    let b = field_start(offset, l, j) / 8;
    let n = field_bits(l[i]) / 8;
    assert(a + n <= b || b + n <= a);
    assert(a + n <= s.len() && b + n <= s.len());
    lemma_splice_len(s, a, s.subrange(b, b + n));
    lemma_splice_len(splice(s, a, s.subrange(b, b + n)), b, s.subrange(a, a + n));
    lemma_splice_swap_twice(s, a, b, n as int);
}

/// Exchanging two disjoint byte ranges twice gives back the sequence.
proof fn lemma_splice_swap_twice(s: Seq<u8>, a: int, b: int, n: int)
    requires
        0 <= a,
        0 <= b,
        0 <= n,
        a + n <= b || b + n <= a,
        a + n <= s.len(),
        b + n <= s.len(),
    ensures
        ({
            let s1 = splice(
                splice(s, a, s.subrange(b, b + n)),
                b,
                s.subrange(a, a + n),
            );
            splice(
                splice(s1, a, s1.subrange(b, b + n)),
                b,
                s1.subrange(a, a + n),
            ) == s
        }),
{
    let sa = s.subrange(a, a + n);
    let sb = s.subrange(b, b + n);
    let t = splice(s, a, sb);
    lemma_splice_len(s, a, sb);
    let s1 = splice(t, b, sa);
    lemma_splice_len(t, b, sa);
    let s1a = s1.subrange(a, a + n);
    let s1b = s1.subrange(b, b + n);
    assert(s1a =~= sb);
    assert(s1b =~= sa);
    let u = splice(s1, a, s1b);
    lemma_splice_len(s1, a, s1b);
    let s2 = splice(u, b, s1a);
    lemma_splice_len(u, b, s1a);
    assert(s2 =~= s);
}

proof fn lemma_splice_len(s: Seq<u8>, start: int, data: Seq<u8>)
    requires
        0 <= start,
        start + data.len() <= s.len(),
    ensures
        splice(s, start, data).len() == s.len(),
        forall|m: int|
            0 <= m < s.len() ==> #[trigger] splice(s, start, data)[m] == if start <= m
                < start + data.len() {
                data[m - start]
            } else {
                s[m]
            },
{
}

proof fn lemma_byte_from_bits(a: u8, b: u8)
    requires
        forall|t: u8| t < 8 ==> (a >> t) & 1u8 == #[trigger] ((b >> t) & 1u8),
    ensures
        a == b,
{
    let a0 = (a >> 0u8) & 1u8;
    let a1 = (a >> 1u8) & 1u8;
    let a2 = (a >> 2u8) & 1u8;
    let a3 = (a >> 3u8) & 1u8;
    let a4 = (a >> 4u8) & 1u8;
    let a5 = (a >> 5u8) & 1u8;
    let a6 = (a >> 6u8) & 1u8;
    let a7 = (a >> 7u8) & 1u8;
    assert(a0 == (b >> 0u8) & 1u8);
    assert(a1 == (b >> 1u8) & 1u8);
    assert(a2 == (b >> 2u8) & 1u8);
    assert(a3 == (b >> 3u8) & 1u8);
    assert(a4 == (b >> 4u8) & 1u8);
    assert(a5 == (b >> 5u8) & 1u8);
    assert(a6 == (b >> 6u8) & 1u8);
    assert(a7 == (b >> 7u8) & 1u8);
    assert(a == b) by (bit_vector)
        requires
            a0 == (a >> 0u8) & 1u8,
            a1 == (a >> 1u8) & 1u8,
            a2 == (a >> 2u8) & 1u8,
            a3 == (a >> 3u8) & 1u8,
            a4 == (a >> 4u8) & 1u8,
            a5 == (a >> 5u8) & 1u8,
            a6 == (a >> 6u8) & 1u8,
            a7 == (a >> 7u8) & 1u8,
            a0 == (b >> 0u8) & 1u8,
            a1 == (b >> 1u8) & 1u8,
            a2 == (b >> 2u8) & 1u8,
            a3 == (b >> 3u8) & 1u8,
            a4 == (b >> 4u8) & 1u8,
            a5 == (b >> 5u8) & 1u8,
            a6 == (b >> 6u8) & 1u8,
            a7 == (b >> 7u8) & 1u8,
    ;
}

/// Two buffers of one length whose bits agree over the bytes `[lo, hi)`
/// agree on those bytes.
proof fn lemma_bytes_from_bits(s1: Seq<u8>, s2: Seq<u8>, lo: int, hi: int)
    requires
        0 <= lo <= hi <= s1.len(),
        s1.len() == s2.len(),
        forall|k: int| lo * 8 <= k < hi * 8 ==> bit_at(s1, k) == bit_at(s2, k),
    ensures
        s1.subrange(lo, hi) == s2.subrange(lo, hi),
{
    assert forall|m: int| lo <= m < hi implies s1[m] == s2[m] by {
        assert forall|t: u8| t < 8 implies (s1[m] >> t) & 1u8 == #[trigger] ((s2[m] >> t) & 1u8) by {
            let k = m * 8 + 7 - t;
            assert(k / 8 == m && 7 - k % 8 == t);
            assert(bit_at(s1, k) == bit_at(s2, k));
        }
        lemma_byte_from_bits(s1[m], s2[m]);
    }
    assert(s1.subrange(lo, hi) =~= s2.subrange(lo, hi));
}

/// Distinct fields of a layout occupy disjoint bit ranges.
proof fn lemma_fields_disjoint(l: Seq<FieldSpec>, i: int, j: int)
    requires
        0 <= i < l.len(),
        0 <= j < l.len(),
        i != j,
    ensures
        bit_pos(l, i) + field_bits(l[i]) <= bit_pos(l, j) || bit_pos(l, j) + field_bits(l[j])
            <= bit_pos(l, i),
        bit_pos(l, j) + field_bits(l[j]) <= header_bits(l),
{
    if i < j {
        lemma_field_in_header(l, i, j);
    } else {
        lemma_field_in_header(l, j, i);
    }
    lemma_field_in_header(l, j, l.len() as int);
}

/// Array field `j` spans exactly the bits of its bytes.
proof fn lemma_array_span(l: Seq<FieldSpec>, offset: usize, j: int)
    requires
        wf_layout(l),
        0 <= j < l.len(),
        l[j].kind is Array,
    ensures
        field_start(offset, l, j) % 8 == 0,
        field_bits(l[j]) % 8 == 0,
        (field_start(offset, l, j) / 8) * 8 == field_start(offset, l, j),
        (field_bits(l[j]) / 8) * 8 == field_bits(l[j]),
{
    assert(wf_field(l[j]));
    let count = l[j].kind->Array_0;
    lemma_array_bytes(l[j].bit_width, count);
}

/// Writing a scalar field and then reading it gives back the value written,
/// and every other field of the header reads as it did before the write.
pub proof fn lemma_scalar_round_trip(
    before: Seq<u8>,
    after: Seq<u8>,
    offset: usize,
    l: Seq<FieldSpec>,
    i: int,
    v: u32,
)
    requires
        wf_layout(l),
        0 <= i < l.len(),
        l[i].kind is Scalar,
        header_fits(before, offset, l),
        scalar_written(before, after, offset, l, i, v),
    ensures
        scalar_value(after, offset, l, i) == Ok::<u32, PacketError>(v),
        forall|j: int|
            0 <= j < l.len() && j != i && (#[trigger] l[j]).kind is Scalar ==> scalar_value(
                after,
                offset,
                l,
                j,
            ) == scalar_value(before, offset, l, j),
        forall|j: int|
            0 <= j < l.len() && j != i && (#[trigger] l[j]).kind is Array ==> array_value(
                after,
                offset,
                l,
                j,
            ) == array_value(before, offset, l, j),
{
    let si = field_start(offset, l, i);
    let wi = l[i].bit_width;
    assert(field_bits(l[i]) == wi);
    assert forall|j: int| 0 <= j < l.len() && j != i && (#[trigger] l[j]).kind is Scalar implies scalar_value(
        after,
        offset,
        l,
        j,
    ) == scalar_value(before, offset, l, j) by {
        lemma_fields_disjoint(l, i, j);
        let sj = field_start(offset, l, j);
        assert forall|k: int| sj <= k < sj + l[j].bit_width implies bit_at(after, k) == bit_at(
            before,
            k,
        ) by {
            assert(0 <= k < before.len() * 8);
            assert(!(si <= k < si + wi));
        }
        lemma_bits_value_ext(after, before, sj, l[j].bit_width as nat);
    }
    assert forall|j: int| 0 <= j < l.len() && j != i && (#[trigger] l[j]).kind is Array implies array_value(
        after,
        offset,
        l,
        j,
    ) == array_value(before, offset, l, j) by {
        lemma_fields_disjoint(l, i, j);
        lemma_array_span(l, offset, j);
        let lo = field_start(offset, l, j) / 8;
        let hi = lo + field_bits(l[j]) / 8;
        assert forall|k: int| lo * 8 <= k < hi * 8 implies bit_at(after, k) == bit_at(before, k) by {
            assert(0 <= k < before.len() * 8);
            assert(!(si <= k < si + wi));
        }
        lemma_bytes_from_bits(after, before, lo, hi);
    }
}

/// Writing an array field and then reading it gives back the bytes written,
/// and every other field of the header reads as it did before the write.
pub proof fn lemma_array_round_trip(
    before: Seq<u8>,
    after: Seq<u8>,
    offset: usize,
    l: Seq<FieldSpec>,
    i: int,
    data: Seq<u8>,
)
    requires
        wf_layout(l),
        0 <= i < l.len(),
        l[i].kind is Array,
        header_fits(before, offset, l),
        array_written(before, after, offset, l, i, data),
    ensures
        array_value(after, offset, l, i) == Ok::<Seq<u8>, PacketError>(data),
        forall|j: int|
            0 <= j < l.len() && j != i && (#[trigger] l[j]).kind is Scalar ==> scalar_value(
                after,
                offset,
                l,
                j,
            ) == scalar_value(before, offset, l, j),
        forall|j: int|
            0 <= j < l.len() && j != i && (#[trigger] l[j]).kind is Array ==> array_value(
                after,
                offset,
                l,
                j,
            ) == array_value(before, offset, l, j),
{
    lemma_array_span(l, offset, i);
    lemma_field_in_header(l, i, l.len() as int);
    let lo_i = field_start(offset, l, i) / 8;
    let hi_i = lo_i + data.len();
    assert(after.len() == before.len());
    assert(after.subrange(lo_i, hi_i) =~= data);
    assert forall|m: int| 0 <= m < before.len() && !(lo_i <= m < hi_i) implies after[m] == before[m] by {
        if m < lo_i {
            assert(after[m] == before.subrange(0, lo_i)[m]);
        } else {
            assert(after[m] == before.subrange(hi_i, before.len() as int)[m - hi_i]);
        }
    }
    assert forall|j: int| 0 <= j < l.len() && j != i && (#[trigger] l[j]).kind is Scalar implies scalar_value(
        after,
        offset,
        l,
        j,
    ) == scalar_value(before, offset, l, j) by {
        lemma_fields_disjoint(l, i, j);
        let sj = field_start(offset, l, j);
        assert forall|k: int| sj <= k < sj + l[j].bit_width implies bit_at(after, k) == bit_at(
            before,
            k,
        ) by {
            assert(!(lo_i <= k / 8 < hi_i));
        }
        lemma_bits_value_ext(after, before, sj, l[j].bit_width as nat);
    }
    assert forall|j: int| 0 <= j < l.len() && j != i && (#[trigger] l[j]).kind is Array implies array_value(
        after,
        offset,
        l,
        j,
    ) == array_value(before, offset, l, j) by {
        lemma_fields_disjoint(l, i, j);
        lemma_array_span(l, offset, j);
        let lo = field_start(offset, l, j) / 8;
        let hi = lo + field_bits(l[j]) / 8;
        assert(after.subrange(lo, hi) =~= before.subrange(lo, hi));
    }
}

} // verus!
