//! Properties of field reads and writes that hold for every buffer.
use vstd::prelude::*;

use crate::codec::{FromBitfield, IntoBitfield};
use crate::field::{
    bit_at,
    bits_at,
    field_bytes,
    fits,
    low_mask,
    lemma_bits_at_byte,
    lemma_bits_at_whole_byte,
    lemma_buffer_ext,
    lemma_written_bit,
    truncated,
    written,
};
use crate::mask::{bit_of, byte_from_bits, lemma_bit_zero, lemma_byte_from_bits_ext, lemma_byte_is_from_bits};
use crate::position::BitFieldPosition;

verus! {

/// The fields at `a` and `b` share no bit.
pub open spec fn disjoint(a: BitFieldPosition, b: BitFieldPosition) -> bool {
    a.last_bit_spec() < b.first_bit_spec() || b.last_bit_spec() < a.first_bit_spec()
}

/// Round trip: reading a field after writing `value` into it gives `value`
/// cut to the field's width.
pub proof fn lemma_round_trip(buf: Seq<u8>, pos: BitFieldPosition, value: Seq<u8>)
    requires
        fits(pos, buf.len()),
        value.len() == pos.byte_len_spec(),
    ensures
        field_bytes(written(buf, pos, value), pos) == truncated(value, pos.len_spec() as int),
{
    let w = written(buf, pos, value);
    let first = pos.first_bit_spec() as int;
    let len = pos.len_spec() as int;
    assert forall|j: int| 0 <= j < value.len() implies #[trigger] field_bytes(w, pos)[j] == truncated(
        value,
        len,
    )[j] by {
        let f = |k: u8| k < len - 8 * j && bit_at(w, first + 8 * j + k);
        let g = |k: u8| k < len - 8 * j && bit_at(value, 8 * j + k);
        assert forall|k: u8| k < 8 implies #[trigger] f(k) == g(k) by {
            if k < len - 8 * j {
                lemma_written_bit(buf, first, len, value, first + 8 * j + k);
            }
        }
        lemma_byte_from_bits_ext(f, g);
    }
    assert(field_bytes(w, pos) =~= truncated(value, len));
}

/// Writing a field changes no bit outside it, so a field that shares no bit
/// with it reads the same before and after.
pub proof fn lemma_write_keeps_other_fields(
    buf: Seq<u8>,
    a: BitFieldPosition,
    value: Seq<u8>,
    b: BitFieldPosition,
)
    requires
        fits(a, buf.len()),
        fits(b, buf.len()),
        disjoint(a, b),
    ensures
        field_bytes(written(buf, a, value), b) == field_bytes(buf, b),
        forall|i: int|
            0 <= i < 8 * buf.len() && !a.covers(i) ==> bit_at(#[trigger] written(buf, a, value), i)
                == bit_at(buf, i),
{
    let w = written(buf, a, value);
    let fa = a.first_bit_spec() as int;
    let la = a.len_spec() as int;
    let fb = b.first_bit_spec() as int;
    let lb = b.len_spec() as int;
    assert forall|i: int| 0 <= i < 8 * buf.len() && !a.covers(i) implies bit_at(w, i) == bit_at(
        buf,
        i,
    ) by {
        lemma_written_bit(buf, fa, la, value, i);
    }
    assert forall|j: int| 0 <= j < b.byte_len_spec() implies #[trigger] field_bytes(w, b)[j]
        == field_bytes(buf, b)[j] by {
        let f = |k: u8| k < lb - 8 * j && bit_at(w, fb + 8 * j + k);
        let g = |k: u8| k < lb - 8 * j && bit_at(buf, fb + 8 * j + k);
        assert forall|k: u8| k < 8 implies #[trigger] f(k) == g(k) by {
            if k < lb - 8 * j {
                lemma_written_bit(buf, fa, la, value, fb + 8 * j + k);
            }
        }
        lemma_byte_from_bits_ext(f, g);
    }
    assert(field_bytes(w, b) =~= field_bytes(buf, b));
}

/// A read depends on the field's own bits only: two buffers that agree on
/// them read the same, and so does one buffer read twice.
pub proof fn lemma_read_depends_on_field_bits(a: Seq<u8>, b: Seq<u8>, pos: BitFieldPosition)
    requires
        fits(pos, a.len()),
        a.len() == b.len(),
        forall|i: int| pos.covers(i) ==> bit_at(a, i) == bit_at(b, i),
    ensures
        field_bytes(a, pos) == field_bytes(b, pos),
{
    let first = pos.first_bit_spec() as int;
    let len = pos.len_spec() as int;
    assert forall|j: int| 0 <= j < pos.byte_len_spec() implies #[trigger] field_bytes(a, pos)[j]
        == field_bytes(b, pos)[j] by {
        let f = |k: u8| k < len - 8 * j && bit_at(a, first + 8 * j + k);
        let g = |k: u8| k < len - 8 * j && bit_at(b, first + 8 * j + k);
        assert forall|k: u8| k < 8 implies #[trigger] f(k) == g(k) by {
            if k < len - 8 * j {
                assert(pos.covers(first + 8 * j + k));
            }
        }
        lemma_byte_from_bits_ext(f, g);
    }
    assert(field_bytes(a, pos) =~= field_bytes(b, pos));
}

/// Writing the same value into a field a second time changes nothing.
pub proof fn lemma_write_idempotent(buf: Seq<u8>, pos: BitFieldPosition, value: Seq<u8>)
    requires
        fits(pos, buf.len()),
    ensures
        written(written(buf, pos, value), pos, value) == written(buf, pos, value),
{
    let first = pos.first_bit_spec() as int;
    let len = pos.len_spec() as int;
    let once = written(buf, pos, value);
    let twice = written(once, pos, value);
    assert forall|i: int| 0 <= i < 8 * twice.len() implies bit_at(twice, i) == bit_at(once, i) by {
        lemma_written_bit(once, first, len, value, i);
        lemma_written_bit(buf, first, len, value, i);
    }
    lemma_buffer_ext(twice, once);
}

/// Every field of an all-zero buffer reads as all-zero value bytes.
pub proof fn lemma_zero_buffer_reads_zero(n: nat, pos: BitFieldPosition)
    requires
        fits(pos, n),
    ensures
        field_bytes(Seq::new(n, |i: int| 0u8), pos) == Seq::new(pos.byte_len_spec(), |j: int| 0u8),
{
    let zeros = Seq::new(n, |i: int| 0u8);
    let first = pos.first_bit_spec() as int;
    let len = pos.len_spec() as int;
    assert forall|j: int| 0 <= j < pos.byte_len_spec() implies #[trigger] field_bytes(zeros, pos)[j]
        == 0u8 by {
        let f = |k: u8| k < len - 8 * j && bit_at(zeros, first + 8 * j + k);
        assert forall|k: u8| k < 8 implies bit_of(0u8, k) == #[trigger] f(k) by {
            lemma_bit_zero(k);
            lemma_bit_zero(((first + 8 * j + k) % 8) as u8);
        }
        lemma_byte_is_from_bits(0u8, f);
    }
    assert(field_bytes(zeros, pos) =~= Seq::new(pos.byte_len_spec(), |j: int| 0u8));
}

/// The bits `8 * j ..` of `value` cut to `len` bits, for a byte `j` that the
/// cut leaves whole.
proof fn lemma_truncated_whole_byte(value: Seq<u8>, len: int, j: int)
    requires
        0 <= j < value.len(),
        8 * j + 8 <= len,
    ensures
        truncated(value, len)[j] == value[j],
{
    lemma_bits_at_whole_byte(value, j, len - 8 * j);
}

/// The last byte `j` of `value` cut to `len` bits keeps its low `len - 8 * j`
/// bits.
proof fn lemma_truncated_last_byte(value: Seq<u8>, len: int, j: int)
    requires
        0 <= j < value.len(),
        8 * j < len <= 8 * j + 8,
    ensures
        truncated(value, len)[j] == value[j] & low_mask((len - 8 * j) as u8),
{
    let l = (len - 8 * j) as u8;
    lemma_bits_at_byte(value, j, l);
    lemma_byte_from_bits_ext(
        |k: u8| k < len - 8 * j && bit_at(value, 8 * j + k),
        |k: u8| k < l && bit_at(value, 8 * j + k),
    );
}

proof fn lemma_cut_u16(v: u16, l: u8)
    by (bit_vector)
    requires
        8 < l <= 16,
    ensures
        (((v % 0x100) as u8) + 0x100 * (((v / 0x100) as u8) & (((1u16 << ((l - 8) as u8)) - 1) as u8))) as u16
            == v & (((1u32 << l) - 1) as u16),
{
}

proof fn lemma_cut_u32_3(v: u32, l: u8)
    by (bit_vector)
    requires
        16 < l <= 24,
    ensures
        (((v % 0x100) as u8) + 0x100 * ((v / 0x100 % 0x100) as u8) + 0x1_0000 * (((v / 0x1_0000
            % 0x100) as u8) & (((1u16 << ((l - 16) as u8)) - 1) as u8))) as u32 == v & (((1u64
            << l) - 1) as u32),
{
}

proof fn lemma_cut_u32_4(v: u32, l: u8)
    by (bit_vector)
    requires
        24 < l <= 32,
    ensures
        (((v % 0x100) as u8) + 0x100 * ((v / 0x100 % 0x100) as u8) + 0x1_0000 * ((v / 0x1_0000
            % 0x100) as u8) + 0x100_0000 * (((v / 0x100_0000) as u8) & (((1u16 << ((l - 24) as u8))
            - 1) as u8))) as u32 == v & (((1u64 << l) - 1) as u32),
{
}

/// Round trip for a `u8` field: the value read back is the written one with
/// its low `len` bits kept, `v & ((1 << len) - 1)`.
pub proof fn lemma_round_trip_u8(buf: Seq<u8>, pos: BitFieldPosition, v: u8)
    requires
        fits(pos, buf.len()),
        pos.byte_len_spec() == 1,
    ensures
        <u8 as FromBitfield<[u8; 1]>>::from_bitfield_spec(
            field_bytes(written(buf, pos, <u8 as IntoBitfield<[u8; 1]>>::into_bitfield_spec(v)), pos),
        ) == v & (((1u16 << pos.len_spec()) - 1) as u8),
{
    let len = pos.len_spec() as int;
    lemma_round_trip(buf, pos, seq![v]);
    lemma_truncated_last_byte(seq![v], len, 0);
}

/// Round trip for a `u16` field: the value read back is
/// `v & ((1 << len) - 1)`.
pub proof fn lemma_round_trip_u16(buf: Seq<u8>, pos: BitFieldPosition, v: u16)
    requires
        fits(pos, buf.len()),
        pos.byte_len_spec() == 2,
    ensures
        <u16 as FromBitfield<[u8; 2]>>::from_bitfield_spec(
            field_bytes(written(buf, pos, <u16 as IntoBitfield<[u8; 2]>>::into_bitfield_spec(v)), pos),
        ) == v & (((1u32 << pos.len_spec()) - 1) as u16),
{
    let len = pos.len_spec() as int;
    let e = <u16 as IntoBitfield<[u8; 2]>>::into_bitfield_spec(v);
    lemma_round_trip(buf, pos, e);
    lemma_truncated_whole_byte(e, len, 0);
    lemma_truncated_last_byte(e, len, 1);
    lemma_cut_u16(v, len as u8);
}

/// Round trip for a `u32` field of three value bytes: the value read back is
/// `v & ((1 << len) - 1)`.
pub proof fn lemma_round_trip_u32_3(buf: Seq<u8>, pos: BitFieldPosition, v: u32)
    requires
        fits(pos, buf.len()),
        pos.byte_len_spec() == 3,
    ensures
        <u32 as FromBitfield<[u8; 3]>>::from_bitfield_spec(
            field_bytes(written(buf, pos, <u32 as IntoBitfield<[u8; 3]>>::into_bitfield_spec(v)), pos),
        ) == v & (((1u64 << pos.len_spec()) - 1) as u32),
{
    let len = pos.len_spec() as int;
    let e = <u32 as IntoBitfield<[u8; 3]>>::into_bitfield_spec(v);
    lemma_round_trip(buf, pos, e);
    lemma_truncated_whole_byte(e, len, 0);
    lemma_truncated_whole_byte(e, len, 1);
    lemma_truncated_last_byte(e, len, 2);
    lemma_cut_u32_3(v, len as u8);
}

/// Round trip for a `u32` field of four value bytes: the value read back is
/// `v & ((1 << len) - 1)`.
pub proof fn lemma_round_trip_u32_4(buf: Seq<u8>, pos: BitFieldPosition, v: u32)
    requires
        fits(pos, buf.len()),
        pos.byte_len_spec() == 4,
    ensures
        <u32 as FromBitfield<[u8; 4]>>::from_bitfield_spec(
            field_bytes(written(buf, pos, <u32 as IntoBitfield<[u8; 4]>>::into_bitfield_spec(v)), pos),
        ) == v & (((1u64 << pos.len_spec()) - 1) as u32),
{
    let len = pos.len_spec() as int;
    let e = <u32 as IntoBitfield<[u8; 4]>>::into_bitfield_spec(v);
    lemma_round_trip(buf, pos, e);
    lemma_truncated_whole_byte(e, len, 0);
    lemma_truncated_whole_byte(e, len, 1);
    lemma_truncated_whole_byte(e, len, 2);
    lemma_truncated_last_byte(e, len, 3);
    lemma_cut_u32_4(v, len as u8);
}

/// Round trip for a `bool` field: the value read back is the written one.
pub proof fn lemma_round_trip_bool(buf: Seq<u8>, pos: BitFieldPosition, v: bool)
    requires
        fits(pos, buf.len()),
        pos.byte_len_spec() == 1,
    ensures
        <bool as FromBitfield<[u8; 1]>>::from_bitfield_spec(
            field_bytes(written(buf, pos, <bool as IntoBitfield<[u8; 1]>>::into_bitfield_spec(v)), pos),
        ) == v,
{
    let len = pos.len_spec() as int;
    let e = <bool as IntoBitfield<[u8; 1]>>::into_bitfield_spec(v);
    lemma_round_trip(buf, pos, e);
    lemma_truncated_last_byte(e, len, 0);
    let x = e[0];
    let l = len as u8;
    assert(x & low_mask(l) & 1 == x & 1) by (bit_vector)
        requires
            1 <= l <= 8,
    ;
    assert(1u8 & 1u8 == 1u8 && 0u8 & 1u8 == 0u8) by (bit_vector);
}

/// Every field of an all-zero buffer reads as the zero value of its type.
pub proof fn lemma_zero_buffer_reads_zero_value(n: nat, pos: BitFieldPosition)
    requires
        fits(pos, n),
    ensures
        pos.byte_len_spec() == 1 ==> <u8 as FromBitfield<[u8; 1]>>::from_bitfield_spec(
            field_bytes(Seq::new(n, |i: int| 0u8), pos),
        ) == 0,
        pos.byte_len_spec() == 1 ==> !<bool as FromBitfield<[u8; 1]>>::from_bitfield_spec(
            field_bytes(Seq::new(n, |i: int| 0u8), pos),
        ),
        pos.byte_len_spec() == 2 ==> <u16 as FromBitfield<[u8; 2]>>::from_bitfield_spec(
            field_bytes(Seq::new(n, |i: int| 0u8), pos),
        ) == 0,
        pos.byte_len_spec() == 3 ==> <u32 as FromBitfield<[u8; 3]>>::from_bitfield_spec(
            field_bytes(Seq::new(n, |i: int| 0u8), pos),
        ) == 0,
        pos.byte_len_spec() == 4 ==> <u32 as FromBitfield<[u8; 4]>>::from_bitfield_spec(
            field_bytes(Seq::new(n, |i: int| 0u8), pos),
        ) == 0,
{
    lemma_zero_buffer_reads_zero(n, pos);
    let z = field_bytes(Seq::new(n, |i: int| 0u8), pos);
    assert(forall|j: int| 0 <= j < pos.byte_len_spec() ==> z[j] == 0u8);
    assert(0u8 & 1u8 == 0u8) by (bit_vector);
}

/// A field of the eight bits of a one-byte buffer reads the byte as it is,
/// and writing it replaces the byte by the value.
pub proof fn lemma_full_byte_field(b: u8, pos: BitFieldPosition, v: u8)
    requires
        pos.wf(),
        pos.first_bit_spec() == 0,
        pos.len_spec() == 8,
    ensures
        field_bytes(seq![b], pos) == seq![b],
        written(seq![b], pos, seq![v]) == seq![v],
{
    lemma_bits_at_whole_byte(seq![b], 0, 8);
    assert(field_bytes(seq![b], pos) =~= seq![b]);
    let w = written(seq![b], pos, seq![v]);
    assert forall|i: int| 0 <= i < 8 * w.len() implies bit_at(w, i) == bit_at(seq![v], i) by {
        lemma_written_bit(seq![b], 0, 8, seq![v], i);
    }
    lemma_buffer_ext(w, seq![v]);
}

} // verus!
