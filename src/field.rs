//! Reading and writing the bits of one field inside a register buffer.
use vstd::prelude::*;

use crate::mask::{
    bit_of,
    byte_from_bits,
    filled_byte,
    lemma_bit_and,
    lemma_bit_not,
    lemma_bit_or,
    lemma_bit_shl,
    lemma_bit_shr,
    lemma_byte_ext,
    lemma_byte_from_bits,
    lemma_byte_from_bits_ext,
    lemma_byte_is_from_bits,
};
use crate::position::BitFieldPosition;

verus! {

/// Bit `i` of a buffer; bit 0 is the least significant bit of byte 0.
pub open spec fn bit_at(buf: Seq<u8>, i: int) -> bool {
    bit_of(buf[i / 8], (i % 8) as u8)
}

/// The bits `start .. start + len` of `buf` as a byte: bit `k` of the result
/// is bit `start + k` of the buffer for `k < len`, and clear above.
pub open spec fn bits_at(buf: Seq<u8>, start: int, len: int) -> u8 {
    byte_from_bits(|k: u8| k < len && bit_at(buf, start + k))
}

/// Bit `i` of `buf` once the bits `start .. start + len` are replaced by the
/// low `len` bits of `value`.
pub open spec fn written_bit(buf: Seq<u8>, start: int, len: int, value: Seq<u8>, i: int) -> bool {
    if start <= i < start + len {
        bit_at(value, i - start)
    } else {
        bit_at(buf, i)
    }
}

/// `buf` with its bits `start .. start + len` replaced by the low `len` bits of
/// `value`, every other bit kept.
pub open spec fn written_span(buf: Seq<u8>, start: int, len: int, value: Seq<u8>) -> Seq<u8> {
    Seq::new(buf.len(), |idx: int| byte_from_bits(|k: u8| written_bit(buf, start, len, value, 8 * idx + k)))
}

/// The value bytes of the field at `pos`: bit `i` of them is bit
/// `first_bit + i` of the buffer for `i < len`, and clear above.
pub open spec fn field_bytes(buf: Seq<u8>, pos: BitFieldPosition) -> Seq<u8> {
    Seq::new(
        pos.byte_len_spec(),
        |j: int| bits_at(buf, pos.first_bit_spec() + 8 * j, pos.len_spec() - 8 * j),
    )
}

/// `buf` with the field at `pos` set to the low `len` bits of `value`.
pub open spec fn written(buf: Seq<u8>, pos: BitFieldPosition, value: Seq<u8>) -> Seq<u8> {
    written_span(buf, pos.first_bit_spec() as int, pos.len_spec() as int, value)
}

/// The field at `pos` lies inside a buffer of `n` bytes.
pub open spec fn fits(pos: BitFieldPosition, n: nat) -> bool {
    pos.wf() && pos.last_bit_spec() < 8 * n
}

/// `value` cut to its low `len` bits: what a field of `len` bits keeps of it.
pub open spec fn truncated(value: Seq<u8>, len: int) -> Seq<u8> {
    Seq::new(value.len(), |j: int| bits_at(value, 8 * j, len - 8 * j))
}

/// The byte with its low `l` bits set (`l <= 8`).
pub open spec fn low_mask(l: u8) -> u8 {
    ((1u16 << l) - 1) as u8
}

/// Bit `8 * idx + k` of a buffer is bit `k` of its byte `idx`.
pub proof fn lemma_bit_at(buf: Seq<u8>, idx: int, k: u8)
    requires
        k < 8,
    ensures
        bit_at(buf, 8 * idx + k) == bit_of(buf[idx], k),
{
    assert((8 * idx + k) / 8 == idx);
    assert((8 * idx + k) % 8 == k);
}

/// A byte that keeps the bits of `old` outside `mask` and takes those of
/// `src` inside it.
proof fn lemma_merge_bits(old: u8, src: u8, mask: u8, k: u8)
    requires
        k < 8,
    ensures
        bit_of((src & mask) | (old & !mask), k) == if bit_of(mask, k) {
            bit_of(src, k)
        } else {
            bit_of(old, k)
        },
{
    lemma_bit_or(src & mask, old & !mask, k);
    lemma_bit_and(src, mask, k);
    lemma_bit_and(old, !mask, k);
    lemma_bit_not(mask, k);
}

/// A byte of a buffer that no write reached is the byte that
/// `written_span` describes there.
proof fn lemma_byte_untouched(buf: Seq<u8>, start: int, len: int, value: Seq<u8>, idx: int)
    requires
        0 <= idx < buf.len(),
        8 * idx + 8 <= start || start + len <= 8 * idx,
    ensures
        buf[idx] == written_span(buf, start, len, value)[idx],
{
    assert forall|k: u8| k < 8 implies bit_of(buf[idx], k) == written_bit(
        buf,
        start,
        len,
        value,
        8 * idx + k,
    ) by {
        lemma_bit_at(buf, idx, k);
    }
    lemma_byte_is_from_bits(buf[idx], |k: u8| written_bit(buf, start, len, value, 8 * idx + k));
}

/// Two buffers of one length with the same bits are equal.
pub proof fn lemma_buffer_ext(a: Seq<u8>, b: Seq<u8>)
    requires
        a.len() == b.len(),
        forall|i: int| 0 <= i < 8 * a.len() ==> bit_at(a, i) == bit_at(b, i),
    ensures
        a == b,
{
    assert forall|idx: int| 0 <= idx < a.len() implies a[idx] == b[idx] by {
        assert forall|k: u8| k < 8 implies bit_of(a[idx], k) == bit_of(b[idx], k) by {
            lemma_bit_at(a, idx, k);
            lemma_bit_at(b, idx, k);
        }
        lemma_byte_ext(a[idx], b[idx]);
    }
    assert(a =~= b);
}

/// The bits of `written_span` are those that `written_bit` gives.
pub proof fn lemma_written_bit(buf: Seq<u8>, start: int, len: int, value: Seq<u8>, i: int)
    requires
        0 <= i < 8 * buf.len(),
    ensures
        bit_at(written_span(buf, start, len, value), i) == written_bit(buf, start, len, value, i),
{
    let idx = i / 8;
    let k = (i % 8) as u8;
    lemma_byte_from_bits(|k: u8| written_bit(buf, start, len, value, 8 * idx + k), k);
}

/// Writing `len` bits is writing the first `n` of them, then the next `l`.
proof fn lemma_written_step(buf: Seq<u8>, start: int, n: int, l: int, value: Seq<u8>)
    requires
        0 <= n,
        n % 8 == 0,
        1 <= l <= 8,
        n / 8 < value.len(),
    ensures
        written_span(written_span(buf, start, n, value), start + n, l, seq![value[n / 8]])
            == written_span(buf, start, n + l, value),
{
    let mid = written_span(buf, start, n, value);
    let a = written_span(mid, start + n, l, seq![value[n / 8]]);
    let b = written_span(buf, start, n + l, value);
    assert forall|i: int| 0 <= i < 8 * a.len() implies bit_at(a, i) == bit_at(b, i) by {
        lemma_written_bit(mid, start + n, l, seq![value[n / 8]], i);
        lemma_written_bit(buf, start, n + l, value, i);
        lemma_written_bit(buf, start, n, value, i);
        if start + n <= i < start + n + l {
            lemma_bit_at(seq![value[n / 8]], 0, (i - start - n) as u8);
            lemma_bit_at(value, n / 8, (i - start - n) as u8);
        }
    }
    lemma_buffer_ext(a, b);
}

/// Writing no bit leaves the buffer as it was.
proof fn lemma_written_nothing(buf: Seq<u8>, start: int, value: Seq<u8>)
    ensures
        written_span(buf, start, 0, value) == buf,
{
    let a = written_span(buf, start, 0, value);
    assert forall|i: int| 0 <= i < 8 * a.len() implies bit_at(a, i) == bit_at(buf, i) by {
        lemma_written_bit(buf, start, 0, value, i);
    }
    lemma_buffer_ext(a, buf);
}

proof fn lemma_low_mask_bit(l: u8, k: u8)
    by (bit_vector)
    requires
        l <= 8,
        k < 8,
    ensures
        bit_of(((1u16 << l) - 1) as u8, k) == (k < l),
{
}

/// The bits of byte `j` of a buffer from bit `8 * j` on are the byte masked
/// to its low `l` bits.
pub proof fn lemma_bits_at_byte(b: Seq<u8>, j: int, l: u8)
    requires
        0 <= j < b.len(),
        l <= 8,
    ensures
        bits_at(b, 8 * j, l as int) == b[j] & low_mask(l),
{
    let m = low_mask(l);
    assert forall|k: u8| k < 8 implies bit_of(b[j] & m, k) == (k < l && bit_at(b, 8 * j + k)) by {
        lemma_bit_and(b[j], m, k);
        lemma_low_mask_bit(l, k);
        lemma_bit_at(b, j, k);
    }
    lemma_byte_is_from_bits(b[j] & m, |k: u8| k < l && bit_at(b, 8 * j + k));
}

/// With `l >= 8`, the bits from bit `8 * j` on are byte `j` itself.
pub proof fn lemma_bits_at_whole_byte(b: Seq<u8>, j: int, l: int)
    requires
        0 <= j < b.len(),
        l >= 8,
    ensures
        bits_at(b, 8 * j, l) == b[j],
{
    lemma_bits_at_byte(b, j, 8);
    lemma_byte_from_bits_ext(
        |k: u8| k < l && bit_at(b, 8 * j + k),
        |k: u8| k < 8u8 && bit_at(b, 8 * j + k),
    );
    assert(b[j] & low_mask(8) == b[j]) by {
        let x = b[j];
        assert(x & (((1u16 << 8u8) - 1) as u8) == x) by (bit_vector);
    }
}

/// Reads the `bit_length` bits of `buf` that start at bit `from_bit`.
pub fn read_single_byte(buf: &[u8], from_bit: usize, bit_length: u8) -> (r: u8)
    requires
        1 <= bit_length <= 8,
        from_bit + bit_length <= 8 * buf@.len(),
    ensures
        r == bits_at(buf@, from_bit as int, bit_length as int),
{
    let from_byte = from_bit / 8;
    let offset = (from_bit % 8) as u8;
    let r = if offset == 0 {
        let mask = filled_byte(0, bit_length);
        let r = buf[from_byte] & mask;
        proof {
            assert forall|k: u8| k < 8 implies bit_of(r, k) == (k < bit_length && bit_at(
                buf@,
                from_bit + k,
            )) by {
                lemma_bit_and(buf@[from_byte as int], mask, k);
                lemma_bit_at(buf@, from_byte as int, k);
            }
        }
        r
    } else if offset + bit_length <= 8 {
        let mask = filled_byte(offset, offset + bit_length);
        let r = (buf[from_byte] & mask) >> offset;
        proof {
            assert forall|k: u8| k < 8 implies bit_of(r, k) == (k < bit_length && bit_at(
                buf@,
                from_bit + k,
            )) by {
                lemma_bit_shr(buf@[from_byte as int] & mask, offset, k);
                if k + offset < 8 {
                    lemma_bit_and(buf@[from_byte as int], mask, (k + offset) as u8);
                    lemma_bit_at(buf@, from_byte as int, (k + offset) as u8);
                }
            }
        }
        r
    } else {
        let low_mask = filled_byte(offset, 8);
        let high_mask = filled_byte(0, offset + bit_length - 8);
        let low = (buf[from_byte] & low_mask) >> offset;
        let high = (buf[from_byte + 1] & high_mask) << (8 - offset);
        let r = low | high;
        proof {
            assert forall|k: u8| k < 8 implies bit_of(r, k) == (k < bit_length && bit_at(
                buf@,
                from_bit + k,
            )) by {
                lemma_bit_or(low, high, k);
                lemma_bit_shr(buf@[from_byte as int] & low_mask, offset, k);
                lemma_bit_shl(buf@[from_byte + 1] & high_mask, (8 - offset) as u8, k);
                if k + offset < 8 {
                    lemma_bit_and(buf@[from_byte as int], low_mask, (k + offset) as u8);
                    lemma_bit_at(buf@, from_byte as int, (k + offset) as u8);
                } else {
                    lemma_bit_and(buf@[from_byte + 1], high_mask, (k + offset - 8) as u8);
                    lemma_bit_at(buf@, from_byte + 1, (k + offset - 8) as u8);
                }
            }
        }
        r
    };
    proof {
        lemma_byte_is_from_bits(r, |k: u8| k < bit_length && bit_at(buf@, from_bit + k));
    }
    r
}

/// Replaces the `bit_length` bits of `buf` that start at bit `from_bit` by the
/// low `bit_length` bits of `value`; every other bit is kept.
pub fn write_single_byte(buf: &mut [u8], value: u8, from_bit: usize, bit_length: u8)
    requires
        1 <= bit_length <= 8,
        from_bit + bit_length <= 8 * old(buf)@.len(),
    ensures
        final(buf)@ == written_span(old(buf)@, from_bit as int, bit_length as int, seq![value]),
{
    let ghost old_buf = buf@;
    let ghost target = written_span(old_buf, from_bit as int, bit_length as int, seq![value]);
    let from_byte = from_bit / 8;
    let offset = (from_bit % 8) as u8;
    if offset + bit_length <= 8 {
        let mask = filled_byte(offset, offset + bit_length);
        let src = value << offset;
        let merged = (src & mask) | (buf[from_byte] & !mask);
        proof {
            assert forall|k: u8| k < 8 implies bit_of(merged, k) == written_bit(
                old_buf,
                from_bit as int,
                bit_length as int,
                seq![value],
                8 * from_byte + k,
            ) by {
                lemma_merge_bits(old_buf[from_byte as int], src, mask, k);
                lemma_bit_shl(value, offset, k);
                lemma_bit_at(old_buf, from_byte as int, k);
                if k >= offset {
                    lemma_bit_at(seq![value], 0, (k - offset) as u8);
                }
            }
            lemma_byte_is_from_bits(
                merged,
                |k: u8| written_bit(old_buf, from_bit as int, bit_length as int, seq![value], 8 * from_byte + k),
            );
        }
        buf[from_byte] = merged;
    } else {
        let low_mask = filled_byte(offset, 8);
        let low_src = value << offset;
        let low = (low_src & low_mask) | (buf[from_byte] & !low_mask);
        let high_mask = filled_byte(0, offset + bit_length - 8);
        let high_src = value >> (8 - offset);
        let high = (high_src & high_mask) | (buf[from_byte + 1] & !high_mask);
        proof {
            assert forall|k: u8| k < 8 implies bit_of(low, k) == written_bit(
                old_buf,
                from_bit as int,
                bit_length as int,
                seq![value],
                8 * from_byte + k,
            ) by {
                lemma_merge_bits(old_buf[from_byte as int], low_src, low_mask, k);
                lemma_bit_shl(value, offset, k);
                lemma_bit_at(old_buf, from_byte as int, k);
                if k >= offset {
                    lemma_bit_at(seq![value], 0, (k - offset) as u8);
                }
            }
            lemma_byte_is_from_bits(
                low,
                |k: u8| written_bit(old_buf, from_bit as int, bit_length as int, seq![value], 8 * from_byte + k),
            );
            assert forall|k: u8| k < 8 implies bit_of(high, k) == written_bit(
                old_buf,
                from_bit as int,
                bit_length as int,
                seq![value],
                8 * (from_byte + 1) + k,
            ) by {
                lemma_merge_bits(old_buf[from_byte + 1], high_src, high_mask, k);
                lemma_bit_shr(value, (8 - offset) as u8, k);
                lemma_bit_at(old_buf, from_byte + 1, k);
                if k + 8 - offset < 8 {
                    lemma_bit_at(seq![value], 0, (k + 8 - offset) as u8);
                }
            }
            lemma_byte_is_from_bits(
                high,
                |k: u8| written_bit(old_buf, from_bit as int, bit_length as int, seq![value], 8 * (from_byte + 1) + k),
            );
        }
        buf[from_byte] = low;
        buf[from_byte + 1] = high;
    }
    proof {
        assert forall|idx: int| 0 <= idx < old_buf.len() implies buf@[idx] == target[idx] by {
            if idx != from_byte && (idx != from_byte + 1 || offset + bit_length <= 8) {
                lemma_byte_untouched(old_buf, from_bit as int, bit_length as int, seq![value], idx);
            }
        }
        assert(buf@ =~= target);
    }
}

/// Reads the field at `pos` of `buf` into its value bytes, least
/// significant first.
pub fn read_field<const M: usize>(buf: &[u8], pos: &BitFieldPosition) -> (r: [u8; M])
    requires
        fits(*pos, buf@.len()),
        M == pos.byte_len_spec(),
    ensures
        r@ == field_bytes(buf@, *pos),
{
    let first_bit = pos.first_bit();
    let last_bit = pos.last_bit();
    let byte_len = pos.byte_len();
    let mut value_array: [u8; M] = [0u8; M];
    let mut i: usize = 0;
    while i < byte_len
        invariant
            i <= byte_len,
            byte_len == M == pos.byte_len_spec(),
            first_bit == pos.first_bit_spec(),
            last_bit == pos.last_bit_spec(),
            fits(*pos, buf@.len()),
            forall|j: int| 0 <= j < i ==> value_array@[j] == field_bytes(buf@, *pos)[j],
        decreases byte_len - i,
    {
        let from_bit = first_bit + 8 * i;
        let to_bit = if from_bit + 8 < last_bit + 1 {
            from_bit + 8
        } else {
            last_bit + 1
        };
        let bit_length = (to_bit - from_bit) as u8;
        let byte = read_single_byte(buf, from_bit, bit_length);
        proof {
            lemma_byte_from_bits_ext(
                |k: u8| k < bit_length && bit_at(buf@, from_bit + k),
                |k: u8| k < pos.len_spec() - 8 * i && bit_at(buf@, pos.first_bit_spec() + 8 * i + k),
            );
        }
        value_array[i] = byte;
        i = i + 1;
    }
    assert(value_array@ =~= field_bytes(buf@, *pos));
    value_array
}

/// Sets the field at `pos` of `buf` to the low `len` bits of `value`, its
/// value bytes least significant first; every bit outside the field is kept.
pub fn write_field(buf: &mut [u8], pos: &BitFieldPosition, value: &[u8])
    requires
        fits(*pos, old(buf)@.len()),
        value@.len() == pos.byte_len_spec(),
    ensures
        final(buf)@ == written(old(buf)@, *pos, value@),
{
    let ghost old_buf = buf@;
    let first_bit = pos.first_bit();
    let last_bit = pos.last_bit();
    let byte_len = pos.byte_len();
    proof {
        lemma_written_nothing(old_buf, first_bit as int, value@);
    }
    let mut i: usize = 0;
    while i < byte_len
        invariant
            i <= byte_len,
            byte_len == value@.len() == pos.byte_len_spec(),
            first_bit == pos.first_bit_spec(),
            last_bit == pos.last_bit_spec(),
            fits(*pos, old_buf.len()),
            buf@.len() == old_buf.len(),
            buf@ == written_span(
                old_buf,
                first_bit as int,
                if 8 * i < pos.len_spec() { 8 * i } else { pos.len_spec() as int },
                value@,
            ),
        decreases byte_len - i,
    {
        let from_bit = first_bit + 8 * i;
        let to_bit = if from_bit + 8 < last_bit + 1 {
            from_bit + 8
        } else {
            last_bit + 1
        };
        let bit_length = (to_bit - from_bit) as u8;
        proof {
            let len = pos.len_spec() as int;
            assert(8 * i < len) by (nonlinear_arith)
                requires
                    i < byte_len,
                    byte_len == (len + 7) / 8,
                    len >= 1,
            ;
            assert(bit_length == if 8 * i + 8 < len { 8 } else { len - 8 * i });
            assert((8 * i) / 8 == i);
            lemma_written_step(old_buf, first_bit as int, 8 * i, bit_length as int, value@);
            assert(8 * i + bit_length == if 8 * (i + 1) < len { 8 * (i + 1) } else { len });
        }
        write_single_byte(buf, value[i], from_bit, bit_length);
        i = i + 1;
    }
}

} // verus!
