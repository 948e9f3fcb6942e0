//! Decoding of the row section into each field's dictionary positions.
//!
//! The row section is a run of records of one size. A record is read as one
//! number whose least significant byte comes first; a field's stored number
//! is the `bit_width` bits of it that start `bit_offset` bits above the low
//! end. The decoder finds them by reversing the record's bytes and reading
//! the bits from the most significant one down.
use vstd::prelude::*;
use vstd::slice::slice_subrange;
use vstd::arithmetic::div_mod::{lemma_div_denominator, lemma_mod_breakdown};
use vstd::arithmetic::power2::{lemma2_to64, lemma_pow2_adds, lemma_pow2_pos, lemma_pow2_unfold, pow2};
use bitvec::order::Msb0;
use bitvec::slice::BitSlice;
use crate::column::positions;
use crate::error::{located, QvdError, QvdErrorKind};
use crate::qvd_structure::{FieldModel, QvdFieldHeader};
use crate::symbols::le_value;

verus! {

/// The largest number of bytes that can be viewed as bits on every machine.
pub const MAX_RECORD_BYTES: usize = 0x0400_0000;

/// Bit `position` of a byte sequence, where bit 0 is the most significant
/// bit of the first byte.
pub open spec fn msb0_bit(bytes: Seq<u8>, position: int) -> bool {
    bytes[position / 8] & (0x80u8 >> ((position % 8) as u8)) != 0
}

/// The unsigned number that the bits `from..to` spell, the first bit being
/// the most significant.
pub open spec fn bits_value(bytes: Seq<u8>, from: int, to: int) -> nat
    decreases to - from,
{
    if to <= from {
        0
    } else {
        2 * bits_value(bytes, from, to - 1) + if msb0_bit(bytes, to - 1) {
            1nat
        } else {
            0nat
        }
    }
}

/// Reads one bit through `bitvec`: `BitSlice::<u8, Msb0>::from_slice` views
/// the bytes as bits, and indexing picks one.
///
/// Not proved, but taken from `bitvec`: in `Msb0` order bit 0 is the most
/// significant bit of the first byte, and bit `position` is bit
/// `position % 8`, counted from the most significant one, of byte
/// `position / 8`. `from_slice` panics on more bytes than `MAX_RECORD_BYTES`
/// allows, and indexing panics behind the last bit.
#[verifier::external_body]
fn bit_at(bytes: &[u8], position: usize) -> (bit: bool)
    requires
        bytes.len() < MAX_RECORD_BYTES,
        position < 8 * bytes.len(),
    ensures
        bit == msb0_bit(bytes@, position as int),
{
    BitSlice::<u8, Msb0>::from_slice(bytes)[position]
}

/// The bytes of a record in reverse order.
pub fn reversed(chunk: &[u8]) -> (bytes: Vec<u8>)
    ensures
        bytes@ == chunk@.reverse(),
{
    let mut bytes: Vec<u8> = Vec::new();
    let mut left: usize = chunk.len();
    while left > 0
        invariant
            left <= chunk.len(),
            bytes.len() == chunk.len() - left,
            forall|k: int| 0 <= k < bytes.len() ==> bytes[k] == chunk[chunk.len() - 1 - k],
        decreases left,
    {
        left -= 1;
        bytes.push(chunk[left]);
    }
    assert(bytes@ =~= chunk@.reverse());
    bytes
}

/// A longer run of bits that starts at the same place spells no smaller a number.
pub proof fn lemma_bits_value_grows(bytes: Seq<u8>, from: int, mid: int, to: int)
    requires
        from <= mid <= to,
    ensures
        bits_value(bytes, from, mid) <= bits_value(bytes, from, to),
    decreases to - mid,
{
    if mid < to {
        lemma_bits_value_grows(bytes, from, mid, to - 1);
    }
}

/// The number that the bits `from..to` of `bytes` spell, most significant
/// bit first, or `None` where it is larger than an `i64` can hold.
pub fn bits_to_number(bytes: &[u8], from: usize, to: usize) -> (value: Option<i64>)
    requires
        bytes.len() < MAX_RECORD_BYTES,
        from <= to <= 8 * bytes.len(),
    ensures
        match value {
            Some(v) => v == bits_value(bytes@, from as int, to as int),
            None => bits_value(bytes@, from as int, to as int) > i64::MAX,
        },
{
    let mut acc: i64 = 0;
    let mut k: usize = from;
    while k < to
        invariant
            bytes.len() < MAX_RECORD_BYTES,
            from <= k <= to <= 8 * bytes.len(),
            acc == bits_value(bytes@, from as int, k as int),
        decreases to - k,
    {
        let bit: i64 = if bit_at(bytes, k) {
            1
        } else {
            0
        };
        if acc > (i64::MAX - bit) / 2 {
            proof {
                lemma_bits_value_grows(bytes@, from as int, k + 1, to as int);
            }
            return None;
        }
        acc = 2 * acc + bit;
        k += 1;
    }
    Some(acc)
}

/// Record number `row` of a row section whose records have `size` bytes.
pub open spec fn record(buf: Seq<u8>, size: nat, row: int) -> Seq<u8> {
    buf.subrange(row * size, row * size + size)
}

/// The number that a record stores for a field, before the bias is added.
pub open spec fn stored_number(rec: Seq<u8>, field: FieldModel) -> nat {
    let total = 8 * rec.len();
    bits_value(rec.reverse(), total - field.bit_offset - field.bit_width, total - field.bit_offset)
}

/// The dictionary position that a record holds for a field.
pub open spec fn record_index(rec: Seq<u8>, field: FieldModel) -> int {
    stored_number(rec, field) + field.bias
}

/// The stored number and the dictionary position both fit in 64 bits.
pub open spec fn index_fits(rec: Seq<u8>, field: FieldModel) -> bool {
    &&& stored_number(rec, field) <= i64::MAX
    &&& i64::MIN <= record_index(rec, field) <= i64::MAX
}

/// The field's bits lie inside a record of `size` bytes, and such a record
/// can be viewed as bits.
pub open spec fn layout_fits(field: FieldModel, size: nat) -> bool {
    &&& 0 < size < MAX_RECORD_BYTES
    &&& field.bit_offset + field.bit_width <= 8 * size
}

/// The number of whole records in a row section.
pub open spec fn record_count(buf: Seq<u8>, size: nat) -> nat {
    buf.len() / size
}

/// The row section can be decoded for the field: the layout fits, the
/// section is a whole number of records, and every position fits in 64 bits.
pub open spec fn rows_decodable(buf: Seq<u8>, field: FieldModel, size: nat) -> bool {
    &&& layout_fits(field, size)
    &&& buf.len() % size == 0
    &&& forall|row: int|
        0 <= row < record_count(buf, size) ==> index_fits(#[trigger] record(buf, size, row), field)
}

/// What is wrong with a record size of zero, or one too large to be viewed
/// as bits.
pub const BAD_RECORD_SIZE: &'static str = "record size is not supported";

/// What is wrong with a field whose bits reach beyond the record.
pub const FIELD_OUTSIDE: &'static str = "field does not lie inside a record";

/// What is wrong with a row section that ends inside a record.
pub const PARTIAL_RECORD: &'static str = "row section is not a whole number of records";

/// What is wrong with a record whose dictionary position is too large.
pub const INDEX_TOO_LARGE: &'static str = "dictionary position does not fit in 64 bits";

/// The first record from `row` on whose dictionary position does not fit in
/// 64 bits; the number of records where all fit.
pub open spec fn first_unfit(buf: Seq<u8>, field: FieldModel, size: nat, row: int) -> int
    decreases record_count(buf, size) - row,
{
    if row < 0 || row >= record_count(buf, size) {
        record_count(buf, size) as int
    } else if !index_fits(record(buf, size, row), field) {
        row
    } else {
        first_unfit(buf, field, size, row + 1)
    }
}

/// The message of the error for a row section that cannot be decoded for a
/// field: the first of the faults that it has, and for a position that does
/// not fit, the byte at which its record starts.
pub open spec fn rows_fault(buf: Seq<u8>, field: FieldModel, size: nat) -> Seq<char> {
    if size == 0 || size >= MAX_RECORD_BYTES {
        BAD_RECORD_SIZE@
    } else if field.bit_offset + field.bit_width > 8 * size {
        FIELD_OUTSIDE@
    } else if buf.len() % size != 0 {
        PARTIAL_RECORD@
    } else {
        located(INDEX_TOO_LARGE@, (first_unfit(buf, field, size, 0) * size) as nat)
    }
}

/// The dictionary positions that a row section holds for a field, row by row.
pub open spec fn row_indexes(buf: Seq<u8>, field: FieldModel, size: nat) -> Seq<int> {
    Seq::new(record_count(buf, size), |row: int| record_index(record(buf, size, row), field))
}

/// The dictionary position that one record holds for a field, or `None`
/// where it does not fit in 64 bits.
pub fn index_of_record(chunk: &[u8], field: &QvdFieldHeader) -> (index: Option<i64>)
    requires
        layout_fits(field@, chunk@.len()),
    ensures
        match index {
            Some(i) => index_fits(chunk@, field@) && i == record_index(chunk@, field@),
            None => !index_fits(chunk@, field@),
        },
{
    let bytes = reversed(chunk);
    let total: usize = 8 * bytes.len();
    let start: usize = total - field.bit_offset;
    let end: usize = start - field.bit_width;
    match bits_to_number(bytes.as_slice(), end, start) {
        Some(number) => number.checked_add(field.bias),
        None => None,
    }
}

/// Decodes the row section for one field: the dictionary position of every
/// record, in record order.
///
/// Fails where the record size is zero or too large to be viewed as bits,
/// where the field's bits do not lie inside a record, where the section is
/// not a whole number of records, and where a position does not fit in 64
/// bits.
pub fn get_row_indexes(buf: &[u8], field: &QvdFieldHeader, record_byte_size: usize) -> (result:
    Result<Vec<i64>, QvdError>)
    ensures
        match result {
            Ok(indexes) => rows_decodable(buf@, field@, record_byte_size as nat) && positions(
                indexes@,
            ) == row_indexes(buf@, field@, record_byte_size as nat),
            Err(e) => {
                &&& !rows_decodable(buf@, field@, record_byte_size as nat)
                &&& e.kind == QvdErrorKind::Format
                &&& e.message@ == rows_fault(buf@, field@, record_byte_size as nat)
            },
        },
{
    if record_byte_size == 0 || record_byte_size >= MAX_RECORD_BYTES {
        return Err(QvdError::format(BAD_RECORD_SIZE));
    }
    let total: usize = 8 * record_byte_size;
    if field.bit_offset > total || field.bit_width > total - field.bit_offset {
        return Err(QvdError::format(FIELD_OUTSIDE));
    }
    if buf.len() % record_byte_size != 0 {
        return Err(QvdError::format(PARTIAL_RECORD));
    }
    let ghost size = record_byte_size as nat;
    let count: usize = buf.len() / record_byte_size;
    let mut indexes: Vec<i64> = Vec::with_capacity(count);
    let mut row: usize = 0;
    let mut at: usize = 0;
    while row < count
        invariant
            layout_fits(field@, size),
            size == record_byte_size,
            buf.len() % record_byte_size == 0,
            count == record_count(buf@, size),
            row <= count,
            at == row * record_byte_size,
            at <= buf.len(),
            first_unfit(buf@, field@, size, 0) == first_unfit(buf@, field@, size, row as int),
            indexes.len() == row,
            forall|r: int|
                0 <= r < row ==> index_fits(#[trigger] record(buf@, size, r), field@)
                    && indexes[r] == record_index(record(buf@, size, r), field@),
        decreases count - row,
    {
        proof {
            lemma_record_in_section(buf@.len(), size, row as nat);
        }
        let chunk = slice_subrange(buf, at, at + record_byte_size);
        assert(chunk@ == record(buf@, size, row as int));
        match index_of_record(chunk, field) {
            Some(index) => {
                indexes.push(index);
            },
            None => {
                return Err(QvdError::format_at(INDEX_TOO_LARGE, at));
            },
        }
        row += 1;
        at += record_byte_size;
    }
    assert(positions(indexes@) =~= row_indexes(buf@, field@, size));
    Ok(indexes)
}

/// Record `row` of a section of `len` bytes ends inside the section.
proof fn lemma_record_in_section(len: nat, size: nat, row: nat)
    requires
        size > 0,
        len % size == 0,
        row < len / size,
    ensures
        row * size + size <= len,
        (row + 1) * size == row * size + size,
{
    assert(len == size * (len / size)) by {
        vstd::arithmetic::div_mod::lemma_fundamental_div_mod(len as int, size as int);
    }
    assert(row * size + size <= size * (len / size)) by (nonlinear_arith)
        requires
            row < len / size,
            size > 0,
    ;
    assert((row + 1) * size == row * size + size) by (nonlinear_arith);
}

/// Bit `k` of a record, counted from the least significant bit of its
/// first byte.
pub open spec fn record_bit(rec: Seq<u8>, k: int) -> bool {
    rec[k / 8] & (1u8 << ((k % 8) as u8)) != 0
}

/// The number that `width` bits of a record spell, from bit `offset` up, the
/// first of them being the least significant.
pub open spec fn bit_field(rec: Seq<u8>, offset: int, width: nat) -> nat
    decreases width,
{
    if width == 0 {
        0
    } else {
        2 * bit_field(rec, offset + 1, (width - 1) as nat) + if record_bit(rec, offset) {
            1nat
        } else {
            0nat
        }
    }
}

/// Bit `k` from the low end of a record is bit `k` from the high end of the
/// reversed record.
pub proof fn lemma_reversed_bit(rec: Seq<u8>, k: int)
    requires
        0 <= k < 8 * rec.len(),
    ensures
        msb0_bit(rec.reverse(), 8 * rec.len() - 1 - k) == record_bit(rec, k),
{
    let position = 8 * rec.len() - 1 - k;
    assert(position / 8 == rec.len() - 1 - k / 8);
    assert(position % 8 == 7 - k % 8);
    assert(rec.reverse()[position / 8] == rec[k / 8]);
    let byte = rec[k / 8];
    let high = (position % 8) as u8;
    let low = (k % 8) as u8;
    assert(byte & (0x80u8 >> high) == byte & (1u8 << low)) by (bit_vector)
        requires
            low < 8,
            high == 7 - low,
    ;
}

/// The number that a record stores for a field is spelled by the
/// `bit_width` bits of the record that start `bit_offset` bits above its low
/// end: reversing the bytes and reading from the high end finds the same
/// bits.
pub proof fn lemma_stored_number_is_bit_field(rec: Seq<u8>, field: FieldModel)
    requires
        field.bit_offset + field.bit_width <= 8 * rec.len(),
    ensures
        stored_number(rec, field) == bit_field(rec, field.bit_offset as int, field.bit_width),
    decreases field.bit_width,
{
    if field.bit_width > 0 {
        let rest = FieldModel {
            name: field.name,
            offset: field.offset,
            length: field.length,
            bit_offset: field.bit_offset + 1,
            bit_width: (field.bit_width - 1) as nat,
            bias: field.bias,
        };
        lemma_stored_number_is_bit_field(rec, rest);
        lemma_reversed_bit(rec, field.bit_offset as int);
    }
}

/// The number that a record is when its first byte is its least
/// significant one.
pub open spec fn record_number(rec: Seq<u8>) -> nat {
    le_value(rec, 0, rec.len())
}

/// Dropping the first `count` bytes of a record divides its number by 256
/// to the power of `count`.
proof fn lemma_drop_bytes(rec: Seq<u8>, count: nat)
    requires
        count <= rec.len(),
    ensures
        record_number(rec) / pow2(8 * count) == le_value(
            rec,
            count as int,
            (rec.len() - count) as nat,
        ),
    decreases count,
{
    lemma2_to64();
    let number = record_number(rec) as int;
    if count == 0 {
        assert(pow2(0) == 1);
        assert(number / 1 == number);
    } else {
        let before = (count - 1) as nat;
        lemma_drop_bytes(rec, before);
        let tail = le_value(rec, count as int, (rec.len() - count) as nat) as int;
        let lower = pow2(8 * before) as int;
        assert(le_value(rec, before as int, (rec.len() - before) as nat) == rec[before as int]
            + 256 * tail);
        assert(number / lower == rec[before as int] + 256 * tail);
        lemma_pow2_adds(8 * before, 8);
        lemma_pow2_pos(8 * before);
        lemma_div_denominator(number, lower, 256);
        assert(pow2(8 * count) == lower * 256);
        assert((number / lower) / 256 == number / (lower * 256));
        assert((rec[before as int] + 256 * tail) / 256 == tail);
    }
}

/// Bit `k` of a record is bit `k` of its number.
proof fn lemma_record_bit_of_number(rec: Seq<u8>, k: int)
    requires
        0 <= k < 8 * rec.len(),
    ensures
        record_bit(rec, k) == ((record_number(rec) / pow2(k as nat)) % 2 == 1),
{
    lemma2_to64();
    let q = (k / 8) as nat;
    let r = (k % 8) as nat;
    let number = record_number(rec) as int;
    lemma_drop_bytes(rec, q);
    let byte = rec[q as int];
    let tail = le_value(rec, q as int + 1, (rec.len() - q - 1) as nat) as int;
    let upper = byte as int + 256 * tail;
    let divisor = pow2(r) as int;
    assert(number / (pow2(8 * q) as int) == upper);
    lemma_pow2_adds(8 * q, r);
    lemma_pow2_pos(8 * q);
    lemma_pow2_pos(r);
    lemma_div_denominator(number, pow2(8 * q) as int, divisor);
    assert(number / (pow2(k as nat) as int) == upper / divisor);
    let low = r as u8;
    assert((byte & (1u8 << low) != 0) == ((byte / (1u8 << low)) % 2 == 1)) by (bit_vector)
        requires
            low < 8,
    ;
    assert((1u8 << low) == divisor) by {
        assert(low == 0 ==> (1u8 << low) == 1) by (bit_vector);
        assert(low == 1 ==> (1u8 << low) == 2) by (bit_vector);
        assert(low == 2 ==> (1u8 << low) == 4) by (bit_vector);
        assert(low == 3 ==> (1u8 << low) == 8) by (bit_vector);
        assert(low == 4 ==> (1u8 << low) == 16) by (bit_vector);
        assert(low == 5 ==> (1u8 << low) == 32) by (bit_vector);
        assert(low == 6 ==> (1u8 << low) == 64) by (bit_vector);
        assert(low == 7 ==> (1u8 << low) == 128) by (bit_vector);
    }
    assert((upper / divisor) % 2 == (byte as int / divisor) % 2) by {
        if r == 0 {
            assert(upper / 1 == byte as int / 1 + 2 * (128 * tail));
        } else if r == 1 {
            assert(upper / 2 == byte as int / 2 + 2 * (64 * tail));
        } else if r == 2 {
            assert(upper / 4 == byte as int / 4 + 2 * (32 * tail));
        } else if r == 3 {
            assert(upper / 8 == byte as int / 8 + 2 * (16 * tail));
        } else if r == 4 {
            assert(upper / 16 == byte as int / 16 + 2 * (8 * tail));
        } else if r == 5 {
            assert(upper / 32 == byte as int / 32 + 2 * (4 * tail));
        } else if r == 6 {
            assert(upper / 64 == byte as int / 64 + 2 * (2 * tail));
        } else {
            assert(upper / 128 == byte as int / 128 + 2 * tail);
        }
    }
}

/// The bits of a record spell the same number as the digits of its number:
/// `width` bits from bit `offset` up are the number divided by two to the
/// power of `offset`, taken modulo two to the power of `width`.
pub proof fn lemma_bit_field_of_number(rec: Seq<u8>, offset: nat, width: nat)
    requires
        offset + width <= 8 * rec.len(),
    ensures
        bit_field(rec, offset as int, width) == (record_number(rec) / pow2(offset)) % pow2(width),
    decreases width,
{
    lemma2_to64();
    let number = record_number(rec);
    lemma_pow2_pos(offset);
    if width == 0 {
        assert((number / pow2(offset)) % 1 == 0);
    } else {
        let rest = (width - 1) as nat;
        lemma_bit_field_of_number(rec, offset + 1, rest);
        lemma_record_bit_of_number(rec, offset as int);
        let shifted = (number / pow2(offset)) as int;
        lemma_pow2_pos(rest);
        lemma_pow2_unfold(width);
        lemma_pow2_unfold(offset + 1);
        lemma_mod_breakdown(shifted, 2, pow2(rest) as int);
        lemma_div_denominator(number as int, pow2(offset) as int, 2);
        assert(shifted / 2 == number / pow2(offset + 1));
    }
}

/// The number that a record stores for a field is a run of binary digits of
/// the record's number: the number divided by two to the power of
/// `bit_offset`, taken modulo two to the power of `bit_width`.
pub proof fn lemma_stored_number_is_digits_of_record(rec: Seq<u8>, field: FieldModel)
    requires
        field.bit_offset + field.bit_width <= 8 * rec.len(),
    ensures
        stored_number(rec, field) == (record_number(rec) / pow2(field.bit_offset)) % pow2(
            field.bit_width,
        ),
{
    lemma_stored_number_is_bit_field(rec, field);
    lemma_bit_field_of_number(rec, field.bit_offset, field.bit_width);
}

} // verus!
