//! Decoding of a field's symbol segment into its dictionary.
//!
//! A symbol segment is scanned once, front to back. Each byte that the scan
//! stops at is a control byte:
//!
//! | byte   | meaning                                             | advance |
//! |--------|-----------------------------------------------------|---------|
//! | `0x00` | ends a text that began at the last recorded start   | 1       |
//! | `0x01` | a little-endian 32-bit integer follows              | 5       |
//! | `0x02` | a little-endian double follows                      | 9       |
//! | `0x04` | a text starts behind this byte                      | 1       |
//! | `0x05` | four bytes to skip, then a text starts              | 5       |
//! | `0x06` | eight bytes to skip, then a text starts             | 9       |
//! | other  | part of a text                                      | 1       |
use vstd::prelude::*;
use vstd::slice::slice_subrange;
use vstd::utf8::{decode_utf8, valid_utf8};
use crate::error::{located, QvdError};
use crate::column::{models, CellModel, CellValue};

verus! {

/// The text that `String::from_utf8_lossy` makes of a byte sequence.
pub uninterp spec fn lossy_text(bytes: Seq<u8>) -> Seq<char>;

/// The text that a run of bytes stands for: the text that they encode where
/// they are valid UTF-8, and else that text with every invalid sequence
/// replaced by U+FFFD.
pub open spec fn text_of(bytes: Seq<u8>) -> Seq<char> {
    if valid_utf8(bytes) {
        decode_utf8(bytes)
    } else {
        lossy_text(bytes)
    }
}

/// The unsigned number whose little-endian bytes are `bytes[at..at + count]`.
pub open spec fn le_value(bytes: Seq<u8>, at: int, count: nat) -> nat
    decreases count,
{
    if count == 0 {
        0
    } else {
        bytes[at] as nat + 256 * le_value(bytes, at + 1, (count - 1) as nat)
    }
}

/// The signed 32-bit number whose little-endian two's complement bytes are
/// `bytes[at..at + 4]`.
pub open spec fn le_i32(bytes: Seq<u8>, at: int) -> int {
    let unsigned = le_value(bytes, at, 4);
    if unsigned >= 0x8000_0000 {
        unsigned - 0x1_0000_0000
    } else {
        unsigned as int
    }
}

/// The dictionary that the scan yields from position `pos` on, when the last
/// text start was recorded at `start`; `None` where a number is cut off by
/// the end of the segment.
pub open spec fn symbols_from(buf: Seq<u8>, pos: int, start: int) -> Option<Seq<CellModel>>
    decreases buf.len() - pos,
{
    if pos < 0 || pos >= buf.len() {
        Some(Seq::empty())
    } else if buf[pos] == 0 {
        prepend(
            CellModel::Text(text_of(buf.subrange(start, pos))),
            symbols_from(buf, pos + 1, start),
        )
    } else if buf[pos] == 1 {
        if pos + 5 > buf.len() {
            None
        } else {
            prepend(CellModel::Int(le_i32(buf, pos + 1)), symbols_from(buf, pos + 5, start))
        }
    } else if buf[pos] == 2 {
        if pos + 9 > buf.len() {
            None
        } else {
            prepend(
                CellModel::Float(le_value(buf, pos + 1, 8)),
                symbols_from(buf, pos + 9, start),
            )
        }
    } else if buf[pos] == 4 {
        symbols_from(buf, pos + 1, pos + 1)
    } else if buf[pos] == 5 {
        if pos + 5 >= buf.len() {
            Some(Seq::empty())
        } else {
            symbols_from(buf, pos + 5, pos + 5)
        }
    } else if buf[pos] == 6 {
        if pos + 9 >= buf.len() {
            Some(Seq::empty())
        } else {
            symbols_from(buf, pos + 9, pos + 9)
        }
    } else {
        symbols_from(buf, pos + 1, start)
    }
}

/// `first` put in front of `rest`, where there is a rest.
pub open spec fn prepend(first: CellModel, rest: Option<Seq<CellModel>>) -> Option<Seq<CellModel>> {
    match rest {
        Some(values) => Some(seq![first] + values),
        None => None,
    }
}

/// The dictionary that a whole symbol segment holds.
pub open spec fn symbols_of(buf: Seq<u8>) -> Option<Seq<CellModel>> {
    symbols_from(buf, 0, 0)
}

/// What is wrong with a segment that ends inside an integer.
pub const CUT_INTEGER: &'static str = "symbol segment ends inside an integer";

/// What is wrong with a segment that ends inside a double.
pub const CUT_DOUBLE: &'static str = "symbol segment ends inside a double";

/// The position of the control byte of the first number that the end of the
/// segment cuts off, for a scan from `pos` on; the length of the segment
/// where no number is cut off.
pub open spec fn first_cut(buf: Seq<u8>, pos: int) -> int
    decreases buf.len() - pos,
{
    if pos < 0 || pos >= buf.len() {
        buf.len() as int
    } else if buf[pos] == 1 {
        if pos + 5 > buf.len() {
            pos
        } else {
            first_cut(buf, pos + 5)
        }
    } else if buf[pos] == 2 {
        if pos + 9 > buf.len() {
            pos
        } else {
            first_cut(buf, pos + 9)
        }
    } else if buf[pos] == 5 {
        if pos + 5 >= buf.len() {
            buf.len() as int
        } else {
            first_cut(buf, pos + 5)
        }
    } else if buf[pos] == 6 {
        if pos + 9 >= buf.len() {
            buf.len() as int
        } else {
            first_cut(buf, pos + 9)
        }
    } else {
        first_cut(buf, pos + 1)
    }
}

/// The message of the error for a segment that ends inside a number: what
/// kind of number it is and where it starts.
pub open spec fn cut_message(buf: Seq<u8>) -> Seq<char> {
    let at = first_cut(buf, 0);
    if buf[at] == 1 {
        located(CUT_INTEGER@, at as nat)
    } else {
        located(CUT_DOUBLE@, at as nat)
    }
}

/// Calls `String::from_utf8_lossy` and owns the result.
///
/// Not proved, but taken from the documentation of std: the text is a
/// function of the bytes alone, and where the bytes are valid UTF-8 it is
/// the text that they encode.
#[verifier::external_body]
fn text_from_bytes(bytes: &[u8]) -> (text: String)
    ensures
        text@ == lossy_text(bytes@),
        valid_utf8(bytes@) ==> text@ == decode_utf8(bytes@),
{
    String::from_utf8_lossy(bytes).into_owned()
}

/// The text between a recorded start and the terminator at `end`.
pub fn string_from_buf(field_buf: &[u8], string_start: usize, end: usize) -> (text: String)
    requires
        string_start <= end <= field_buf.len(),
    ensures
        text@ == text_of(field_buf@.subrange(string_start as int, end as int)),
{
    text_from_bytes(slice_subrange(field_buf, string_start, end))
}

/// The little-endian 32-bit integer behind the control byte at `pos`.
pub fn int_from_buf(field_buf: &[u8], pos: usize) -> (value: i32)
    requires
        pos + 5 <= field_buf.len(),
    ensures
        value == le_i32(field_buf@, pos + 1),
{
    let b0: u32 = field_buf[pos + 1] as u32;
    let b1: u32 = field_buf[pos + 2] as u32;
    let b2: u32 = field_buf[pos + 3] as u32;
    let b3: u32 = field_buf[pos + 4] as u32;
    proof {
        reveal_with_fuel(le_value, 5);
    }
    let unsigned: u32 = b0 + 256 * (b1 + 256 * (b2 + 256 * b3));
    if unsigned >= 0x8000_0000 {
        ((unsigned - 0x8000_0000) as i32) + i32::MIN
    } else {
        unsigned as i32
    }
}

/// The bits of the little-endian double behind the control byte at `pos`.
pub fn float_from_buf(field_buf: &[u8], pos: usize) -> (bits: u64)
    requires
        pos + 9 <= field_buf.len(),
    ensures
        bits == le_value(field_buf@, pos + 1, 8),
{
    let mut bits: u64 = 0;
    let mut k: usize = 8;
    while k > 0
        invariant
            pos + 9 <= field_buf.len(),
            k <= 8,
            bits == le_value(field_buf@, pos + 1 + k, (8 - k) as nat),
            bits < pow256((8 - k) as nat),
        decreases k,
    {
        k -= 1;
        proof {
            lemma_pow256_step((7 - k) as nat);
        }
        bits = field_buf[pos + 1 + k] as u64 + 256 * bits;
    }
    bits
}

/// 256 to the power of `count`.
pub open spec fn pow256(count: nat) -> nat
    decreases count,
{
    if count == 0 {
        1
    } else {
        256 * pow256((count - 1) as nat)
    }
}

proof fn lemma_pow256_step(count: nat)
    requires
        count < 8,
    ensures
        pow256(count + 1) == 256 * pow256(count),
        pow256(count + 1) <= 0x1_0000_0000_0000_0000,
{
    reveal_with_fuel(pow256, 10);
}

/// The values found so far followed by those that the rest of the scan yields.
pub open spec fn found_then(found: Seq<CellModel>, rest: Option<Seq<CellModel>>) -> Option<
    Seq<CellModel>,
> {
    match rest {
        Some(values) => Some(found + values),
        None => None,
    }
}

proof fn lemma_found_then_prepend(found: Seq<CellModel>, next: CellModel, rest: Option<Seq<CellModel>>)
    ensures
        found_then(found, prepend(next, rest)) == found_then(found.push(next), rest),
{
    if let Some(values) = rest {
        assert(found + (seq![next] + values) =~= found.push(next) + values);
    }
}

proof fn lemma_models_push(values: Seq<CellValue>, value: CellValue)
    ensures
        models(values.push(value)) == models(values).push(value@),
{
    assert(models(values.push(value)) =~= models(values).push(value@));
}

/// Decodes a symbol segment into the dictionary of its field.
///
/// The values come in the order in which the scan completes them. A text
/// that is not valid UTF-8 is kept, with each invalid sequence replaced by
/// U+FFFD. A segment that ends inside a number is rejected; one that ends
/// inside a text yields the values before that text.
pub fn get_column_values_from_buf(field_buf: &[u8]) -> (result: Result<Vec<CellValue>, QvdError>)
    ensures
        match result {
            Ok(values) => symbols_of(field_buf@) == Some(models(values@)),
            Err(e) => {
                &&& symbols_of(field_buf@) is None
                &&& e.kind == crate::error::QvdErrorKind::Format
                &&& e.message@ == cut_message(field_buf@)
            },
        },
{
    let len: usize = field_buf.len();
    let mut i: usize = 0;
    let mut string_start: usize = 0;
    let mut cell_values: Vec<CellValue> = Vec::new();
    proof {
        assert(models(cell_values@) =~= Seq::<CellModel>::empty());
        let rest = symbols_from(field_buf@, 0, 0);
        if let Some(values) = rest {
            assert(Seq::<CellModel>::empty() + values =~= values);
        }
    }
    while i < len
        invariant
            len == field_buf.len(),
            string_start <= i <= len,
            first_cut(field_buf@, 0) == first_cut(field_buf@, i as int),
            symbols_of(field_buf@) == found_then(
                models(cell_values@),
                symbols_from(field_buf@, i as int, string_start as int),
            ),
        decreases len - i,
    {
        let byte: u8 = field_buf[i];
        let ghost found = models(cell_values@);
        if byte == 0 {
            let value = CellValue::Text(string_from_buf(field_buf, string_start, i));
            proof {
                lemma_found_then_prepend(
                    found,
                    value@,
                    symbols_from(field_buf@, i + 1, string_start as int),
                );
                lemma_models_push(cell_values@, value);
            }
            cell_values.push(value);
            i += 1;
        } else if byte == 1 {
            if len - i < 5 {
                return Err(QvdError::format_at(CUT_INTEGER, i));
            }
            let value = CellValue::Int(int_from_buf(field_buf, i));
            proof {
                lemma_found_then_prepend(
                    found,
                    value@,
                    symbols_from(field_buf@, i + 5, string_start as int),
                );
                lemma_models_push(cell_values@, value);
            }
            cell_values.push(value);
            i += 5;
        } else if byte == 2 {
            if len - i < 9 {
                return Err(QvdError::format_at(CUT_DOUBLE, i));
            }
            let value = CellValue::Float(float_from_buf(field_buf, i));
            proof {
                lemma_found_then_prepend(
                    found,
                    value@,
                    symbols_from(field_buf@, i + 9, string_start as int),
                );
                lemma_models_push(cell_values@, value);
            }
            cell_values.push(value);
            i += 9;
        } else if byte == 4 {
            i += 1;
            string_start = i;
        } else if byte == 5 {
            if len - i <= 5 {
                proof {
                    assert(found + Seq::<CellModel>::empty() =~= found);
                }
                return Ok(cell_values);
            }
            i += 5;
            string_start = i;
        } else if byte == 6 {
            if len - i <= 9 {
                proof {
                    assert(found + Seq::<CellModel>::empty() =~= found);
                }
                return Ok(cell_values);
            }
            i += 9;
            string_start = i;
        } else {
            i += 1;
        }
    }
    proof {
        assert(models(cell_values@) + Seq::<CellModel>::empty() =~= models(cell_values@));
    }
    Ok(cell_values)
}

/// The byte at `at` is the control byte of an integer or of a double.
pub open spec fn starts_number(buf: Seq<u8>, at: int) -> bool {
    buf[at] == 1 || buf[at] == 2
}

/// A scan fails exactly where a number is cut off, and the first such
/// number starts with the control byte of an integer or of a double.
pub proof fn lemma_scan_fails_at_first_cut(buf: Seq<u8>, pos: int, start: int)
    ensures
        symbols_from(buf, pos, start) is None <==> first_cut(buf, pos) < buf.len(),
        pos <= first_cut(buf, pos) || pos >= buf.len(),
        first_cut(buf, pos) < buf.len() ==> starts_number(buf, first_cut(buf, pos)),
    decreases buf.len() - pos,
{
    if 0 <= pos < buf.len() {
        if buf[pos] == 0 {
            lemma_scan_fails_at_first_cut(buf, pos + 1, start);
        } else if buf[pos] == 1 {
            if pos + 5 <= buf.len() {
                lemma_scan_fails_at_first_cut(buf, pos + 5, start);
            }
        } else if buf[pos] == 2 {
            if pos + 9 <= buf.len() {
                lemma_scan_fails_at_first_cut(buf, pos + 9, start);
            }
        } else if buf[pos] == 4 {
            lemma_scan_fails_at_first_cut(buf, pos + 1, pos + 1);
        } else if buf[pos] == 5 {
            if pos + 5 < buf.len() {
                lemma_scan_fails_at_first_cut(buf, pos + 5, pos + 5);
            }
        } else if buf[pos] == 6 {
            if pos + 9 < buf.len() {
                lemma_scan_fails_at_first_cut(buf, pos + 9, pos + 9);
            }
        } else {
            lemma_scan_fails_at_first_cut(buf, pos + 1, start);
        }
    }
}

} // verus!
