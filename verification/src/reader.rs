//! Decoding of the binary part of a file into columns.
//!
//! The binary part starts with the symbol section, in which every field has
//! a segment of its own, and goes on with the row section, which all fields
//! share. The fields are decoded independently of one another, on worker
//! threads, and the columns come back in the order of the fields.
use vstd::prelude::*;
use vstd::slice::slice_subrange;
use rayon::iter::{IntoParallelRefIterator, ParallelIterator};
use crate::column::{CellValue, Column, ColumnModel, Header, MISSING_SYMBOL};
use crate::error::{field_label, located, QvdError, QvdErrorKind};
use crate::qvd_structure::{FieldModel, QvdFieldHeader, QvdTableHeader, TableModel};
use crate::rows::{get_row_indexes, row_indexes, rows_decodable, rows_fault, PARTIAL_RECORD};
use crate::symbols::{cut_message, get_column_values_from_buf, symbols_of};

verus! {

/// What is wrong with a symbol segment that reaches beyond the symbol
/// section.
pub const SEGMENT_OUTSIDE: &'static str = "symbol segment does not lie inside the symbol section";

/// What is wrong with a row section that starts behind the last byte.
pub const ROWS_BEHIND_END: &'static str = "row section starts behind the end of the file";

/// A field together with its symbol segment.
pub struct Field<'a> {
    pub field_header: &'a QvdFieldHeader,
    pub field_buf: &'a [u8],
}

/// The symbol segment of a field lies inside the symbol section.
pub open spec fn segment_fits(field: FieldModel, symbol_map: Seq<u8>) -> bool {
    field.offset + field.length <= symbol_map.len()
}

/// The symbol segment of a field.
pub open spec fn segment(field: FieldModel, symbol_map: Seq<u8>) -> Seq<u8> {
    symbol_map.subrange(field.offset as int, (field.offset + field.length) as int)
}

impl<'a> Field<'a> {
    /// Cuts a field's symbol segment out of the symbol section. Fails where
    /// the segment does not lie inside the section.
    pub fn from_header_and_symbol_map(header: &'a QvdFieldHeader, buf: &'a [u8]) -> (result: Result<
        Field<'a>,
        QvdError,
    >)
        ensures
            match result {
                Ok(field) => {
                    &&& segment_fits(header@, buf@)
                    &&& field.field_header == header
                    &&& field.field_buf@ == segment(header@, buf@)
                },
                Err(e) => {
                    &&& !segment_fits(header@, buf@)
                    &&& e.kind == QvdErrorKind::Format
                    &&& e.message@ == SEGMENT_OUTSIDE@
                },
            },
    {
        let start: usize = header.offset;
        if start > buf.len() || header.length > buf.len() - start {
            return Err(QvdError::format(SEGMENT_OUTSIDE));
        }
        let end: usize = start + header.length;
        Ok(Field { field_header: header, field_buf: slice_subrange(buf, start, end) })
    }

    /// The dictionary of the field.
    pub fn get_column_values(&self) -> (result: Result<Vec<CellValue>, QvdError>)
        ensures
            match result {
                Ok(values) => symbols_of(self.field_buf@) == Some(crate::column::models(values@)),
                Err(e) => {
                    &&& symbols_of(self.field_buf@) is None
                    &&& e.kind == QvdErrorKind::Format
                    &&& e.message@ == cut_message(self.field_buf@)
                },
            },
    {
        get_column_values_from_buf(self.field_buf)
    }
}

/// The column that the two sections hold for a field, before it is known
/// whether every row finds its value in the dictionary.
pub open spec fn column_parts(
    field: FieldModel,
    symbol_map: Seq<u8>,
    row_section: Seq<u8>,
    size: nat,
) -> ColumnModel {
    ColumnModel {
        name: field.name,
        symbols: symbols_of(segment(field, symbol_map)).unwrap(),
        indexes: row_indexes(row_section, field, size),
    }
}

/// The column that the two sections hold for a field; `None` where the
/// field cannot be decoded.
pub open spec fn column_of(
    field: FieldModel,
    symbol_map: Seq<u8>,
    row_section: Seq<u8>,
    size: nat,
) -> Option<ColumnModel> {
    if segment_fits(field, symbol_map) && symbols_of(segment(field, symbol_map)) is Some
        && rows_decodable(row_section, field, size) && column_parts(
        field,
        symbol_map,
        row_section,
        size,
    ).wf() {
        Some(column_parts(field, symbol_map, row_section, size))
    } else {
        None
    }
}

/// What is wrong with a field that cannot be decoded: the first of the
/// faults that it has.
pub open spec fn column_fault(
    field: FieldModel,
    symbol_map: Seq<u8>,
    row_section: Seq<u8>,
    size: nat,
) -> Seq<char> {
    if !segment_fits(field, symbol_map) {
        SEGMENT_OUTSIDE@
    } else if symbols_of(segment(field, symbol_map)) is None {
        cut_message(segment(field, symbol_map))
    } else if !rows_decodable(row_section, field, size) {
        rows_fault(row_section, field, size)
    } else {
        MISSING_SYMBOL@
    }
}

/// `result` is what decoding the field gives: its column, or where it has
/// none a format error whose message names the field and its fault.
pub open spec fn is_column_of(
    result: Result<Column, QvdError>,
    field: FieldModel,
    symbol_map: Seq<u8>,
    row_section: Seq<u8>,
    size: nat,
) -> bool {
    match result {
        Ok(column) => column_of(field, symbol_map, row_section, size) == Some(column@),
        Err(e) => {
            &&& column_of(field, symbol_map, row_section, size) is None
            &&& e.kind == QvdErrorKind::Format
            &&& e.message@ == field_label(field.name) + column_fault(
                field,
                symbol_map,
                row_section,
                size,
            )
        },
    }
}

/// Decodes one field: its dictionary from its symbol segment and its
/// dictionary positions from the row section.
///
/// Fails where the segment does not lie inside the symbol section, where
/// it ends inside a number, where the row section cannot be decoded for the
/// field, and where a row refers to a symbol that the dictionary lacks.
pub fn decode_column(
    field_header: &QvdFieldHeader,
    symbol_map: &[u8],
    row_section: &[u8],
    record_byte_size: usize,
) -> (result: Result<Column, QvdError>)
    ensures
        is_column_of(result, field_header@, symbol_map@, row_section@, record_byte_size as nat),
{
    let name = field_header.field_name.as_str();
    let field = match Field::from_header_and_symbol_map(field_header, symbol_map) {
        Ok(field) => field,
        Err(e) => {
            return Err(e.in_field(name));
        },
    };
    let symbols = match field.get_column_values() {
        Ok(symbols) => symbols,
        Err(e) => {
            return Err(e.in_field(name));
        },
    };
    let indexes = match get_row_indexes(row_section, field_header, record_byte_size) {
        Ok(indexes) => indexes,
        Err(e) => {
            return Err(e.in_field(name));
        },
    };
    let header = Header(field_header.field_name.clone());
    let ghost parts = column_parts(
        field_header@,
        symbol_map@,
        row_section@,
        record_byte_size as nat,
    );
    match Column::new(header, symbols, indexes) {
        Ok(column) => {
            assert(column@ == parts);
            Ok(column)
        },
        Err(e) => {
            let ghost row = choose|row: int|
                0 <= row < indexes.len() && #[trigger] indexes[row] >= symbols.len();
            assert(parts.indexes[row] == indexes[row]);
            Err(e.in_field(name))
        },
    }
}

/// Decodes the fields on `rayon`'s worker threads: `par_iter` over the
/// fields, `map` with `decode_column`, and `collect` into a vector.
///
/// Not proved, but taken from `rayon`: the vector has one item per field, in
/// the order of the fields, and each item is what `decode_column` returned
/// for that field.
#[verifier::external_body]
fn decode_fields(
    fields: &[QvdFieldHeader],
    symbol_map: &[u8],
    row_section: &[u8],
    record_byte_size: usize,
) -> (results: Vec<Result<Column, QvdError>>)
    ensures
        results.len() == fields.len(),
        forall|i: int|
            0 <= i < fields.len() ==> is_column_of(
                #[trigger] results[i],
                fields[i]@,
                symbol_map@,
                row_section@,
                record_byte_size as nat,
            ),
{
    fields.par_iter().map(
        |field| decode_column(field, symbol_map, row_section, record_byte_size),
    ).collect()
}

/// The symbol section of the binary part of a file.
pub open spec fn symbol_section(table: TableModel, data: Seq<u8>) -> Seq<u8> {
    data.subrange(0, table.offset as int)
}

/// The row section of the binary part of a file.
pub open spec fn row_section(table: TableModel, data: Seq<u8>) -> Seq<u8> {
    data.subrange(table.offset as int, data.len() as int)
}

/// The column that the binary part of a file holds for field number `i`.
pub open spec fn table_column(table: TableModel, data: Seq<u8>, i: int) -> Option<ColumnModel> {
    column_of(
        table.fields[i],
        symbol_section(table, data),
        row_section(table, data),
        table.record_byte_size,
    )
}

/// A row section of `len` bytes is a whole number of records of `size`
/// bytes: it is empty, or the records have a size and `len` is a multiple
/// of it.
pub open spec fn whole_records(len: nat, size: nat) -> bool {
    len == 0 || (size > 0 && len % size == 0)
}

/// The binary part of a file can be decoded: the row section starts inside
/// it and is a whole number of records, and every field has a column.
pub open spec fn decodable(table: TableModel, data: Seq<u8>) -> bool {
    &&& table.offset <= data.len()
    &&& whole_records(row_section(table, data).len(), table.record_byte_size)
    &&& forall|i: int| 0 <= i < table.fields.len() ==> #[trigger] table_column(table, data, i) is Some
}

/// The first field from number `i` on that cannot be decoded; the number of
/// fields where all can.
pub open spec fn first_failing(table: TableModel, data: Seq<u8>, i: int) -> int
    decreases table.fields.len() - i,
{
    if i < 0 || i >= table.fields.len() {
        table.fields.len() as int
    } else if table_column(table, data, i) is None {
        i
    } else {
        first_failing(table, data, i + 1)
    }
}

/// What is wrong with a binary part that cannot be decoded: the first of
/// the faults that it has. A fault of the row section is named with the
/// byte at which the section starts, a fault of a field with the field's
/// name.
pub open spec fn table_fault(table: TableModel, data: Seq<u8>) -> Seq<char> {
    if table.offset > data.len() {
        ROWS_BEHIND_END@
    } else if !whole_records(row_section(table, data).len(), table.record_byte_size) {
        located(PARTIAL_RECORD@, table.offset)
    } else {
        let i = first_failing(table, data, 0);
        field_label(table.fields[i].name) + column_fault(
            table.fields[i],
            symbol_section(table, data),
            row_section(table, data),
            table.record_byte_size,
        )
    }
}

/// The columns that the binary part of a file holds, in field order.
pub open spec fn columns_of(table: TableModel, data: Seq<u8>) -> Seq<ColumnModel> {
    Seq::new(table.fields.len(), |i: int| table_column(table, data, i).unwrap())
}

/// The models of a list of columns.
pub open spec fn column_models(columns: Seq<Column>) -> Seq<ColumnModel> {
    columns.map_values(|c: Column| c@)
}

/// Decodes the binary part of a file, which follows the terminator of the
/// metadata block, into the columns of the table, in field order.
///
/// Fails where the row section starts behind the end of the data, where
/// it is not a whole number of records, and where a field cannot be
/// decoded. Either every field is decoded or an error is returned: there is
/// no partial result.
pub fn read_qvd(table: &QvdTableHeader, data: &[u8]) -> (result: Result<Vec<Column>, QvdError>)
    ensures
        match result {
            Ok(columns) => decodable(table@, data@) && column_models(columns@) == columns_of(
                table@,
                data@,
            ),
            Err(e) => {
                &&& !decodable(table@, data@)
                &&& e.kind == QvdErrorKind::Format
                &&& e.message@ == table_fault(table@, data@)
            },
        },
{
    if table.offset > data.len() {
        return Err(QvdError::format(ROWS_BEHIND_END));
    }
    let symbol_map = slice_subrange(data, 0, table.offset);
    let rows = slice_subrange(data, table.offset, data.len());
    if rows.len() != 0 && (table.record_byte_size == 0 || rows.len() % table.record_byte_size
        != 0) {
        return Err(QvdError::format_at(PARTIAL_RECORD, table.offset));
    }
    let results = decode_fields(
        table.fields.headers.as_slice(),
        symbol_map,
        rows,
        table.record_byte_size,
    );
    let ghost fields = table.fields.headers@;
    assert(forall|i: int| 0 <= i < fields.len() ==> #[trigger] table@.fields[i] == fields[i]@);
    let mut columns: Vec<Column> = Vec::with_capacity(results.len());
    for result in it: results.into_iter()
        invariant
            it.seq() == results@,
            results.len() == fields.len(),
            table@.fields.len() == fields.len(),
            table.offset <= data.len(),
            whole_records(row_section(table@, data@).len(), table@.record_byte_size),
            first_failing(table@, data@, 0) == first_failing(table@, data@, it.index() as int),
            columns.len() == it.index(),
            forall|i: int|
                0 <= i < fields.len() ==> is_column_of(
                    #[trigger] results[i],
                    table@.fields[i],
                    symbol_section(table@, data@),
                    row_section(table@, data@),
                    table@.record_byte_size,
                ),
            forall|i: int|
                0 <= i < columns.len() ==> table_column(table@, data@, i) == Some(
                    (#[trigger] columns[i])@,
                ),
    {
        match result {
            Ok(column) => {
                columns.push(column);
            },
            Err(e) => {
                assert(table_column(table@, data@, it.index() as int) is None);
                return Err(e);
            },
        }
    }
    assert(columns.len() == fields.len());
    assert forall|i: int| 0 <= i < table@.fields.len() implies #[trigger] table_column(
        table@,
        data@,
        i,
    ) is Some by {
        assert(table_column(table@, data@, i) == Some(columns[i]@));
    }
    assert(column_models(columns@) =~= columns_of(table@, data@));
    Ok(columns)
}

/// The columns of a table that can be decoded are well formed and have
/// one row for every record of the row section.
pub proof fn lemma_columns_agree(table: TableModel, data: Seq<u8>)
    requires
        decodable(table, data),
    ensures
        forall|i: int|
            0 <= i < table.fields.len() ==> {
                &&& (#[trigger] columns_of(table, data)[i]).wf()
                &&& columns_of(table, data)[i].rows() == crate::rows::record_count(
                    row_section(table, data),
                    table.record_byte_size,
                )
            },
{
    assert forall|i: int| 0 <= i < table.fields.len() implies {
        &&& (#[trigger] columns_of(table, data)[i]).wf()
        &&& columns_of(table, data)[i].rows() == crate::rows::record_count(
            row_section(table, data),
            table.record_byte_size,
        )
    } by {
        assert(table_column(table, data, i) is Some);
    }
}

/// What is wrong with a file that holds no zero byte.
pub const NO_TERMINATOR: &'static str = "metadata block has no terminator";

/// The position of the first zero byte, which ends the metadata block.
pub open spec fn is_metadata_end(file: Seq<u8>, end: int) -> bool {
    &&& 0 <= end < file.len()
    &&& file[end] == 0
    &&& forall|i: int| 0 <= i < end ==> file[i] != 0
}

/// Splits a file at the zero byte that ends its metadata block: the bytes
/// of the metadata text before it and the binary part behind it. Fails
/// where the file holds no zero byte.
pub fn split_metadata(file: &[u8]) -> (result: Result<(&[u8], &[u8]), QvdError>)
    ensures
        match result {
            Ok((metadata, data)) => exists|end: int|
                {
                    &&& #[trigger] is_metadata_end(file@, end)
                    &&& metadata@ == file@.subrange(0, end)
                    &&& data@ == file@.subrange(end + 1, file.len() as int)
                },
            Err(e) => {
                &&& e.kind == QvdErrorKind::Format
                &&& e.message@ == NO_TERMINATOR@
                &&& forall|i: int| 0 <= i < file.len() ==> file[i] != 0
            },
        },
{
    let mut end: usize = 0;
    while end < file.len()
        invariant
            end <= file.len(),
            forall|i: int| 0 <= i < end ==> file[i] != 0,
        decreases file.len() - end,
    {
        if file[end] == 0 {
            assert(is_metadata_end(file@, end as int));
            return Ok((slice_subrange(file, 0, end), slice_subrange(file, end + 1, file.len())));
        }
        end += 1;
    }
    Err(QvdError::format(NO_TERMINATOR))
}

} // verus!
