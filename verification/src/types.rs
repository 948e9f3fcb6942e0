//! The document: the columns of a table, with row iteration and queries.
use vstd::prelude::*;
use rayon::iter::{IntoParallelRefIterator, ParallelIterator};
use crate::column::{borrowed_models, CellModel, ColumnModel};
use crate::error::{QvdError, QvdErrorKind};
use crate::qvd_structure::{QvdTableHeader, TableModel};
use crate::reader::{column_models, columns_of, decodable, read_qvd, table_fault};

pub use crate::column::{CellValue, Column, Header};

verus! {

/// What is wrong with columns that differ in their number of rows.
pub const UNEQUAL_ROWS: &'static str = "columns differ in their number of rows";

/// The mathematical content of a document: its columns, in field order.
pub struct DocumentModel {
    pub columns: Seq<ColumnModel>,
}

impl DocumentModel {
    /// Every column is well formed and all columns have the same number of
    /// rows.
    pub open spec fn wf(self) -> bool {
        &&& forall|c: int| 0 <= c < self.columns.len() ==> (#[trigger] self.columns[c]).wf()
        &&& forall|c: int|
            0 <= c < self.columns.len() ==> (#[trigger] self.columns[c]).rows()
                == self.row_count()
    }

    /// The number of rows: that of the first column, and zero where the
    /// document has no column.
    pub open spec fn row_count(self) -> nat {
        if self.columns.len() == 0 {
            0
        } else {
            self.columns[0].rows()
        }
    }

    /// The values of one row, column by column.
    pub open spec fn row(self, row: int) -> Seq<CellModel> {
        Seq::new(self.columns.len(), |c: int| self.columns[c].value_at(row))
    }

    /// All rows, in row order.
    pub open spec fn rows(self) -> Seq<Seq<CellModel>> {
        Seq::new(self.row_count(), |row: int| self.row(row))
    }

    /// The values at a requested row position, column by column; all `Null`
    /// where the document has no such row.
    pub open spec fn row_or_nulls(self, row: int) -> Seq<CellModel> {
        Seq::new(self.columns.len(), |c: int| self.columns[c].value_or_null(row))
    }

    /// The rows at the requested positions, one per request.
    pub open spec fn rows_at(self, positions: Seq<usize>) -> Seq<Seq<CellModel>> {
        Seq::new(positions.len(), |k: int| self.row_or_nulls(positions[k] as int))
    }

    /// Column `c` is the first one with the given name.
    pub open spec fn is_first_named(self, c: int, name: Seq<char>) -> bool {
        &&& 0 <= c < self.columns.len()
        &&& self.columns[c].name == name
        &&& forall|before: int| 0 <= before < c ==> (#[trigger] self.columns[before]).name != name
    }

    /// No column has the given name.
    pub open spec fn has_no_column(self, name: Seq<char>) -> bool {
        forall|c: int| 0 <= c < self.columns.len() ==> (#[trigger] self.columns[c]).name != name
    }

    /// `rows` answers the query for `value` in the column called `name`:
    /// the matching rows of the first column of that name, or nothing where
    /// there is no such column.
    pub open spec fn finds(self, name: Seq<char>, value: CellModel, rows: Seq<usize>) -> bool {
        ||| exists|c: int| #[trigger]
            self.is_first_named(c, name) && self.columns[c].selects(value, rows)
        ||| self.has_no_column(name) && rows.len() == 0
    }
}

/// A decoded table: its columns in field order. All columns have the same
/// number of rows.
#[derive(Debug)]
pub struct QvdDocument {
    columns: Vec<Column>,
}

impl View for QvdDocument {
    type V = DocumentModel;

    closed spec fn view(&self) -> DocumentModel {
        DocumentModel { columns: column_models(self.columns@) }
    }
}

/// `result` is what decoding the binary part `data` with the layout `table`
/// gives: the document of its columns, or a format error where it cannot
/// be decoded.
pub open spec fn reads_as(table: TableModel, data: Seq<u8>, result: Result<QvdDocument, QvdError>) -> bool {
    match result {
        Ok(document) => {
            &&& decodable(table, data)
            &&& document@.columns == columns_of(table, data)
            &&& document@.wf()
        },
        Err(e) => {
            &&& !decodable(table, data)
            &&& e.kind == QvdErrorKind::Format
            &&& e.message@ == table_fault(table, data)
        },
    }
}

impl QvdDocument {
    /// What holds of every document: its model is well formed.
    #[verifier::type_invariant]
    pub open spec fn inv(&self) -> bool {
        self@.wf()
    }

    proof fn lemma_view(&self)
        ensures
            self@.columns.len() == self.columns.len(),
            forall|c: int| 0 <= c < self.columns.len() ==> #[trigger] self@.columns[c] == self.columns[c]@,
    {
    }

    /// A document from its columns. Fails where two columns differ in their
    /// number of rows.
    pub fn new(columns: Vec<Column>) -> (result: Result<QvdDocument, QvdError>)
        ensures
            match result {
                Ok(document) => document@.wf() && document@.columns == column_models(columns@),
                Err(e) => {
                    &&& e.kind == QvdErrorKind::Format
                    &&& e.message@ == UNEQUAL_ROWS@
                    &&& exists|c: int|
                        0 <= c < columns.len() && (#[trigger] columns[c])@.rows() != columns[0]@.rows()
                },
            },
    {
        let mut c: usize = 0;
        while c < columns.len()
            invariant
                c <= columns.len(),
                forall|b: int| 0 <= b < c ==> (#[trigger] columns[b])@.wf(),
                forall|b: int| 0 <= b < c ==> (#[trigger] columns[b])@.rows() == columns[0]@.rows(),
            decreases columns.len() - c,
        {
            let column = &columns[c];
            proof {
                use_type_invariant(column);
            }
            if column.row_count() != columns[0].row_count() {
                return Err(QvdError::format(UNEQUAL_ROWS));
            }
            c += 1;
        }
        Ok(QvdDocument { columns })
    }

    /// Decodes the binary part of a file, which follows the terminator of
    /// the metadata block, with the layout that the metadata gives.
    ///
    /// Either the whole table is decoded or an error is returned.
    pub fn read(table: &QvdTableHeader, data: &[u8]) -> (result: Result<QvdDocument, QvdError>)
        ensures
            reads_as(table@, data@, result),
    {
        let columns = match read_qvd(table, data) {
            Ok(columns) => columns,
            Err(e) => {
                return Err(e);
            },
        };
        proof {
            crate::reader::lemma_columns_agree(table@, data@);
        }
        Ok(QvdDocument { columns })
    }

    /// The columns, in field order.
    pub fn columns(&self) -> (columns: &[Column])
        ensures
            column_models(columns@) == self@.columns,
    {
        self.columns.as_slice()
    }

    /// The number of rows.
    pub fn row_count(&self) -> (count: usize)
        ensures
            count == self@.row_count(),
    {
        proof {
            self.lemma_view();
        }
        if self.columns.len() == 0 {
            0
        } else {
            self.columns[0].row_count()
        }
    }

    /// The rows whose value in the named column is the given one, in
    /// ascending order; no rows where the document has no such column.
    pub fn find_row_indexes(&self, column_name: &str, value: &CellValue) -> (rows: Vec<usize>)
        ensures
            self@.finds(column_name@, value@, rows@),
    {
        proof {
            self.lemma_view();
        }
        let wanted: String = column_name.to_owned();
        let mut c: usize = 0;
        while c < self.columns.len()
            invariant
                c <= self.columns.len(),
                wanted@ == column_name@,
                self@.columns.len() == self.columns.len(),
                forall|b: int|
                    0 <= b < self.columns.len() ==> #[trigger] self@.columns[b]
                        == self.columns[b]@,
                forall|b: int| 0 <= b < c ==> (#[trigger] self@.columns[b]).name != column_name@,
            decreases self.columns.len() - c,
        {
            let column = &self.columns[c];
            let header = column.header();
            if header.0 == wanted {
                let rows = column.find_row_indexes(value);
                assert(self@.is_first_named(c as int, column_name@));
                return rows;
            }
            c += 1;
        }
        Vec::new()
    }
}

/// The state of an iteration over rows: the rows that it goes through and
/// the number of rows already handed out.
pub struct RowsModel {
    pub rows: Seq<Seq<CellModel>>,
    pub index: nat,
}

/// An iteration over rows, each row being the values of all columns at one
/// row position. The values are looked up when the iteration is made.
pub struct RowIter<'a> {
    values: Vec<Vec<&'a CellValue>>,
    rows_total: usize,
    index: usize,
}

impl<'a> View for RowIter<'a> {
    type V = RowsModel;

    closed spec fn view(&self) -> RowsModel {
        RowsModel {
            rows: Seq::new(
                self.rows_total as nat,
                |row: int| Seq::new(self.values.len() as nat, |c: int| self.values[c][row]@),
            ),
            index: self.index as nat,
        }
    }
}

impl<'a> RowIter<'a> {
    /// Every column holds one value per row, and the iteration has not run
    /// past the last row.
    #[verifier::type_invariant]
    pub closed spec fn inv(&self) -> bool {
        &&& self.index <= self.rows_total
        &&& forall|c: int|
            0 <= c < self.values.len() ==> (#[trigger] self.values[c]).len() == self.rows_total
    }

    /// The next row, or `None` when all rows have been handed out.
    pub fn next(&mut self) -> (row: Option<Vec<&'a CellValue>>)
        ensures
            final(self)@.rows == old(self)@.rows,
            match row {
                Some(values) => {
                    &&& old(self)@.index < old(self)@.rows.len()
                    &&& borrowed_models(values@) == old(self)@.rows[old(self)@.index as int]
                    &&& final(self)@.index == old(self)@.index + 1
                },
                None => {
                    &&& old(self)@.index >= old(self)@.rows.len()
                    &&& final(self)@.index == old(self)@.index
                },
            },
    {
        proof {
            use_type_invariant(&*self);
        }
        if self.index < self.rows_total {
            let mut row: Vec<&'a CellValue> = Vec::with_capacity(self.values.len());
            let mut c: usize = 0;
            while c < self.values.len()
                invariant
                    c <= self.values.len(),
                    self.index < self.rows_total,
                    forall|b: int|
                        0 <= b < self.values.len() ==> (#[trigger] self.values[b]).len()
                            == self.rows_total,
                    row.len() == c,
                    forall|b: int| 0 <= b < c ==> #[trigger] row[b] == self.values[b][self.index as int],
                decreases self.values.len() - c,
            {
                row.push(self.values[c][self.index]);
                c += 1;
            }
            assert(borrowed_models(row@) =~= self@.rows[self.index as int]);
            self.index += 1;
            Some(row)
        } else {
            None
        }
    }
}

/// Resolves every column on `rayon`'s worker threads: `par_iter` over the
/// columns, `map` with `Column::as_values`, and `collect` into a vector.
///
/// Not proved, but taken from `rayon`: the vector has one item per column,
/// in the order of the columns, and each item is what `Column::as_values`
/// returned for that column.
#[verifier::external_body]
fn values_in_parallel<'a>(columns: &'a [Column]) -> (values: Vec<Vec<&'a CellValue>>)
    ensures
        values.len() == columns.len(),
        forall|c: int|
            0 <= c < columns.len() ==> borrowed_models((#[trigger] values[c])@)
                == columns[c]@.values(),
{
    columns.par_iter().map(|col| col.as_values()).collect()
}

impl QvdDocument {
    /// An iteration over the values that were resolved column by column.
    fn row_iter<'a>(&'a self, values: Vec<Vec<&'a CellValue>>) -> (rows: RowIter<'a>)
        requires
            values.len() == self@.columns.len(),
            forall|c: int|
                0 <= c < values.len() ==> borrowed_models((#[trigger] values[c])@)
                    == self@.columns[c].values(),
        ensures
            rows@.rows == self@.rows(),
            rows@.index == 0,
    {
        proof {
            use_type_invariant(self);
        }
        let rows_total: usize = self.row_count();
        assert forall|c: int| 0 <= c < values.len() implies (#[trigger] values[c]).len()
            == rows_total by {
            assert(borrowed_models(values[c]@).len() == self@.columns[c].rows());
        }
        let rows = RowIter { values, rows_total, index: 0 };
        assert(rows@.rows =~~= self@.rows()) by {
            assert forall|row: int, c: int|
                0 <= row < rows_total && 0 <= c < values.len() implies values[c][row]@
                == self@.columns[c].value_at(row) by {
                assert(borrowed_models(values[c]@)[row] == self@.columns[c].values()[row]);
            }
        }
        rows
    }

    /// An iteration over all rows, from the first to the last. Every call
    /// starts a new iteration.
    pub fn rows(&self) -> (rows: RowIter<'_>)
        ensures
            rows@.rows == self@.rows(),
            rows@.index == 0,
    {
        proof {
            self.lemma_view();
        }
        let mut values: Vec<Vec<&CellValue>> = Vec::with_capacity(self.columns.len());
        let mut c: usize = 0;
        while c < self.columns.len()
            invariant
                c <= self.columns.len(),
                values.len() == c,
                forall|b: int|
                    0 <= b < c ==> borrowed_models((#[trigger] values[b])@)
                        == self.columns[b]@.values(),
            decreases self.columns.len() - c,
        {
            values.push(self.columns[c].as_values());
            c += 1;
        }
        self.row_iter(values)
    }

    /// As `rows`, with the columns resolved on worker threads.
    pub fn rows_par(&self) -> (rows: RowIter<'_>)
        ensures
            rows@.rows == self@.rows(),
            rows@.index == 0,
    {
        proof {
            self.lemma_view();
        }
        let values = values_in_parallel(self.columns.as_slice());
        self.row_iter(values)
    }

    /// An iteration over the rows at the given positions, in the order of
    /// the positions. A position behind the last row gives a row of `Null`s.
    pub fn rows_by_indexes<'a>(&'a self, row_indexes: &'a [usize]) -> (rows: RowIter<'a>)
        ensures
            rows@.rows == self@.rows_at(row_indexes@),
            rows@.index == 0,
    {
        proof {
            self.lemma_view();
        }
        let mut values: Vec<Vec<&CellValue>> = Vec::with_capacity(self.columns.len());
        let mut c: usize = 0;
        while c < self.columns.len()
            invariant
                c <= self.columns.len(),
                values.len() == c,
                forall|b: int|
                    0 <= b < c ==> borrowed_models((#[trigger] values[b])@)
                        == self.columns[b]@.values_at(row_indexes@),
            decreases self.columns.len() - c,
        {
            values.push(self.columns[c].indexes_to_values(row_indexes));
            c += 1;
        }
        let rows_total: usize = row_indexes.len();
        assert forall|c: int| 0 <= c < values.len() implies (#[trigger] values[c]).len()
            == rows_total by {
            assert(borrowed_models(values[c]@).len() == rows_total);
        }
        let rows = RowIter { values, rows_total, index: 0 };
        assert(rows@.rows =~~= self@.rows_at(row_indexes@)) by {
            assert forall|row: int, c: int|
                0 <= row < rows_total && 0 <= c < values.len() implies values[c][row]@
                == self@.columns[c].value_or_null(row_indexes[row] as int) by {
                assert(borrowed_models(values[c]@)[row] == self@.columns[c].values_at(
                    row_indexes@,
                )[row]);
            }
        }
        rows
    }
}

/// An iteration over all rows that looks the values of a row up when the
/// row is asked for.
pub struct RowIterAlt<'a> {
    columns: &'a [Column],
    index: usize,
}

impl<'a> View for RowIterAlt<'a> {
    type V = RowsModel;

    closed spec fn view(&self) -> RowsModel {
        RowsModel {
            rows: DocumentModel { columns: column_models(self.columns@) }.rows(),
            index: self.index as nat,
        }
    }
}

impl<'a> RowIterAlt<'a> {
    /// The columns form a document, and the iteration has not run past the
    /// last row.
    #[verifier::type_invariant]
    pub closed spec fn inv(&self) -> bool {
        &&& DocumentModel { columns: column_models(self.columns@) }.wf()
        &&& self.index <= DocumentModel { columns: column_models(self.columns@) }.row_count()
    }

    /// The next row, or `None` when all rows have been handed out.
    pub fn next(&mut self) -> (row: Option<Vec<&'a CellValue>>)
        ensures
            final(self)@.rows == old(self)@.rows,
            match row {
                Some(values) => {
                    &&& old(self)@.index < old(self)@.rows.len()
                    &&& borrowed_models(values@) == old(self)@.rows[old(self)@.index as int]
                    &&& final(self)@.index == old(self)@.index + 1
                },
                None => {
                    &&& old(self)@.index >= old(self)@.rows.len()
                    &&& final(self)@.index == old(self)@.index
                },
            },
    {
        proof {
            use_type_invariant(&*self);
        }
        let ghost document = DocumentModel { columns: column_models(self.columns@) };
        if self.columns.len() > 0 && self.index < self.columns[0].row_count() {
            let columns: &'a [Column] = self.columns;
            let mut row: Vec<&'a CellValue> = Vec::with_capacity(columns.len());
            let mut c: usize = 0;
            while c < columns.len()
                invariant
                    c <= columns.len(),
                    document.columns == column_models(columns@),
                    document.wf(),
                    self.index < document.row_count(),
                    row.len() == c,
                    forall|b: int|
                        0 <= b < c ==> (#[trigger] row[b])@ == document.columns[b].value_at(
                            self.index as int,
                        ),
                decreases columns.len() - c,
            {
                assert(document.columns[c as int] == columns[c as int]@);
                row.push(columns[c].value_in_row(self.index));
                c += 1;
            }
            assert(borrowed_models(row@) =~= document.row(self.index as int));
            self.index += 1;
            Some(row)
        } else {
            None
        }
    }
}

impl QvdDocument {
    /// As `rows`, with the values of a row looked up when the row is asked
    /// for.
    pub fn rows_alt(&self) -> (rows: RowIterAlt<'_>)
        ensures
            rows@.rows == self@.rows(),
            rows@.index == 0,
    {
        proof {
            use_type_invariant(self);
        }
        RowIterAlt { columns: self.columns.as_slice(), index: 0 }
    }
}

} // verus!
