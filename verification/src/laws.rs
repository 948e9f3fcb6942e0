//! What holds of every column and every document, proved from the models
//! that the contracts of the decoding and query functions speak of.
use vstd::prelude::*;
use crate::column::{CellModel, ColumnModel};
use crate::error::QvdError;
use crate::qvd_structure::TableModel;
use crate::types::{reads_as, DocumentModel, QvdDocument};

verus! {

/// Decoding is a function of the layout and the bytes: two results of
/// decoding the same binary part with the same layout are both documents
/// with the same columns, or both format errors with the same message.
pub proof fn lemma_decoding_is_deterministic(
    table: TableModel,
    data: Seq<u8>,
    first: Result<QvdDocument, QvdError>,
    second: Result<QvdDocument, QvdError>,
)
    requires
        reads_as(table, data, first),
        reads_as(table, data, second),
    ensures
        first is Ok <==> second is Ok,
        first is Ok ==> first->Ok_0@ == second->Ok_0@,
        first is Err ==> first->Err_0.kind == second->Err_0.kind,
        first is Err ==> first->Err_0.message@ == second->Err_0.message@,
{
}

/// In a document every column has as many values as the document has rows.
pub proof fn lemma_columns_have_one_value_per_row(document: DocumentModel, c: int)
    requires
        document.wf(),
        0 <= c < document.columns.len(),
    ensures
        document.columns[c].values().len() == document.rows().len(),
        document.rows().len() == document.row_count(),
{
}

/// Every row of a document has one value per column, and it is the value
/// that the column has in that row.
pub proof fn lemma_rows_hold_column_values(document: DocumentModel, row: int, c: int)
    requires
        document.wf(),
        0 <= row < document.row_count(),
        0 <= c < document.columns.len(),
    ensures
        document.rows()[row].len() == document.columns.len(),
        document.rows()[row][c] == document.columns[c].values()[row],
{
}

/// A negative dictionary position stands for `Null`, whatever the
/// dictionary holds, an empty one included.
pub proof fn lemma_negative_position_is_null(column: ColumnModel, index: int)
    requires
        index < 0,
    ensures
        column.resolve(index) == CellModel::Null,
{
}

/// A row whose dictionary position is negative has the value `Null`.
pub proof fn lemma_row_without_position_is_null(column: ColumnModel, row: int)
    requires
        0 <= row < column.rows(),
        column.indexes[row] < 0,
    ensures
        column.values()[row] == CellModel::Null,
        column.value_or_null(row) == CellModel::Null,
{
}

/// The answer to a query for a value other than `Null` lists exactly the
/// rows in which the column has that value.
pub proof fn lemma_query_finds_the_rows_with_the_value(
    column: ColumnModel,
    value: CellModel,
    rows: Seq<usize>,
    row: usize,
)
    requires
        column.wf(),
        value != CellModel::Null,
        column.selects(value, rows),
        row < column.rows(),
    ensures
        rows.contains(row) <==> column.values()[row as int] == value,
{
    if column.values()[row as int] == value {
        assert(column.is_match(row as int, value));
        let k = choose|k: int| 0 <= k < rows.len() && rows[k] == row as int;
        assert(rows[k] == row);
    }
    if rows.contains(row) {
        let k = choose|k: int| 0 <= k < rows.len() && rows[k] == row;
        assert(column.is_match(rows[k] as int, value));
    }
}

/// The answer to a query lists rows of the column only, in ascending order
/// and none of them twice.
pub proof fn lemma_query_answer_is_ascending(
    column: ColumnModel,
    value: CellModel,
    rows: Seq<usize>,
    j: int,
    k: int,
)
    requires
        column.selects(value, rows),
        0 <= j < k < rows.len(),
    ensures
        rows[j] < rows[k] < column.rows(),
{
    assert(column.is_match(rows[k] as int, value));
}

/// A query has one answer: two lists that both answer it are equal.
pub proof fn lemma_query_answer_is_unique(
    column: ColumnModel,
    value: CellModel,
    first: Seq<usize>,
    second: Seq<usize>,
)
    requires
        column.selects(value, first),
        column.selects(value, second),
    ensures
        first == second,
    decreases first.len() + second.len(),
{
    if first.len() == 0 && second.len() == 0 {
        assert(first =~= second);
    } else if first.len() == 0 {
        assert(column.is_match(second[0] as int, value));
        let k = choose|k: int| 0 <= k < first.len() && first[k] == second[0] as int;
        assert(false);
    } else if second.len() == 0 {
        assert(column.is_match(first[0] as int, value));
        let k = choose|k: int| 0 <= k < second.len() && second[k] == first[0] as int;
        assert(false);
    } else {
        // Both lists end with the largest matching row.
        let a = first.last();
        let b = second.last();
        assert(column.is_match(first[first.len() - 1] as int, value));
        assert(column.is_match(second[second.len() - 1] as int, value));
        let ka = choose|k: int| 0 <= k < second.len() && second[k] == a as int;
        let kb = choose|k: int| 0 <= k < first.len() && first[k] == b as int;
        assert(a == b) by {
            if ka < second.len() - 1 {
                assert(second[ka] < second[second.len() - 1]);
            }
            if kb < first.len() - 1 {
                assert(first[kb] < first[first.len() - 1]);
            }
        }
        let shorter = first_rows(column, a as int);
        lemma_selects_prefix(column, value, first);
        lemma_selects_prefix(column, value, second);
        lemma_query_answer_is_unique(shorter, value, first.drop_last(), second.drop_last());
        assert(first =~= first.drop_last().push(a));
        assert(second =~= second.drop_last().push(b));
    }
}

/// The column cut down to its first `count` rows.
pub open spec fn first_rows(column: ColumnModel, count: int) -> ColumnModel {
    ColumnModel {
        name: column.name,
        symbols: column.symbols,
        indexes: column.indexes.subrange(0, count),
    }
}

/// Without its last row, an answer answers the query on the rows before
/// that row.
proof fn lemma_selects_prefix(column: ColumnModel, value: CellModel, rows: Seq<usize>)
    requires
        column.selects(value, rows),
        rows.len() > 0,
    ensures
        rows.last() < column.rows(),
        first_rows(column, rows.last() as int).selects(value, rows.drop_last()),
{
    let last = rows.last();
    assert(column.is_match(rows[rows.len() - 1] as int, value));
    let shorter = first_rows(column, last as int);
    let front = rows.drop_last();
    assert forall|k: int| 0 <= k < front.len() implies shorter.is_match(
        #[trigger] front[k] as int,
        value,
    ) by {
        assert(column.is_match(rows[k] as int, value));
        assert(rows[k] < rows[rows.len() - 1]);
    }
    assert forall|row: int| #[trigger] shorter.is_match(row, value) implies exists|k: int|
        0 <= k < front.len() && front[k] == row by {
        assert(column.is_match(row, value));
        let k = choose|k: int| 0 <= k < rows.len() && rows[k] == row;
        assert(k < rows.len() - 1);
        assert(front[k] == row);
    }
}

/// The answer of a document to a query is the answer of the first column
/// that has the name asked for.
pub proof fn lemma_document_query_is_column_query(
    document: DocumentModel,
    name: Seq<char>,
    value: CellModel,
    rows: Seq<usize>,
    c: int,
)
    requires
        document.finds(name, value, rows),
        document.is_first_named(c, name),
    ensures
        document.columns[c].selects(value, rows),
{
    if document.has_no_column(name) {
        assert(document.columns[c].name != name);
    } else {
        let first = choose|first: int| #[trigger]
            document.is_first_named(first, name) && document.columns[first].selects(value, rows);
        if first < c {
            assert(document.columns[first].name != name);
        }
        if c < first {
            assert(document.columns[c].name != name);
        }
    }
}

} // verus!
