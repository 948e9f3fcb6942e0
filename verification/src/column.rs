//! Cell values and columns.
use vstd::prelude::*;
use vstd::std_specs::cmp::PartialEqSpecImpl;
use vstd::std_specs::convert::FromSpecImpl;
use crate::error::QvdError;

verus! {

/// The mathematical value of a cell.
pub enum CellModel {
    Text(Seq<char>),
    Int(int),
    Float(nat),
    Null,
}

/// One value of a table: a text, a 32-bit integer, a double or nothing.
///
/// A double is held as the 64 bits of its IEEE-754 encoding, so two doubles
/// are equal exactly when their bits are.
#[derive(Debug)]
pub enum CellValue {
    Text(String),
    Int(i32),
    Float(u64),
    Null,
}

impl View for CellValue {
    type V = CellModel;

    open spec fn view(&self) -> CellModel {
        match self {
            CellValue::Text(s) => CellModel::Text(s@),
            CellValue::Int(i) => CellModel::Int(*i as int),
            CellValue::Float(bits) => CellModel::Float(*bits as nat),
            CellValue::Null => CellModel::Null,
        }
    }
}

impl Clone for CellValue {
    fn clone(&self) -> (r: CellValue)
        ensures
            r@ == self@,
    {
        match self {
            CellValue::Text(s) => CellValue::Text(s.clone()),
            CellValue::Int(i) => CellValue::Int(*i),
            CellValue::Float(bits) => CellValue::Float(*bits),
            CellValue::Null => CellValue::Null,
        }
    }
}

impl PartialEq for CellValue {
    fn eq(&self, other: &CellValue) -> (r: bool) {
        match (self, other) {
            (CellValue::Text(a), CellValue::Text(b)) => *a == *b,
            (CellValue::Int(a), CellValue::Int(b)) => *a == *b,
            (CellValue::Float(a), CellValue::Float(b)) => *a == *b,
            (CellValue::Null, CellValue::Null) => true,
            _ => false,
        }
    }
}

impl PartialEqSpecImpl for CellValue {
    open spec fn obeys_eq_spec() -> bool {
        true
    }

    open spec fn eq_spec(&self, other: &CellValue) -> bool {
        self@ == other@
    }
}

/// The name of a column.
#[derive(Debug, PartialEq, Eq, Hash, PartialOrd, Ord)]
pub struct Header(pub String);

impl View for Header {
    type V = Seq<char>;

    open spec fn view(&self) -> Seq<char> {
        self.0@
    }
}

impl Clone for Header {
    fn clone(&self) -> (r: Header)
        ensures
            r@ == self@,
    {
        Header(self.0.clone())
    }
}

/// The mathematical content of a column: its name, its dictionary and, for
/// every row, the position of the row's value in the dictionary. A negative
/// position stands for a row without a value.
pub struct ColumnModel {
    pub name: Seq<char>,
    pub symbols: Seq<CellModel>,
    pub indexes: Seq<int>,
}

impl ColumnModel {
    /// Every position that is not negative lies inside the dictionary.
    pub open spec fn wf(self) -> bool {
        forall|r: int| 0 <= r < self.indexes.len() ==> #[trigger] self.indexes[r] < self.symbols.len()
    }

    /// The number of rows.
    pub open spec fn rows(self) -> nat {
        self.indexes.len()
    }

    /// The value that a dictionary position stands for.
    pub open spec fn resolve(self, index: int) -> CellModel {
        if index < 0 {
            CellModel::Null
        } else {
            self.symbols[index]
        }
    }

    /// The value in the given row.
    pub open spec fn value_at(self, row: int) -> CellModel {
        self.resolve(self.indexes[row])
    }

    /// The values of all rows, in row order.
    pub open spec fn values(self) -> Seq<CellModel> {
        Seq::new(self.indexes.len(), |row: int| self.value_at(row))
    }

    /// The value at a requested row position: that of the row, or `Null`
    /// where the table has no such row.
    pub open spec fn value_or_null(self, row: int) -> CellModel {
        if 0 <= row < self.indexes.len() {
            self.value_at(row)
        } else {
            CellModel::Null
        }
    }

    /// The values at the requested row positions, one per request.
    pub open spec fn values_at(self, rows: Seq<usize>) -> Seq<CellModel> {
        Seq::new(rows.len(), |k: int| self.value_or_null(rows[k] as int))
    }

    /// The row refers to a dictionary entry that equals `value`.
    pub open spec fn is_match(self, row: int, value: CellModel) -> bool {
        &&& 0 <= row < self.indexes.len()
        &&& 0 <= self.indexes[row] < self.symbols.len()
        &&& self.symbols[self.indexes[row]] == value
    }

    /// `rows` lists, in ascending order and once each, exactly the rows
    /// that refer to a dictionary entry equal to `value`.
    pub open spec fn selects(self, value: CellModel, rows: Seq<usize>) -> bool {
        &&& forall|k: int| 0 <= k < rows.len() ==> self.is_match(#[trigger] rows[k] as int, value)
        &&& forall|j: int, k: int| 0 <= j < k < rows.len() ==> rows[j] < rows[k]
        &&& forall|row: int| #[trigger]
            self.is_match(row, value) ==> exists|k: int| 0 <= k < rows.len() && rows[k] == row
    }
}

/// What is wrong with a row whose position points behind the dictionary.
pub const MISSING_SYMBOL: &'static str = "row refers to a symbol that the dictionary lacks";

/// One column of a table: a dictionary of values and, per row, the position
/// of the row's value in it. A column does not change once it is made.
#[derive(Debug, PartialEq)]
pub struct Column {
    pub(crate) header: Header,
    pub(crate) symbols: Vec<CellValue>,
    pub(crate) indexes: Vec<i64>,
}

impl View for Column {
    type V = ColumnModel;

    closed spec fn view(&self) -> ColumnModel {
        ColumnModel {
            name: self.header@,
            symbols: self.symbols@.map_values(|c: CellValue| c@),
            indexes: self.indexes@.map_values(|i: i64| i as int),
        }
    }
}

/// The models of a list of borrowed values.
pub open spec fn borrowed_models(values: Seq<&CellValue>) -> Seq<CellModel> {
    values.map_values(|c: &CellValue| c@)
}

/// The models of a list of values.
pub open spec fn models(values: Seq<CellValue>) -> Seq<CellModel> {
    values.map_values(|c: CellValue| c@)
}

/// The integers of a list of positions.
pub open spec fn positions(indexes: Seq<i64>) -> Seq<int> {
    indexes.map_values(|i: i64| i as int)
}

impl Column {
    /// What holds of every column: its model is well formed.
    #[verifier::type_invariant]
    pub open spec fn inv(&self) -> bool {
        self@.wf()
    }

    proof fn lemma_view(&self)
        ensures
            self@.name == self.header@,
            self@.symbols == models(self.symbols@),
            self@.indexes == positions(self.indexes@),
            self@.symbols.len() == self.symbols.len(),
            self@.indexes.len() == self.indexes.len(),
            forall|i: int| 0 <= i < self.symbols.len() ==> #[trigger] self@.symbols[i] == self.symbols[i]@,
            forall|r: int| 0 <= r < self.indexes.len() ==> #[trigger] self@.indexes[r] == self.indexes[r],
    {
    }

    /// A column from its parts. Fails where a position points behind the
    /// end of the dictionary.
    pub fn new(header: Header, symbols: Vec<CellValue>, indexes: Vec<i64>) -> (result: Result<
        Column,
        QvdError,
    >)
        ensures
            match result {
                Ok(column) => {
                    &&& column@.wf()
                    &&& column@.name == header@
                    &&& column@.symbols == models(symbols@)
                    &&& column@.indexes == positions(indexes@)
                },
                Err(e) => {
                    &&& e.kind == crate::error::QvdErrorKind::Format
                    &&& e.message@ == MISSING_SYMBOL@
                    &&& exists|row: int|
                        0 <= row < indexes.len() && #[trigger] indexes[row] >= symbols.len()
                },
            },
    {
        let mut row: usize = 0;
        while row < indexes.len()
            invariant
                row <= indexes.len(),
                forall|r: int| 0 <= r < row ==> #[trigger] indexes[r] < symbols.len(),
            decreases indexes.len() - row,
        {
            let index: i64 = indexes[row];
            if index >= 0 && index as u64 >= symbols.len() as u64 {
                return Err(QvdError::format(MISSING_SYMBOL));
            }
            row += 1;
        }
        Ok(Column { header, symbols, indexes })
    }

    /// The name of the column.
    pub fn header(&self) -> (header: Header)
        ensures
            header@ == self@.name,
    {
        self.header.clone()
    }

    /// The number of rows.
    pub fn row_count(&self) -> (count: usize)
        ensures
            count == self@.rows(),
    {
        self.indexes.len()
    }

    /// The dictionary: the values that the rows refer to, in the order in
    /// which they were decoded.
    pub fn symbols(&self) -> (symbols: &[CellValue])
        ensures
            models(symbols@) == self@.symbols,
    {
        self.symbols.as_slice()
    }

    /// The dictionary position of every row; a negative one marks a row
    /// without a value.
    pub fn indexes(&self) -> (indexes: &[i64])
        ensures
            positions(indexes@) == self@.indexes,
    {
        self.indexes.as_slice()
    }

    /// The value that a dictionary position stands for: `Null` for a
    /// negative position, else the dictionary entry there.
    pub fn resolve(&self, index: i64) -> (value: &CellValue)
        requires
            index < self@.symbols.len(),
        ensures
            value@ == self@.resolve(index as int),
    {
        proof {
            self.lemma_view();
        }
        if index < 0 {
            &CellValue::Null
        } else {
            &self.symbols[index as usize]
        }
    }

    /// The value of a row that exists, borrowed from the dictionary.
    pub fn value_in_row(&self, row: usize) -> (value: &CellValue)
        requires
            row < self@.rows(),
        ensures
            value@ == self@.value_at(row as int),
    {
        proof {
            use_type_invariant(self);
            self.lemma_view();
        }
        let index: i64 = self.indexes[row];
        self.resolve(index)
    }

    /// The values of all rows, in row order, borrowed from the dictionary.
    pub fn as_values(&self) -> (values: Vec<&CellValue>)
        ensures
            borrowed_models(values@) == self@.values(),
    {
        let mut values: Vec<&CellValue> = Vec::with_capacity(self.indexes.len());
        let mut row: usize = 0;
        while row < self.indexes.len()
            invariant
                row <= self.indexes.len(),
                self.indexes.len() == self@.rows(),
                values.len() == row,
                forall|k: int| 0 <= k < row ==> (#[trigger] values[k])@ == self@.value_at(k),
            decreases self.indexes.len() - row,
        {
            values.push(self.value_in_row(row));
            row += 1;
        }
        assert(borrowed_models(values@) =~= self@.values());
        values
    }

    /// The values of all rows, in row order.
    pub fn into_values(self) -> (values: Vec<CellValue>)
        ensures
            models(values@) == self@.values(),
    {
        let mut values: Vec<CellValue> = Vec::with_capacity(self.indexes.len());
        let mut row: usize = 0;
        while row < self.indexes.len()
            invariant
                row <= self.indexes.len(),
                self.indexes.len() == self@.rows(),
                values.len() == row,
                forall|k: int| 0 <= k < row ==> (#[trigger] values[k])@ == self@.value_at(k),
            decreases self.indexes.len() - row,
        {
            values.push(self.value_in_row(row).clone());
            row += 1;
        }
        assert(models(values@) =~= self@.values());
        values
    }

    /// The value in the given row, or `None` where the column has no such row.
    pub fn cell_value(&self, row_index: usize) -> (value: Option<CellValue>)
        ensures
            match value {
                Some(v) => row_index < self@.rows() && v@ == self@.value_at(row_index as int),
                None => row_index >= self@.rows(),
            },
    {
        if row_index < self.indexes.len() {
            Some(self.value_in_row(row_index).clone())
        } else {
            None
        }
    }

    /// The values at the requested row positions, one per request and in the
    /// order of the requests. A position behind the last row gives `Null`.
    pub fn indexes_to_values(&self, row_indexes: &[usize]) -> (values: Vec<&CellValue>)
        ensures
            borrowed_models(values@) == self@.values_at(row_indexes@),
    {
        let mut values: Vec<&CellValue> = Vec::with_capacity(row_indexes.len());
        let mut k: usize = 0;
        while k < row_indexes.len()
            invariant
                k <= row_indexes.len(),
                self.indexes.len() == self@.rows(),
                values.len() == k,
                forall|j: int|
                    0 <= j < k ==> (#[trigger] values[j])@ == self@.value_or_null(
                        row_indexes[j] as int,
                    ),
            decreases row_indexes.len() - k,
        {
            let row: usize = row_indexes[k];
            if row < self.indexes.len() {
                values.push(self.value_in_row(row));
            } else {
                values.push(&CellValue::Null);
            }
            k += 1;
        }
        assert(borrowed_models(values@) =~= self@.values_at(row_indexes@));
        values
    }

    /// For every dictionary entry, whether it equals `value`.
    fn matching_symbols(&self, value: &CellValue) -> (matches: Vec<bool>)
        ensures
            matches.len() == self@.symbols.len(),
            forall|i: int|
                0 <= i < matches.len() ==> #[trigger] matches[i] == (self@.symbols[i] == value@),
    {
        proof {
            self.lemma_view();
        }
        let mut matches: Vec<bool> = Vec::with_capacity(self.symbols.len());
        let mut i: usize = 0;
        while i < self.symbols.len()
            invariant
                i <= self.symbols.len(),
                matches.len() == i,
                forall|j: int| 0 <= j < i ==> #[trigger] matches[j] == (self.symbols[j]@ == value@),
            decreases self.symbols.len() - i,
        {
            matches.push(self.symbols[i] == *value);
            i += 1;
        }
        matches
    }

    /// The rows whose value is the given one, in ascending order.
    ///
    /// A row matches where it refers to a dictionary entry equal to `value`;
    /// a row without a value matches nothing.
    pub fn find_row_indexes(&self, value: &CellValue) -> (rows: Vec<usize>)
        ensures
            self@.selects(value@, rows@),
    {
        let matches = self.matching_symbols(value);
        proof {
            use_type_invariant(self);
            self.lemma_view();
        }
        let mut rows: Vec<usize> = Vec::new();
        let mut row: usize = 0;
        while row < self.indexes.len()
            invariant
                row <= self.indexes.len(),
                self@.wf(),
                self@.indexes == positions(self.indexes@),
                self@.indexes.len() == self.indexes.len(),
                matches.len() == self@.symbols.len(),
                forall|i: int|
                    0 <= i < matches.len() ==> #[trigger] matches[i] == (self@.symbols[i]
                        == value@),
                forall|k: int|
                    0 <= k < rows.len() ==> (#[trigger] rows[k]) < row && self@.is_match(
                        rows[k] as int,
                        value@,
                    ),
                forall|j: int, k: int| 0 <= j < k < rows.len() ==> rows[j] < rows[k],
                forall|r: int|
                    0 <= r < row && #[trigger] self@.is_match(r, value@) ==> exists|k: int|
                        0 <= k < rows.len() && rows[k] == r,
            decreases self.indexes.len() - row,
        {
            let index: i64 = self.indexes[row];
            assert(self@.indexes[row as int] == index);
            if index >= 0 && matches[index as usize] {
                let ghost before = rows@;
                rows.push(row);
                assert forall|r: int| 0 <= r < row + 1 && #[trigger] self@.is_match(r, value@) implies exists|
                    k: int,
                | 0 <= k < rows.len() && rows[k] == r by {
                    if r < row {
                        let k = choose|k: int| 0 <= k < before.len() && before[k] == r;
                        assert(rows[k] == r);
                    } else {
                        assert(rows[rows.len() - 1] == r);
                    }
                }
            }
            row += 1;
        }
        rows
    }
}

impl From<i32> for CellValue {
    fn from(value: i32) -> (r: CellValue) {
        CellValue::Int(value)
    }
}

impl FromSpecImpl<i32> for CellValue {
    open spec fn obeys_from_spec() -> bool {
        true
    }

    open spec fn from_spec(value: i32) -> CellValue {
        CellValue::Int(value)
    }
}

impl<'a> From<&'a str> for CellValue {
    fn from(value: &'a str) -> (r: CellValue)
        ensures
            r@ == CellModel::Text(value@),
    {
        CellValue::Text(value.to_owned())
    }
}

impl<'a> FromSpecImpl<&'a str> for CellValue {
    open spec fn obeys_from_spec() -> bool {
        false
    }

    open spec fn from_spec(value: &'a str) -> CellValue {
        arbitrary()
    }
}

impl<'a> From<&'a str> for Header {
    fn from(value: &'a str) -> (r: Header)
        ensures
            r@ == value@,
    {
        Header(value.to_owned())
    }
}

impl<'a> FromSpecImpl<&'a str> for Header {
    open spec fn obeys_from_spec() -> bool {
        false
    }

    open spec fn from_spec(value: &'a str) -> Header {
        arbitrary()
    }
}

} // verus!
