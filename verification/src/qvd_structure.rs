//! The table and field descriptors that the metadata block of a file holds.
use vstd::prelude::*;

verus! {

/// Where one field's data lies in the binary part of a file.
#[derive(Debug)]
pub struct QvdFieldHeader {
    /// The name of the field, unique within its table.
    pub field_name: String,
    /// The first byte of the field's symbol segment within the symbol section.
    pub offset: usize,
    /// The length of the symbol segment in bytes.
    pub length: usize,
    /// The distance in bits of the field's index from the low end of a record.
    pub bit_offset: usize,
    /// The width in bits of the field's index within a record.
    pub bit_width: usize,
    /// What is added to the stored number to give the dictionary position.
    pub bias: i64,
}

/// The mathematical content of a field descriptor.
pub struct FieldModel {
    pub name: Seq<char>,
    pub offset: nat,
    pub length: nat,
    pub bit_offset: nat,
    pub bit_width: nat,
    pub bias: int,
}

impl View for QvdFieldHeader {
    type V = FieldModel;

    open spec fn view(&self) -> FieldModel {
        FieldModel {
            name: self.field_name@,
            offset: self.offset as nat,
            length: self.length as nat,
            bit_offset: self.bit_offset as nat,
            bit_width: self.bit_width as nat,
            bias: self.bias as int,
        }
    }
}

/// The fields of a table, in the order of its columns.
#[derive(Debug)]
pub struct QvdFieldHeaders {
    pub headers: Vec<QvdFieldHeader>,
}

/// The layout of the binary part of a file.
#[derive(Debug)]
pub struct QvdTableHeader {
    /// The length of the symbol section, which is where the row section starts.
    pub offset: usize,
    /// The size in bytes of each record of the row section.
    pub record_byte_size: usize,
    /// The fields of the table.
    pub fields: QvdFieldHeaders,
}

/// The mathematical content of a table descriptor.
pub struct TableModel {
    pub offset: nat,
    pub record_byte_size: nat,
    pub fields: Seq<FieldModel>,
}

impl View for QvdTableHeader {
    type V = TableModel;

    open spec fn view(&self) -> TableModel {
        TableModel {
            offset: self.offset as nat,
            record_byte_size: self.record_byte_size as nat,
            fields: self.fields.headers@.map_values(|f: QvdFieldHeader| f@),
        }
    }
}

} // verus!
