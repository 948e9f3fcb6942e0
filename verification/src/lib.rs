//! Decoder for QVD files: a columnar, dictionary-encoded table format.
//!
//! Every column of a table is stored as a dictionary of typed symbols and a
//! bit-packed index per row. This crate turns the binary part of such a file
//! into a [`QvdDocument`] and offers row iteration and equality queries on it.
pub mod column;
pub mod error;
pub mod laws;
pub mod qvd_structure;
pub mod reader;
pub mod rows;
pub mod symbols;
pub mod types;

pub use types::{CellValue, Column, Header, QvdDocument};
