//! A read-only structural decoder for SQLite 3 database files.
//!
//! Given a raw byte image of a database, the library decodes the on-disk
//! format into materialized values: the 100-byte database header, b-tree
//! pages with their headers, cell-pointer arrays and cells, payload records
//! with typed column values, overflow-page chains, and the freelist.
//! All multi-byte fields are big-endian; page numbers are 1-based.

use vstd::prelude::*;

pub mod btree;
pub mod bytes;
pub mod cell;
pub mod freelist;
pub mod header;
pub mod overflow;
pub mod page;
pub mod reader;
pub mod record;
pub mod text;
pub mod varint;

verus! {

/// The single error category of the decoder. Each variant names one way a
/// byte image can fail to decode; no partial results are exposed.
#[derive(Debug, Clone, PartialEq, Eq)]
pub enum ParseError {
    /// The image or a slice of it is shorter than a structure requires.
    Truncated { expected: usize, got: usize },
    /// A page number is 0 or greater than the total page count.
    PageOutOfRange { page: usize, total: usize },
    /// The byte at page offset 0 is not one of the four b-tree page types.
    UnknownPageType { value: u8 },
    /// The text-encoding field of the database header is not 1, 2 or 3.
    InvalidTextEncoding { value: u32 },
    /// The page-size field of the database header is not 1 (for 65536) and
    /// not a legal size of at least 512.
    InvalidPageSize { value: u16 },
    /// A serial-type code is negative or one of the reserved codes 10 and 11.
    InvalidSerialType { code: i64 },
    /// A varint that carries a size (a payload length or a record-header
    /// size) is negative.
    InvalidPayloadSize { value: i64 },
    /// Column bytes are not valid in the declared text encoding.
    TextDecode,
    /// A schema row is missing expected columns or its root-page column is
    /// not an integer serial type.
    SchemaMismatch,
    /// A page-number chain revisited pages instead of terminating.
    CycleDetected,
}

impl ParseError {
    /// A short human-readable description of the error kind.
    pub fn message(&self) -> String {
        match self {
            ParseError::Truncated { .. } => String::from_str(
                "truncated input: the image ends before the structure does",
            ),
            ParseError::PageOutOfRange { .. } => String::from_str(
                "page number out of range",
            ),
            ParseError::UnknownPageType { .. } => String::from_str(
                "unknown b-tree page type byte",
            ),
            ParseError::InvalidTextEncoding { .. } => String::from_str(
                "invalid text-encoding field in the database header",
            ),
            ParseError::InvalidPageSize { .. } => String::from_str(
                "invalid page-size field in the database header",
            ),
            ParseError::InvalidSerialType { .. } => String::from_str(
                "invalid serial-type code",
            ),
            ParseError::InvalidPayloadSize { .. } => String::from_str(
                "negative payload or rowid size",
            ),
            ParseError::TextDecode => String::from_str(
                "text bytes are invalid in the declared encoding",
            ),
            ParseError::SchemaMismatch => String::from_str(
                "schema row does not have the expected shape",
            ),
            ParseError::CycleDetected => String::from_str(
                "page chain does not terminate",
            ),
        }
    }
}

} // verus!
