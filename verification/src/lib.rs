//! Fast, lenient reading of delimited text into typed columns, with
//! machine-checked contracts.
//!
//! A buffer holds a header line and records, one to a line, with fields
//! separated by commas. The tokenizer ([`parse_record`]) cuts a record into
//! fields, the record store ([`records`]) keeps the fields of many records,
//! and the chunk splitter ([`chunks`]) cuts a buffer where records end, so
//! that its parts can be read side by side. A field becomes a typed value
//! through a decoder ([`field`], [`builtin_field_parsers`], [`structures`]),
//! a column of fields becomes a column of values ([`column`], [`merge`],
//! [`flatten`]), and a document becomes a table ([`document`], [`schema`],
//! [`tables`], [`indexed_gtfs`]).
//!
//! Every function states what it returns over a plain model of its input: a
//! buffer is a sequence of bytes, a record a sequence of fields, a document
//! its titles and its records. What is read chunk by chunk and side by side
//! is proved to be what a single pass over the buffer gives.

pub mod builtin_field_parsers;
pub mod chunks;
pub mod column;
pub mod csv_parse;
pub mod document;
pub mod error;
pub mod field;
pub mod flatten;
pub mod gtfs_io;
pub mod gtfs_sources;
pub mod gtfs_stats;
pub mod header;
pub mod indexed_gtfs;
pub mod merge;
pub mod parse_record;
pub mod records;
pub mod schema;
pub mod sections;
pub mod structures;
pub mod tables;

pub use chunks::split_csv_buffer_into_record_aligned_chunks;
pub use column::{parse_column, parse_column_value};
pub use document::CsvDocument;
pub use error::CsvError;
pub use field::ParseCsvField;
pub use flatten::flatten_slices;
pub use header::{parse_header, parse_header_record_str, CsvHeader};
pub use parse_record::{find_start_of_next_record, parse_record_fields};
pub use records::{CsvRecord, CsvRecords, CsvRecordsIter};
pub use sections::{split_header_and_data, CsvBufferSections};
pub use tables::CSVParser;
