//! A small tabular-text tokenizer: it turns a raw byte buffer into a header
//! row plus a sequence of data rows, handling quoted fields, embedded
//! separators and blank lines, and never fails on malformed input.
pub mod csv;
pub mod datefmt;
pub mod headers;
pub mod laws;
