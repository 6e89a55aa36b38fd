//! Normalization of loosely structured, comma-separated time-series text
//! into named, chronologically sorted numeric series.
//!
//! The library takes the lines of one file, interprets the first line as a
//! header naming one series per data column, interprets every further line
//! as one timestamp followed by one value per column, and accumulates the
//! values into per-series sequences that are sorted by timestamp before the
//! result is handed back.  Faulty data lines are skipped; a faulty header
//! makes the whole file contribute nothing.

pub mod entry;
pub mod errors;
pub mod file_table;
pub mod header;
pub mod laws;
pub mod number;
pub mod parser;
pub mod sort;
pub mod table;
pub mod text;
pub mod timestamp;
pub mod tokenizer;

pub use entry::Entry;
pub use errors::ParseError;
pub use file_table::FileTable;
pub use header::{extract_fallback_name, parse_header_line, resolve_names};
pub use number::parse_value;
pub use parser::{parse_file, parse_file_with_year, parse_line};
pub use table::SeriesTable;
pub use timestamp::parse_timestamp;
pub use tokenizer::next_field;
