//! Spreadsheets and CSV files.
pub mod csv_reader;
pub mod preview;
pub mod reader;
pub mod schema_infer;
pub mod source;
pub mod writer;
