//! SQL text for the databases that rows are read from and written to.
pub mod db2;
pub mod dialect;
pub mod wire;
