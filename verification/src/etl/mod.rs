//! Jobs: the script language and the field-mapping executor.
pub mod batches;
pub mod executor;
pub mod mapping;
pub mod resume;
pub mod resumption;
pub mod script;
pub mod source_input;
pub mod transform;
