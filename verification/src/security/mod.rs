//! Secrets.
pub mod secrets;
