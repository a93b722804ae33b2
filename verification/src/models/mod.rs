//! Values, errors, connections and schemas.
pub mod calendar;
pub mod value;
pub mod errors;
pub mod connection;
pub mod schema;
