//! What is written as script text reads back as what it was written from.
pub mod values;
pub mod expressions;
pub mod conditions;
pub mod laws;
pub mod lines;
pub mod scripts;
