//! The job script language.
pub mod ast;
pub mod clauses;
pub mod lexer;
pub mod scope;
pub mod alias;
pub mod grammar;
pub mod jobs;
pub mod parser;
pub mod job_parser;
pub mod gen;
pub mod keys;
pub mod eval;
pub mod bind;
pub mod plan;
pub mod lookup;
pub mod rows;
pub mod prepare;
pub mod run;
pub mod resolve;
pub mod check;
pub mod model;
pub mod readback;
