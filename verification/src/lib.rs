//! The verified core of an ETL workbench: a small job script language, its
//! planner and row evaluator, cell values and their conversions, file and
//! database source rules, and the decisions that drive a run.
pub mod db;
pub mod double;
pub mod etl;
pub mod excel;
pub mod models;
pub mod paths;
pub mod security;
pub mod text;

use vstd::prelude::*;

verus! {

} // verus!
