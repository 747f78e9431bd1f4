//! A spreadsheet formula micro-engine.
//!
//! Given a cell formula string such as `=SUM(ColumnA)` and a column of raw
//! text cell values, this library parses the formula into a function name and
//! argument, and prepares one of five aggregate computations (SUM, AVG, MIN,
//! MAX, COUNT) over the column, tolerating missing, blank and non-numeric
//! entries.

pub mod engine;
pub mod numeric;
pub mod parser;
pub mod text;
