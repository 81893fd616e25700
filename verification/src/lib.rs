//! Reads the reports of a graphics benchmark, compares the scenes of a run
//! with those of a baseline, and lays out what is shown of them: a report in
//! text and a grouped bar chart.
//!
//! Every function states what it returns over the mathematical values of its
//! arguments, and is verified against that statement.

pub mod board;
pub mod chart;
pub mod comment;
pub mod ctx;
pub mod error;
pub mod job;
pub mod number;
pub mod parser;
pub mod result;
pub mod scene;
pub mod text;
