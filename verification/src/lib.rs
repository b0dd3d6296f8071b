//! Office attendance tracking: records of where each working day was spent,
//! the rules that decide which records may be logged, and monthly summaries.

pub mod cli;
pub mod date;
pub mod error;
pub mod handler;
pub mod model;
pub mod printer;
pub mod repository;
pub mod sorting;
pub mod text;
pub mod time;
