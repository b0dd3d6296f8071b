//! What each command of the attendance log decides.

pub mod day;
pub mod log;
pub mod records;
pub mod show;
pub mod summary;
