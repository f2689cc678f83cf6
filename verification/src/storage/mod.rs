//! What a battery would have been worth: two grid sensors on a common time grid.

pub mod calendar;
pub mod cli;
pub mod pair;
pub mod series;
pub mod sweep;
