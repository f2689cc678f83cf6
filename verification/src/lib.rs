//! What a home solar array can be counted on for, from the history that a Home Assistant
//! recorder database holds.
//!
//! Readings become time-weighted [`model::Sample`]s. [`aggregate`] folds them into a
//! [`grid::Grid`] of observation time per month or week, hour of day and power, and
//! [`analysis`] turns that into probabilities. [`storage`] puts two sensors onto one timeline
//! that a battery can be tried out on. [`coverage`] says what the history really covers, and
//! [`render`] writes it all down as a page that needs nothing but a browser.
//!
//! Everything here computes on integers and text: seconds, bucket numbers and ranks. Where a
//! report shows a measured number, it comes in as the text it is to be shown as.

pub mod aggregate;
pub mod analysis;
pub mod cli;
pub mod coverage;
pub mod grid;
pub mod model;
pub mod occurrence;
pub mod order;
pub mod render;
pub mod report;
pub mod source;
pub mod storage;
pub mod sums;
pub mod text;
pub mod timeutil;
