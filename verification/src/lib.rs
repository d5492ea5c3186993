//! Conversion of timed events ("beats") into formatted timestamp listings.
//!
//! The library parses tab-separated records, derives a millisecond count
//! from each record's start time, validates that the count lies within a
//! single day, and renders it as a fixed-width `HH:MM:SS.mmm` timestamp
//! paired with the record's ordinal index.

pub mod digits;
pub mod pipeline;
pub mod reader;
pub mod timestamp;
