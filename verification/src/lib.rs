//! Leading-digit tallies for checking a data set against Benford's law.
//!
//! The library counts, line by line, how often each digit from 1 to 9 stands
//! first, and holds the critical values of the three significance levels. All
//! of it is integer work; shares and distance scores are formed from the
//! counts by the caller.
use vstd::prelude::*;

pub mod digit_count;
pub mod lines;
pub mod significance;

pub use digit_count::DigitCount;
pub use lines::get_counts;
pub use significance::SignificanceLevel;
