//! Dates written as `YYYY-MM-DD` text: reading them, checking them against
//! the calendar, writing them after a format, and adding and subtracting
//! them.
//!
//! This is no full calendar. February has twenty-nine days in every year,
//! and arithmetic counts thirty days to the month and twelve months to the
//! year.

pub mod date;
pub mod errors;
pub mod format;
pub mod impls;
pub mod scalars;
pub mod text;

pub use date::DateStr;
pub use format::DateFormat;
pub use scalars::{Day, Month, Year};
