pub mod calendar;
pub mod clock;
pub mod datetime;
pub mod day;
pub mod delta;
pub mod format;
pub mod naive;
pub mod offset;
pub mod parse;
