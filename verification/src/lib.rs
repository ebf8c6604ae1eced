//! Service-calendar evaluation and stop-time adjustment for a transit
//! departure/arrival board.
//!
//! The crate answers, for a stop and a reference moment, which scheduled
//! stop-events are still to come and in what order they should be shown.
//! It models calendar dates as day numbers in the proleptic Gregorian
//! calendar, evaluates a service's weekly pattern together with its
//! date-specific exceptions, shifts stop-time offsets (which may exceed
//! 24 hours) onto their service-day, and filters and sorts the events of
//! a board query.

pub mod board;
pub mod dates;
pub mod index;
pub mod parse;
pub mod queries;
pub mod service;
