//! Month-to-date cloud cost polling: reporting windows on the local
//! calendar, the poll schedule, and the flattening of a grouped cost
//! response into per-service observations ready to be published as gauges.
pub mod calendar;
pub mod clock;
pub mod report;
pub mod schedule;
