//! The wire forms of time bounds: a room's time as a pair of Unix seconds,
//! and segments as a list of pairs of milliseconds.

pub mod milliseconds_bound_tuples;
pub mod ts_seconds_bound_tuple;
