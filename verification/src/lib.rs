//! Core of a collaborative event-timeline service: the per-room event log,
//! edition change sets, cut analysis, the edition commit transformation,
//! set-state reconstruction and history vacuum, all as verified pure logic.

pub mod change;
pub mod change_set;
pub mod commit;
pub mod commit_laws;
pub mod dump;
pub mod editions;
pub mod error;
pub mod event;
pub mod event_log;
pub mod gaps;
pub mod handler;
pub mod ids;
pub mod json;
pub mod metrics;
pub mod names;
pub mod ordering;
pub mod placement;
pub mod profiler;
pub mod profiling;
pub mod reader;
pub mod room;
pub mod rounding;
pub mod rows;
pub mod segment_laws;
pub mod segments;
pub mod serde;
pub mod squeeze;
pub mod state;
pub mod state_laws;
pub mod vacuum;
pub mod vacuum_laws;
