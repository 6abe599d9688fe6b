//! Reconstruction of a per-day time-tracking history from a persisted
//! markup document: a `Day` record model, numeric and date parsing, and a
//! stack-driven state machine that aggregates a stream of markup events
//! into an ordered day collection with one designated "today" entry.

pub mod day;
pub mod events;
pub mod laws;
pub mod loader;
pub mod statistics;
pub mod text;
