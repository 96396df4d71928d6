//! Cloud-side aggregation core for a fleet of remote thermal-inspection
//! robots: an in-memory shared state store (live status, configuration,
//! bounded alert history) and the capture ingest / thermal-matrix analysis
//! pipeline that turns an uploaded numeric-array file into an alert record
//! and queryable heat-map data.

pub mod alerts;
pub mod codec;
pub mod fbits;
pub mod naming;
pub mod pipeline;
pub mod state;
