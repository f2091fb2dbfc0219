//! Spectra-backed self-telemetry for Chronon: label bounding and classification, the remapping
//! of Chronon's counters, gauges and events onto typed Spectra schemas, and the field extraction
//! used when a sink consumer re-dispatches raw emits. The host performs the emits this library
//! plans.

pub mod events;
pub mod install;
pub mod labels;
pub mod metrics;
pub mod sink_forward;
pub mod text;
