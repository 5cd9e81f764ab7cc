//! Temperature sensor interface: a registry of sensors built from
//! configuration rows, the parsing of hardware sensor text with a bounded
//! retry, per-sensor snapshots that keep failures as entries, and the
//! rendering of the append-only log that a background task writes.
pub mod common;
pub mod text;
pub mod sensor;
pub mod registry;
pub mod logging;
