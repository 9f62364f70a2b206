//! Collection, snapshot and diff engine for the diagnostic data that the nodes
//! of a distributed database cluster expose over HTTP.
//!
//! The crate holds the rules of the engine: which endpoints are visited, what
//! record a fetch leaves behind, how snapshots are numbered, and how two
//! captures are compared. Network and file access stay with the caller, which
//! hands the bytes it read to the functions here.

pub mod csvtext;
pub mod hostfilter;
pub mod json;
pub mod metrics;
pub mod options;
pub mod render;
pub mod resolver;
pub mod snapshot;
pub mod structured;
pub mod text;
pub mod timestamp;
pub mod versions;
