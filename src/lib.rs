//! Correlation of log events with the root span of the request they belong to,
//! and framing of each event as one JSON line.

pub mod correlation;
pub mod external;
pub mod lemmas;
pub mod record;
pub mod registry;
pub mod remote;
