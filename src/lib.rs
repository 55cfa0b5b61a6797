//! Experiment registry, telemetry time stamping and ingestion, and the fixed
//! value codes used at the host boundary of a haptic teleoperation testbed.
pub mod codes;
pub mod time_source;
pub mod trials;
pub mod registry;
pub mod pipeline;
