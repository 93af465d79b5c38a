//! What the operations are for: laws on the results of calls.

pub mod calibration;
pub mod chart;
pub mod keys;
pub mod log;
pub mod numbers;
pub mod provenance;
pub mod screen;
pub mod session;
pub mod stream;
pub mod text;
