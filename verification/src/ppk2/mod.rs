//! The instrument: wire protocol, calibration, and the device session.

pub mod calibration;
pub mod device;
pub mod protocol;
pub mod spike;
