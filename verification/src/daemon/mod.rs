//! The `fanctld` daemon: the control engine (reads sensors, drives the fan
//! PWMs, keeps the current state), the calibration sweep, and the answers the
//! server gives to `fanctlui` clients.

pub mod calibration;
pub mod engine;
pub mod laws;
pub mod readings;
pub mod server;
