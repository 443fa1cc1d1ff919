//! Fan control and temperature monitoring for machines with `hwmon` chips.
//!
//! The library holds every decision the `fanctld` daemon and the `fanctlui`
//! client make. Reading and writing sysfs, sockets, the terminal and the GPU
//! driver is left to the caller: it hands the library plain values and
//! carries out the plain values it gets back.

pub mod summary;
pub mod sweep;
pub mod temps;
pub mod text;
pub mod tui;
pub mod args;
pub mod config;
pub mod ctl;
pub mod curve;
pub mod daemon;
pub mod double;
pub mod hwmon;
pub mod ipc;
pub mod json;
pub mod number;
pub mod order;
pub mod quantity;
pub mod register;
