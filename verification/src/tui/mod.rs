//! The `fanctlui` terminal client: what it holds, what its keys do, and what
//! it shows. The caller owns the terminal and the socket.

pub mod app;
pub mod editor;
pub mod laws;
pub mod ui;
