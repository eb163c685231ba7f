//! Signal, device and session logic of a terminal spectrum monitor.
//!
//! Everything here works on plain values: frequencies are whole hertz, levels
//! are whole micro-decibels, instants are milliseconds on a monotonic clock.
//! Sockets, serial ports, terminals and floating-point transforms live in the
//! application around this library.

pub mod event;
pub mod export;
pub mod hardware;
pub mod input;
pub mod level;
pub mod session;
pub mod signal;
pub mod sort;
pub mod state;
pub mod tasks;
pub mod text;
pub mod ui;
pub mod units;
