//! Discovery of Bluetooth Low Energy heart rate sensors: decoding of what they
//! advertise and send, the course of a scan, the life cycle of a connection,
//! and the store that hands the latest readings to a display.
//!
//! The library decides and computes; it performs no I/O. A scan and a session
//! are state machines that return commands for their driver to carry out.

pub mod bluetoothctl;
pub mod device;
pub mod manager;
pub mod measurement;
pub mod scan;
pub mod session;
pub mod state;
