//! Adapter-side engine of a CAN bus bridge: the gs_usb wire protocol, the
//! SLCAN line protocol, and the framing rules of the local server bridge.
//!
//! Every function in this crate is a pure computation on plain values with a
//! machine-checked contract; device and pipe I/O live with the caller.

pub mod bridge;
pub mod bytes;
pub mod can;
pub mod cli;
pub mod error;
pub mod gs_usb;
pub mod hex;
pub mod slcan;
