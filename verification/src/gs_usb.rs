//! The gs_usb protocol engine for candleLight-class USB adapters.

pub mod constants;
pub mod context;
pub mod device;
pub mod driver;
pub mod event_loop;
pub mod bit_timing;
pub mod frames;
pub mod stream;
