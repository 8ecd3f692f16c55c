//! How the results of the USB stack are told apart.

use vstd::prelude::*;
use crate::error::DriverError;

verus! {

pub const LIBUSB_ERROR_NO_DEVICE: i32 = -4;
pub const LIBUSB_ERROR_NOT_FOUND: i32 = -5;
pub const LIBUSB_ERROR_TIMEOUT: i32 = -7;
pub const LIBUSB_ERROR_PIPE: i32 = -9;
pub const LIBUSB_ERROR_INTERRUPTED: i32 = -10;

pub const LIBUSB_TRANSFER_TIMED_OUT: i32 = 2;
pub const LIBUSB_TRANSFER_CANCELLED: i32 = 3;
pub const LIBUSB_TRANSFER_STALL: i32 = 4;
pub const LIBUSB_TRANSFER_NO_DEVICE: i32 = 5;

/// The kind of failure that an error code of the USB stack stands for.
pub open spec fn spec_map_libusb_error(code: i32) -> DriverError {
    if code == LIBUSB_ERROR_TIMEOUT {
        DriverError::Timeout
    } else if code == LIBUSB_ERROR_PIPE {
        DriverError::Stall
    } else if code == LIBUSB_ERROR_NO_DEVICE {
        DriverError::DeviceAbsent
    } else if code == LIBUSB_ERROR_NOT_FOUND {
        DriverError::NotFound
    } else if code == LIBUSB_ERROR_INTERRUPTED {
        DriverError::Interrupted
    } else {
        DriverError::Fatal
    }
}

/// Tells the error codes of the USB stack apart.
pub fn map_libusb_error(code: i32) -> (e: DriverError)
    ensures
        e == spec_map_libusb_error(code),
{
    if code == LIBUSB_ERROR_TIMEOUT {
        DriverError::Timeout
    } else if code == LIBUSB_ERROR_PIPE {
        DriverError::Stall
    } else if code == LIBUSB_ERROR_NO_DEVICE {
        DriverError::DeviceAbsent
    } else if code == LIBUSB_ERROR_NOT_FOUND {
        DriverError::NotFound
    } else if code == LIBUSB_ERROR_INTERRUPTED {
        DriverError::Interrupted
    } else {
        DriverError::Fatal
    }
}

/// The kind of failure that the status of an ended transfer stands for.
pub open spec fn spec_map_transfer_status(status: i32) -> DriverError {
    if status == LIBUSB_TRANSFER_TIMED_OUT {
        DriverError::Timeout
    } else if status == LIBUSB_TRANSFER_STALL {
        DriverError::Stall
    } else if status == LIBUSB_TRANSFER_NO_DEVICE {
        DriverError::DeviceAbsent
    } else if status == LIBUSB_TRANSFER_CANCELLED {
        DriverError::Interrupted
    } else {
        DriverError::Fatal
    }
}

/// Tells the statuses of ended transfers apart.
pub fn map_transfer_status(status: i32) -> (e: DriverError)
    ensures
        e == spec_map_transfer_status(status),
{
    if status == LIBUSB_TRANSFER_TIMED_OUT {
        DriverError::Timeout
    } else if status == LIBUSB_TRANSFER_STALL {
        DriverError::Stall
    } else if status == LIBUSB_TRANSFER_NO_DEVICE {
        DriverError::DeviceAbsent
    } else if status == LIBUSB_TRANSFER_CANCELLED {
        DriverError::Interrupted
    } else {
        DriverError::Fatal
    }
}

} // verus!
