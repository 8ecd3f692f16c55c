//! Numbers fixed by the gs_usb protocol.

use vstd::prelude::*;

verus! {

/// Bytes in the header of every host frame.
pub const GS_HEADER_LEN: usize = 12;

/// Bytes in the optional receive timestamp.
pub const GS_TS_LEN: usize = 4;

/// Largest payload of a host frame.
pub const GS_MAX_DATA: usize = 64;

/// Largest host frame: header, payload and timestamp.
pub const GS_MAX_FRAME_LEN: usize = 80;

/// Length of a transmit frame in the layout with a 64-byte data area.
pub const GS_TX_FRAME_SIZE: usize = 76;

/// Length of a transmit frame in the classic layout.
pub const GS_CAN_FRAME_LEN: usize = 20;

/// Echo id of a frame that came from the bus and not from this host.
pub const GS_CAN_ECHO_ID_UNUSED: u32 = 0xFFFF_FFFF;

pub const GS_USB_BREQ_HOST_FORMAT: u8 = 0x00;
pub const GS_USB_BREQ_BITTIMING: u8 = 0x01;
pub const GS_USB_BREQ_MODE: u8 = 0x02;
pub const GS_USB_BREQ_BERR: u8 = 0x03;
pub const GS_USB_BREQ_BT_CONST: u8 = 0x04;
pub const GS_USB_BREQ_DEVICE_CONFIG: u8 = 0x05;
pub const GS_USB_BREQ_TIMESTAMP: u8 = 0x06;
pub const GS_USB_BREQ_BT_CONST_EXT: u8 = 0x0B;

pub const GS_CAN_MODE_RESET: u32 = 0;
pub const GS_CAN_MODE_START: u32 = 1;

pub const GS_CAN_MODE_LISTEN_ONLY: u32 = 0x0001;
pub const GS_CAN_MODE_HW_TIMESTAMP: u32 = 0x0010;
pub const GS_CAN_MODE_PAD_PKTS_TO_MAX_PKT_SIZE: u32 = 0x0080;

pub const GS_CAN_FEATURE_HW_TIMESTAMP: u32 = 0x0010;
pub const GS_CAN_FEATURE_PAD_PKTS_TO_MAX_PKT_SIZE: u32 = 0x0080;
pub const GS_CAN_FEATURE_FD: u32 = 0x0100;

/// Extended frame format flag of a wire identifier.
pub const CAN_EFF_FLAG: u32 = 0x8000_0000;

/// Remote transmission request flag of a wire identifier.
pub const CAN_RTR_FLAG: u32 = 0x4000_0000;

/// Error frame flag of a wire identifier.
pub const CAN_ERR_FLAG: u32 = 0x2000_0000;

/// Identifier bits of an error frame.
pub const CAN_ERR_MASK: u32 = 0x1FFF_FFFF;

/// USB vendor id of gs_usb adapters.
pub const GS_USB_VENDOR_ID: u16 = 0x1D50;

/// USB product id of gs_usb adapters.
pub const GS_USB_PRODUCT_ID: u16 = 0x606F;

/// Interface class of the vendor-specific interface.
pub const GS_USB_INTERFACE_CLASS: u8 = 0xFF;

/// bmRequestType of a vendor request to an interface, host to device.
pub fn request_type_out() -> (r: u8)
    ensures
        r == 0x41,
{
    0x41
}

/// bmRequestType of a vendor request to an interface, device to host.
pub fn request_type_in() -> (r: u8)
    ensures
        r == 0xC1,
{
    0xC1
}

/// Milliseconds to hand to the USB stack for a wait of the given length:
/// zero stays zero (no limit), anything shorter than a millisecond becomes
/// one, and anything longer than `u32::MAX` milliseconds is cut to that.
pub fn duration_to_timeout(secs: u64, subsec_nanos: u32) -> (r: u32)
    requires
        subsec_nanos < 1_000_000_000,
    ensures
        r as int == spec_timeout_millis(secs, subsec_nanos),
{
    if secs == 0 && subsec_nanos == 0 {
        return 0;
    }
    let millis: u128 = (secs as u128) * 1000 + ((subsec_nanos / 1_000_000) as u128);
    if millis == 0 {
        1
    } else if millis > 0xFFFF_FFFF {
        0xFFFF_FFFF
    } else {
        millis as u32
    }
}

/// The timeout in milliseconds for a wait of `secs` seconds and
/// `subsec_nanos` nanoseconds.
pub open spec fn spec_timeout_millis(secs: u64, subsec_nanos: u32) -> int {
    let millis = secs as int * 1000 + subsec_nanos as int / 1_000_000;
    if secs == 0 && subsec_nanos == 0 {
        0
    } else if millis == 0 {
        1
    } else if millis > 0xFFFF_FFFF {
        0xFFFF_FFFF
    } else {
        millis
    }
}

} // verus!
