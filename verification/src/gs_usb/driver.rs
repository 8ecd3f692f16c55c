//! The driver that callers talk to, as a state machine: the handshake, the
//! requests that program and open the channel, and the packets that send
//! frames. It decides what to transfer; the transfers themselves are the
//! caller's.

use vstd::prelude::*;
use crate::bytes::copy_range;
use crate::bytes::push_le32;
use crate::bytes::push_zeros;
use crate::bytes::read_le32;
use crate::bytes::spec_le32_at;
use crate::bytes::spec_le32_bytes;
use crate::can::CanFrame;
use crate::can::FrameView;
use crate::error::DriverError;
use super::bit_timing::calc_bit_timing;
use super::bit_timing::encode_mode;
use super::bit_timing::parse_bt_const;
use super::bit_timing::spec_acceptable;
use super::bit_timing::spec_encode_mode;
use super::bit_timing::spec_parse_bt_const;
use super::bit_timing::GsBtConst;
use super::constants::GS_CAN_FEATURE_FD;
use super::constants::GS_CAN_FEATURE_PAD_PKTS_TO_MAX_PKT_SIZE;
use super::constants::GS_CAN_MODE_HW_TIMESTAMP;
use super::constants::GS_CAN_MODE_LISTEN_ONLY;
use super::constants::GS_CAN_MODE_PAD_PKTS_TO_MAX_PKT_SIZE;
use super::constants::GS_CAN_MODE_RESET;
use super::constants::GS_CAN_MODE_START;
use super::constants::GS_USB_BREQ_BITTIMING;
use super::constants::GS_USB_BREQ_BT_CONST;
use super::constants::GS_USB_BREQ_BT_CONST_EXT;
use super::constants::GS_USB_BREQ_DEVICE_CONFIG;
use super::constants::GS_USB_BREQ_HOST_FORMAT;
use super::constants::GS_USB_BREQ_MODE;
use super::constants::GS_USB_BREQ_TIMESTAMP;
use super::device::InterfaceInfo;
use super::frames::align_up;
use super::frames::spec_align_up;
use super::frames::spec_parse_host_frame;
use super::frames::lemma_wire_len_bounds;
use super::frames::RxStep;

verus! {

/// A vendor control transfer from host to device.
#[derive(Debug, PartialEq, Eq)]
pub struct ControlOut {
    pub request_type: u8,
    pub request: u8,
    pub value: u16,
    pub index: u16,
    pub data: Vec<u8>,
}

/// A vendor control transfer from device to host, reading up to `len`
/// bytes.
#[derive(Debug, Clone, Copy, PartialEq, Eq, Structural)]
pub struct ControlIn {
    pub request_type: u8,
    pub request: u8,
    pub value: u16,
    pub index: u16,
    pub len: usize,
}

/// What the driver asks of the event loop.
#[derive(Debug, PartialEq, Eq)]
pub enum UsbCommand {
    ControlOut(ControlOut),
    ControlIn(ControlIn),
    BulkWrite { endpoint: u8, data: Vec<u8> },
    Shutdown,
    UpdateConfig { out_wmax: usize, pad_pkts_enabled: bool },
}

/// Whether `c` is the vendor request `request` to `value` and `index`
/// carrying `data`.
pub open spec fn spec_is_control_out(c: ControlOut, request: u8, value: u16, index: u16, data: Seq<u8>) -> bool {
    &&& c.request_type == 0x41
    &&& c.request == request
    &&& c.value == value
    &&& c.index == index
    &&& c.data@ == data
}

/// Whether a single power-of-two flag is set in a word.
pub open spec fn spec_has_flag(word: u32, flag: u32) -> bool
    recommends
        flag > 0,
{
    (word / flag) % 2 == 1
}

/// Tests a single power-of-two flag.
pub fn has_flag(word: u32, flag: u32) -> (r: bool)
    requires
        flag > 0,
    ensures
        r == spec_has_flag(word, flag),
{
    (word / flag) % 2 == 1
}

/// A mode request for a channel of an interface.
pub fn mode_request(channel_index: u8, interface: u8, mode: u32, flags: u32) -> (c: ControlOut)
    ensures
        spec_is_control_out(
            c,
            GS_USB_BREQ_MODE,
            channel_index as u16,
            interface as u16,
            spec_encode_mode(mode, flags),
        ),
{
    ControlOut {
        request_type: 0x41,
        request: GS_USB_BREQ_MODE,
        value: channel_index as u16,
        index: interface as u16,
        data: encode_mode(mode, flags),
    }
}

/// The identifier field of a transmit header: the identifier cut to the
/// width of its format, with the format, remote and error flags on top.
pub open spec fn spec_wire_id(f: FrameView) -> u32 {
    let id = if f.extended { f.id as int % 0x2000_0000 } else { f.id as int % 0x800 };
    (id + (if f.extended { 0x8000_0000int } else { 0 }) + (if f.rtr { 0x4000_0000int } else { 0 }) + (if f.error {
        0x2000_0000int
    } else {
        0
    })) as u32
}

/// A transmit frame with a data area of `area` bytes: the header (echo id,
/// identifier field, length code, channel, two zero bytes), then the
/// payload as far as the area holds it, then zeros up to the end of the
/// area.
pub open spec fn spec_encode_tx(f: FrameView, echo_id: u32, channel_index: u8, area: nat) -> Seq<u8> {
    let n = if f.data.len() <= area { f.data.len() } else { area };
    spec_le32_bytes(echo_id) + spec_le32_bytes(spec_wire_id(f)) + seq![f.dlc, channel_index, 0u8, 0u8]
        + f.data.subrange(0, n as int) + Seq::new((area - n) as nat, |i: int| 0u8)
}

/// A packet filled with zeros up to a multiple of the packet size, where
/// padding is on and the size is known.
pub open spec fn spec_pad_tx(buf: Seq<u8>, pad: bool, out_wmax: u16) -> Seq<u8> {
    if pad && out_wmax > 0 {
        buf + Seq::new((spec_align_up(buf.len(), out_wmax as nat) - buf.len()) as nat, |i: int| 0u8)
    } else {
        buf
    }
}

fn encode_tx(frame: &CanFrame, echo_id: u32, channel_index: u8, area: usize) -> (buf: Vec<u8>)
    requires
        area <= 64,
    ensures
        buf@ == spec_encode_tx(frame@, echo_id, channel_index, area as nat),
        buf@.len() == 12 + area,
{
    let mut buf: Vec<u8> = Vec::new();
    push_le32(&mut buf, echo_id);
    let id: u32 = if frame.is_extended() { frame.id() % 0x2000_0000 } else { frame.id() % 0x800 };
    let mut can_id: u32 = id;
    if frame.is_extended() {
        can_id = can_id + 0x8000_0000;
    }
    if frame.is_rtr() {
        can_id = can_id + 0x4000_0000;
    }
    if frame.is_error() {
        can_id = can_id + 0x2000_0000;
    }
    push_le32(&mut buf, can_id);
    buf.push(frame.dlc());
    buf.push(channel_index);
    buf.push(0u8);
    buf.push(0u8);
    let data = frame.data();
    let n: usize = if data.len() <= area { data.len() } else { area };
    let ghost head = buf@;
    let mut i: usize = 0;
    while i < n
        invariant
            i <= n <= data@.len(),
            buf@ == head + data@.subrange(0, i as int),
        decreases n - i,
    {
        buf.push(data[i]);
        i += 1;
        assert(buf@ =~= head + data@.subrange(0, i as int));
    }
    push_zeros(&mut buf, area - n);
    assert(buf@ =~= spec_encode_tx(frame@, echo_id, channel_index, area as nat));
    buf
}

/// What came of a bulk write.
#[derive(Debug, Clone, Copy, PartialEq, Eq, Structural)]
pub enum WriteOutcome {
    /// The transfer ended after this many bytes.
    Written(usize),
    /// The transfer failed.
    Failed(DriverError),
}

/// What to do after the first write of a frame.
#[derive(Debug, PartialEq, Eq)]
pub enum TxStep {
    /// The frame is sent.
    Done,
    /// Write these bytes instead, once.
    Retry(Vec<u8>),
    /// Give up with this error.
    Failed(DriverError),
}

/// What the driver holds, as mathematical values.
pub struct DriverState {
    pub info: InterfaceInfo,
    pub channel_index: u8,
    pub device_label: Seq<u8>,
    pub configured_bitrate: Option<u32>,
    pub timestamp_enabled: bool,
    pub tx_counter: u32,
    pub features: u32,
    pub pad_pkts: bool,
    pub bt_const: Option<GsBtConst>,
    /// Whether the channel was opened and not closed since.
    pub channel_open: bool,
}

/// The caller's side of a gs_usb adapter: what was negotiated, and what to
/// transfer for each operation.
#[derive(Debug)]
pub struct GsUsbDriver {
    info: InterfaceInfo,
    channel_index: u8,
    device_label: Vec<u8>,
    configured_bitrate: Option<u32>,
    timestamp_enabled: bool,
    tx_counter: u32,
    features: u32,
    pad_pkts: bool,
    bt_const: Option<GsBtConst>,
    channel_open: bool,
}

impl View for GsUsbDriver {
    type V = DriverState;

    closed spec fn view(&self) -> DriverState {
        DriverState {
            info: self.info,
            channel_index: self.channel_index,
            device_label: self.device_label@,
            configured_bitrate: self.configured_bitrate,
            timestamp_enabled: self.timestamp_enabled,
            tx_counter: self.tx_counter,
            features: self.features,
            pad_pkts: self.pad_pkts,
            bt_const: self.bt_const,
            channel_open: self.channel_open,
        }
    }
}

/// The mode flags for a start: hardware timestamps where they were asked
/// for, padding where the adapter offers it and it is still on, and listen
/// only where wanted.
pub open spec fn spec_start_flags(state: DriverState, listen_only: bool) -> u32 {
    ((if state.timestamp_enabled { GS_CAN_MODE_HW_TIMESTAMP as int } else { 0 }) + (if state.pad_pkts {
        GS_CAN_MODE_PAD_PKTS_TO_MAX_PKT_SIZE as int
    } else {
        0
    }) + (if listen_only { GS_CAN_MODE_LISTEN_ONLY as int } else { 0 })) as u32
}

/// Whether `r` is the plan for opening the channel: refused with
/// `InvalidInput` before a bitrate was programmed, and otherwise a reset
/// followed by a start with the negotiated flags.
pub open spec fn spec_open_planned(
    state: DriverState,
    listen_only: bool,
    r: Result<(ControlOut, ControlOut), DriverError>,
) -> bool {
    match r {
        Ok(pair) => {
            &&& state.configured_bitrate is Some
            &&& spec_is_control_out(
                pair.0,
                GS_USB_BREQ_MODE,
                state.channel_index as u16,
                state.info.interface as u16,
                spec_encode_mode(GS_CAN_MODE_RESET, 0),
            )
            &&& spec_is_control_out(
                pair.1,
                GS_USB_BREQ_MODE,
                state.channel_index as u16,
                state.info.interface as u16,
                spec_encode_mode(GS_CAN_MODE_START, spec_start_flags(state, listen_only)),
            )
        },
        Err(e) => state.configured_bitrate is None && e == DriverError::InvalidInput,
    }
}

/// The driver with its channel closed.
pub open spec fn spec_closed(state: DriverState) -> DriverState {
    DriverState { channel_open: false, ..state }
}

/// Closing is idempotent: a closed driver is what closing makes of it.
pub proof fn lemma_close_is_idempotent(state: DriverState)
    ensures
        !spec_closed(state).channel_open,
        spec_closed(spec_closed(state)) == spec_closed(state),
{
}

/// Bytes of the data area of a transmit frame: 64 where the adapter does
/// CAN FD, 8 otherwise.
pub open spec fn spec_tx_area(features: u32) -> nat {
    if spec_has_flag(features, GS_CAN_FEATURE_FD) {
        64
    } else {
        8
    }
}

/// The echo id after this one.
pub open spec fn spec_next_counter(counter: u32) -> u32 {
    if counter == 0xFFFF_FFFF {
        0
    } else {
        (counter + 1) as u32
    }
}

impl GsUsbDriver {
    /// The driver for an interface that was just claimed: channel 0, nothing
    /// negotiated, no bitrate, padding off.
    pub fn open(info: InterfaceInfo, device_label: Vec<u8>) -> (d: GsUsbDriver)
        ensures
            d@ == (DriverState {
                info,
                channel_index: 0,
                device_label: device_label@,
                configured_bitrate: None,
                timestamp_enabled: false,
                tx_counter: 0,
                features: 0,
                pad_pkts: false,
                bt_const: None,
                channel_open: false,
            }),
    {
        GsUsbDriver {
            info,
            channel_index: 0,
            device_label,
            configured_bitrate: None,
            timestamp_enabled: false,
            tx_counter: 0,
            features: 0,
            pad_pkts: false,
            bt_const: None,
            channel_open: false,
        }
    }

    /// The label of the adapter.
    pub fn device_label(&self) -> (label: &Vec<u8>)
        ensures
            label@ == self@.device_label,
    {
        &self.device_label
    }

    /// The bitrate programmed last.
    pub fn get_bitrate(&self) -> (r: Option<u32>)
        ensures
            r == self@.configured_bitrate,
    {
        self.configured_bitrate
    }

    /// The byte-order word of the handshake, `0xBEEF`, little-endian.
    pub fn host_config_bytes() -> (data: Vec<u8>)
        ensures
            data@ == seq![0xEFu8, 0xBE, 0, 0],
    {
        let mut data: Vec<u8> = Vec::new();
        push_le32(&mut data, 0x0000_BEEF);
        assert(data@ =~= seq![0xEFu8, 0xBE, 0, 0]);
        data
    }

    /// The first request of the handshake: the byte-order word `0xBEEF`,
    /// little-endian, to the interface.
    pub fn send_host_format(&self) -> (c: ControlOut)
        ensures
            spec_is_control_out(
                c,
                GS_USB_BREQ_HOST_FORMAT,
                1,
                self@.info.interface as u16,
                seq![0xEFu8, 0xBE, 0, 0],
            ),
    {
        ControlOut {
            request_type: 0x41,
            request: GS_USB_BREQ_HOST_FORMAT,
            value: 1,
            index: self.info.interface as u16,
            data: GsUsbDriver::host_config_bytes(),
        }
    }

    /// Whether the byte-order word went out whole: anything but four bytes
    /// written is a protocol error.
    pub fn check_host_format(written: usize) -> (r: Result<(), DriverError>)
        ensures
            r == (if written == 4 {
                Ok::<(), DriverError>(())
            } else {
                Err::<(), DriverError>(DriverError::Protocol)
            }),
    {
        if written == 4 {
            Ok(())
        } else {
            Err(DriverError::Protocol)
        }
    }

    /// The read of the timing constants: the extended request for 52 bytes
    /// first, the plain request for 40 bytes as the fallback.
    pub fn read_bt_const(&self, extended: bool) -> (c: ControlIn)
        ensures
            c == (ControlIn {
                request_type: 0xC1,
                request: if extended { GS_USB_BREQ_BT_CONST_EXT } else { GS_USB_BREQ_BT_CONST },
                value: 0,
                index: self@.info.interface as u16,
                len: if extended { 52usize } else { 40usize },
            }),
    {
        ControlIn {
            request_type: 0xC1,
            request: if extended { GS_USB_BREQ_BT_CONST_EXT } else { GS_USB_BREQ_BT_CONST },
            value: 0,
            index: self.info.interface as u16,
            len: if extended { 52 } else { 40 },
        }
    }

    /// Takes in the reply to a read of the timing constants. A reply of at
    /// least forty bytes gives the constants and the feature word, and is
    /// kept. A shorter reply, or none, changes nothing: after the extended
    /// request the plain one is to be tried (`Ok(false)`), after the plain
    /// one the handshake has failed.
    pub fn accept_bt_const(&mut self, extended: bool, reply: Option<&[u8]>) -> (r: Result<bool, DriverError>)
        ensures
            match reply {
                Some(b) if b@.len() >= 40 => {
                    &&& r == Ok::<bool, DriverError>(true)
                    &&& final(self)@ == (DriverState {
                        features: spec_parse_bt_const(b@).feature,
                        bt_const: Some(spec_parse_bt_const(b@)),
                        ..old(self)@
                    })
                },
                _ => {
                    &&& final(self)@ == old(self)@
                    &&& r == (if extended {
                        Ok::<bool, DriverError>(false)
                    } else {
                        Err::<bool, DriverError>(DriverError::Protocol)
                    })
                },
            },
    {
        match reply {
            Some(b) => {
                if b.len() >= 40 {
                    let bt = parse_bt_const(b);
                    self.features = bt.feature;
                    self.bt_const = Some(bt);
                    return Ok(true);
                }
            },
            None => {},
        }
        if extended {
            Ok(false)
        } else {
            Err(DriverError::Protocol)
        }
    }

    /// The read of the device configuration, a probe that the adapter
    /// answers at all.
    pub fn read_device_config(&self) -> (c: ControlIn)
        ensures
            c == (ControlIn {
                request_type: 0xC1,
                request: GS_USB_BREQ_DEVICE_CONFIG,
                value: 1,
                index: self@.info.interface as u16,
                len: 8,
            }),
    {
        ControlIn {
            request_type: 0xC1,
            request: GS_USB_BREQ_DEVICE_CONFIG,
            value: 1,
            index: self.info.interface as u16,
            len: 8,
        }
    }

    /// Takes in the device configuration: at least four bytes, of which the
    /// first eight are kept, with zeros for those that are missing.
    pub fn check_device_config(reply: &[u8]) -> (r: Result<Vec<u8>, DriverError>)
        ensures
            match r {
                Ok(config) => {
                    let n = if reply@.len() < 8 { reply@.len() as int } else { 8 };
                    &&& reply@.len() >= 4
                    &&& config@ == reply@.subrange(0, n) + Seq::new((8 - n) as nat, |i: int| 0u8)
                },
                Err(e) => reply@.len() < 4 && e == DriverError::Protocol,
            },
    {
        if reply.len() < 4 {
            return Err(DriverError::Protocol);
        }
        let n: usize = if reply.len() < 8 { reply.len() } else { 8 };
        let mut config = copy_range(reply, 0, n);
        push_zeros(&mut config, 8 - n);
        Ok(config)
    }

    /// The feature word at the start of a reply to the extended request, if
    /// the reply has one.
    pub fn features_from_ext(reply: &[u8]) -> (r: Option<u32>)
        ensures
            r == (if reply@.len() >= 4 { Some(spec_le32_at(reply@, 0)) } else { None }),
    {
        if reply.len() >= 4 {
            Some(read_le32(reply, 0))
        } else {
            None
        }
    }

    /// The feature word that a four-byte reply to the plain request is; a
    /// reply of another length is a protocol error.
    pub fn features_from_plain(reply: &[u8]) -> (r: Result<u32, DriverError>)
        ensures
            r == (if reply@.len() == 4 {
                Ok::<u32, DriverError>(spec_le32_at(reply@, 0))
            } else {
                Err::<u32, DriverError>(DriverError::Protocol)
            }),
    {
        if reply.len() == 4 {
            Ok(read_le32(reply, 0))
        } else {
            Err(DriverError::Protocol)
        }
    }

    /// Ends the handshake with the feature word read again, or with no
    /// features where that read failed. Padding is on from here exactly
    /// where the adapter offers it. Returns the configuration update for
    /// the event loop.
    pub fn read_features(&mut self, features: Option<u32>) -> (update: UsbCommand)
        ensures
            final(self)@ == (DriverState {
                features: if features is Some { features->0 } else { 0 },
                pad_pkts: spec_has_flag(
                    if features is Some { features->0 } else { 0 },
                    GS_CAN_FEATURE_PAD_PKTS_TO_MAX_PKT_SIZE,
                ),
                ..old(self)@
            }),
            update == (UsbCommand::UpdateConfig {
                out_wmax: old(self)@.info.out_wmax as usize,
                pad_pkts_enabled: final(self)@.pad_pkts,
            }),
    {
        let word: u32 = match features {
            Some(w) => w,
            None => 0,
        };
        self.features = word;
        self.pad_pkts = has_flag(word, GS_CAN_FEATURE_PAD_PKTS_TO_MAX_PKT_SIZE);
        UsbCommand::UpdateConfig { out_wmax: self.info.out_wmax as usize, pad_pkts_enabled: self.pad_pkts }
    }

    /// The two requests that program `bitrate`: a reset of the channel, then
    /// the timing that the search settles on. Refused with `Protocol`
    /// before the timing constants were read, and with `InvalidInput` where
    /// no timing reaches the bitrate. Nothing is recorded until
    /// [`GsUsbDriver::bitrate_programmed`].
    pub fn set_bitrate(&self, bitrate: u32) -> (r: Result<(ControlOut, ControlOut), DriverError>)
        ensures
            match r {
                Ok(pair) => {
                    &&& self@.bt_const is Some
                    &&& spec_is_control_out(
                        pair.0,
                        GS_USB_BREQ_MODE,
                        self@.channel_index as u16,
                        self@.info.interface as u16,
                        spec_encode_mode(GS_CAN_MODE_RESET, 0),
                    )
                    &&& exists|t: super::bit_timing::GsDeviceBitTiming|
                        {
                            &&& #[trigger] super::bit_timing::spec_chosen(
                                self@.bt_const->0,
                                bitrate,
                                t.brp as int,
                                t.prop_seg as int + t.phase_seg1 as int,
                                t.phase_seg2 as int,
                                self@.bt_const->0.brp_max as int + 1,
                                0,
                                0,
                            )
                            &&& t == super::bit_timing::spec_solution(
                                self@.bt_const->0,
                                t.brp as int,
                                t.prop_seg as int + t.phase_seg1 as int,
                                t.phase_seg2 as int,
                            )
                            &&& spec_is_control_out(
                                pair.1,
                                GS_USB_BREQ_BITTIMING,
                                self@.channel_index as u16,
                                self@.info.interface as u16,
                                t.spec_to_bytes(),
                            )
                        }
                },
                Err(e) => if self@.bt_const is None {
                    e == DriverError::Protocol
                } else {
                    &&& e == DriverError::InvalidInput
                    &&& forall|x: int, y: int, z: int|
                        !#[trigger] spec_acceptable(self@.bt_const->0, bitrate, x, y, z)
                },
            },
    {
        let bt = match &self.bt_const {
            Some(bt) => bt,
            None => {
                return Err(DriverError::Protocol);
            },
        };
        let timing = match calc_bit_timing(bitrate, bt) {
            Some(t) => t,
            None => {
                return Err(DriverError::InvalidInput);
            },
        };
        let reset = mode_request(self.channel_index, self.info.interface, GS_CAN_MODE_RESET, 0);
        let program = ControlOut {
            request_type: 0x41,
            request: GS_USB_BREQ_BITTIMING,
            value: self.channel_index as u16,
            index: self.info.interface as u16,
            data: timing.to_bytes(),
        };
        Ok((reset, program))
    }

    /// Records `bitrate` once both requests of [`GsUsbDriver::set_bitrate`]
    /// went through.
    pub fn bitrate_programmed(&mut self, bitrate: u32)
        ensures
            final(self)@ == (DriverState { configured_bitrate: Some(bitrate), ..old(self)@ }),
    {
        self.configured_bitrate = Some(bitrate);
    }

    /// The request that turns hardware timestamps on. Timestamps count as on
    /// from here whatever the adapter answers: the mode flag alone may do.
    pub fn enable_timestamp(&mut self) -> (c: ControlOut)
        ensures
            spec_is_control_out(
                c,
                GS_USB_BREQ_TIMESTAMP,
                old(self)@.channel_index as u16,
                old(self)@.info.interface as u16,
                seq![1u8, 0, 0, 0],
            ),
            final(self)@ == (DriverState { timestamp_enabled: true, ..old(self)@ }),
    {
        let mut data: Vec<u8> = Vec::new();
        push_le32(&mut data, 1);
        assert(data@ =~= seq![1u8, 0, 0, 0]);
        self.timestamp_enabled = true;
        ControlOut {
            request_type: 0x41,
            request: GS_USB_BREQ_TIMESTAMP,
            value: self.channel_index as u16,
            index: self.info.interface as u16,
            data,
        }
    }

    fn open_channel_with_flags(&mut self, listen_only: bool) -> (r: Result<(ControlOut, ControlOut), DriverError>)
        ensures
            spec_open_planned(old(self)@, listen_only, r),
            final(self)@ == (if r is Ok {
                DriverState { channel_open: true, ..old(self)@ }
            } else {
                old(self)@
            }),
    {
        if self.configured_bitrate.is_none() {
            return Err(DriverError::InvalidInput);
        }
        let mut flags: u32 = 0;
        if self.timestamp_enabled {
            flags = flags + GS_CAN_MODE_HW_TIMESTAMP;
        }
        if self.pad_pkts {
            flags = flags + GS_CAN_MODE_PAD_PKTS_TO_MAX_PKT_SIZE;
        }
        if listen_only {
            flags = flags + GS_CAN_MODE_LISTEN_ONLY;
        }
        self.channel_open = true;
        Ok(
            (
                mode_request(self.channel_index, self.info.interface, GS_CAN_MODE_RESET, 0),
                mode_request(self.channel_index, self.info.interface, GS_CAN_MODE_START, flags),
            ),
        )
    }

    /// The two requests that open the channel: reset, then start with the
    /// negotiated flags. Refused with `InvalidInput` before a bitrate was
    /// programmed; otherwise the channel counts as open from here.
    pub fn open_channel(&mut self) -> (r: Result<(ControlOut, ControlOut), DriverError>)
        ensures
            spec_open_planned(old(self)@, false, r),
            final(self)@ == (if r is Ok {
                DriverState { channel_open: true, ..old(self)@ }
            } else {
                old(self)@
            }),
    {
        self.open_channel_with_flags(false)
    }

    /// As [`GsUsbDriver::open_channel`], with the listen-only flag on top.
    pub fn open_listen_only(&mut self) -> (r: Result<(ControlOut, ControlOut), DriverError>)
        ensures
            spec_open_planned(old(self)@, true, r),
            final(self)@ == (if r is Ok {
                DriverState { channel_open: true, ..old(self)@ }
            } else {
                old(self)@
            }),
    {
        self.open_channel_with_flags(true)
    }

    /// Whether the channel was opened and not closed since.
    pub fn is_open(&self) -> (r: bool)
        ensures
            r == self@.channel_open,
    {
        self.channel_open
    }

    /// The request that closes the channel: a reset. The channel counts as
    /// closed from here, whatever comes of the request. Closing a closed
    /// channel asks the same of the adapter and leaves the driver closed.
    pub fn close_channel(&mut self) -> (c: ControlOut)
        ensures
            spec_is_control_out(
                c,
                GS_USB_BREQ_MODE,
                old(self)@.channel_index as u16,
                old(self)@.info.interface as u16,
                spec_encode_mode(GS_CAN_MODE_RESET, 0),
            ),
            final(self)@ == spec_closed(old(self)@),
    {
        self.channel_open = false;
        mode_request(self.channel_index, self.info.interface, GS_CAN_MODE_RESET, 0)
    }

    /// A transmit frame in the layout with a 64-byte data area, under the
    /// next echo id.
    pub fn encode_frame_tx_76(&mut self, frame: &CanFrame) -> (buf: Vec<u8>)
        ensures
            buf@ == spec_encode_tx(frame@, (old(self)@.tx_counter % 16) as u32, old(self)@.channel_index, 64),
            buf@.len() == 76,
            final(self)@ == (DriverState { tx_counter: spec_next_counter(old(self)@.tx_counter), ..old(self)@ }),
    {
        let echo_id = self.next_echo_id();
        encode_tx(frame, echo_id, self.channel_index, 64)
    }

    /// A transmit frame in the classic layout with an 8-byte data area,
    /// under the next echo id.
    pub fn encode_frame_minimal(&mut self, frame: &CanFrame) -> (buf: Vec<u8>)
        ensures
            buf@ == spec_encode_tx(frame@, (old(self)@.tx_counter % 16) as u32, old(self)@.channel_index, 8),
            buf@.len() == 20,
            final(self)@ == (DriverState { tx_counter: spec_next_counter(old(self)@.tx_counter), ..old(self)@ }),
    {
        let echo_id = self.next_echo_id();
        encode_tx(frame, echo_id, self.channel_index, 8)
    }

    fn next_echo_id(&mut self) -> (echo_id: u32)
        ensures
            echo_id == old(self)@.tx_counter % 16,
            final(self)@ == (DriverState { tx_counter: spec_next_counter(old(self)@.tx_counter), ..old(self)@ }),
    {
        let echo_id = self.tx_counter % 16;
        self.tx_counter = if self.tx_counter == 0xFFFF_FFFF {
            0
        } else {
            self.tx_counter + 1
        };
        echo_id
    }

    fn encode_unpadded(&mut self, frame: &CanFrame) -> (buf: Vec<u8>)
        ensures
            buf@ == spec_encode_tx(
                frame@,
                (old(self)@.tx_counter % 16) as u32,
                old(self)@.channel_index,
                spec_tx_area(old(self)@.features),
            ),
            buf@.len() == 12 + spec_tx_area(old(self)@.features),
            final(self)@ == (DriverState { tx_counter: spec_next_counter(old(self)@.tx_counter), ..old(self)@ }),
    {
        if has_flag(self.features, GS_CAN_FEATURE_FD) {
            self.encode_frame_tx_76(frame)
        } else {
            self.encode_frame_minimal(frame)
        }
    }

    /// Fills a packet with zeros up to a multiple of the packet size, where
    /// padding is on.
    pub fn maybe_pad_tx(&self, buf: Vec<u8>) -> (r: Vec<u8>)
        requires
            buf@.len() + 0xFFFF <= usize::MAX,
        ensures
            r@ == spec_pad_tx(buf@, self@.pad_pkts, self@.info.out_wmax),
    {
        let mut buf = buf;
        if self.pad_pkts {
            let m: usize = self.info.out_wmax as usize;
            if m > 0 {
                proof {
                    vstd::arithmetic::div_mod::lemma_mod_pos_bound(buf@.len() as int, m as int);
                    vstd::arithmetic::div_mod::lemma_mod_decreases(buf@.len(), m as nat);
                }
                let target = align_up(buf.len(), m);
                let ghost before = buf@;
                let fill: usize = target - buf.len();
                push_zeros(&mut buf, fill);
                assert(buf@ =~= spec_pad_tx(before, true, self.info.out_wmax));
            }
        }
        buf
    }

    /// The packet that sends `frame`: the layout with a 64-byte data area
    /// where the adapter does CAN FD and the classic one otherwise, under
    /// the next echo id, padded where padding is on.
    pub fn send_frame(&mut self, frame: &CanFrame) -> (buf: Vec<u8>)
        ensures
            buf@ == spec_pad_tx(
                spec_encode_tx(
                    frame@,
                    (old(self)@.tx_counter % 16) as u32,
                    old(self)@.channel_index,
                    spec_tx_area(old(self)@.features),
                ),
                old(self)@.pad_pkts,
                old(self)@.info.out_wmax,
            ),
            final(self)@ == (DriverState { tx_counter: spec_next_counter(old(self)@.tx_counter), ..old(self)@ }),
    {
        let buf = self.encode_unpadded(frame);
        self.maybe_pad_tx(buf)
    }

    /// Decides on the first write of a packet of `sent` bytes for `frame`.
    /// A write of the whole packet is the end. A stall while padding is on
    /// turns padding off for good and asks for one more write, of the frame
    /// encoded anew without padding. Anything else fails: a short write as a
    /// protocol error, an error as itself.
    pub fn try_tx(&mut self, frame: &CanFrame, sent: usize, outcome: WriteOutcome) -> (step: TxStep)
        ensures
            match outcome {
                WriteOutcome::Written(n) => {
                    &&& final(self)@ == old(self)@
                    &&& step == (if n == sent {
                        TxStep::Done
                    } else {
                        TxStep::Failed(DriverError::Protocol)
                    })
                },
                WriteOutcome::Failed(e) => if e == DriverError::Stall && old(self)@.pad_pkts {
                    &&& step is Retry
                    &&& step->Retry_0@ == spec_encode_tx(
                        frame@,
                        (old(self)@.tx_counter % 16) as u32,
                        old(self)@.channel_index,
                        spec_tx_area(old(self)@.features),
                    )
                    &&& step->Retry_0@.len() == 12 + spec_tx_area(old(self)@.features)
                    &&& final(self)@ == (DriverState {
                        pad_pkts: false,
                        tx_counter: spec_next_counter(old(self)@.tx_counter),
                        ..old(self)@
                    })
                } else {
                    step == TxStep::Failed(e) && final(self)@ == old(self)@
                },
            },
    {
        match outcome {
            WriteOutcome::Written(n) => {
                if n == sent {
                    TxStep::Done
                } else {
                    TxStep::Failed(DriverError::Protocol)
                }
            },
            WriteOutcome::Failed(e) => {
                if self.pad_pkts && matches!(e, DriverError::Stall) {
                    self.pad_pkts = false;
                    TxStep::Retry(self.encode_unpadded(frame))
                } else {
                    TxStep::Failed(e)
                }
            },
        }
    }

    /// Decides on the one further write after a stall: it is the end if the
    /// whole packet went out, and fails otherwise, with no further write.
    pub fn retry_result(sent: usize, outcome: WriteOutcome) -> (r: Result<(), DriverError>)
        ensures
            r == (match outcome {
                WriteOutcome::Written(n) => if n == sent {
                    Ok::<(), DriverError>(())
                } else {
                    Err::<(), DriverError>(DriverError::Protocol)
                },
                WriteOutcome::Failed(e) => Err::<(), DriverError>(e),
            }),
    {
        match outcome {
            WriteOutcome::Written(n) => {
                if n == sent {
                    Ok(())
                } else {
                    Err(DriverError::Protocol)
                }
            },
            WriteOutcome::Failed(e) => Err(e),
        }
    }
}

/// Where the handshake with a freshly claimed adapter stands.
#[derive(Debug, Clone, Copy, PartialEq, Eq, Structural)]
pub enum HandshakePhase {
    /// The byte-order word is to be sent.
    HostFormat,
    /// The extended timing constants are to be read.
    BtConstExt,
    /// The plain timing constants are to be read, the extended ones having
    /// failed.
    BtConst,
    /// The device configuration is to be read.
    DeviceConfig,
    /// The feature word is to be read again with the extended request.
    FeaturesExt,
    /// The feature word is to be read again with the plain request.
    FeaturesPlain,
    /// The handshake is over.
    Done,
}

/// A control transfer in either direction.
#[derive(Debug, PartialEq, Eq)]
pub enum Transfer {
    Out(ControlOut),
    In(ControlIn),
}

/// What came of a control transfer.
#[derive(Debug, PartialEq, Eq)]
pub enum TransferResult {
    /// An outgoing transfer ended after this many bytes.
    Written(usize),
    /// An incoming transfer brought these bytes.
    Read(Vec<u8>),
    /// The transfer failed.
    Failed(DriverError),
}

/// The bytes that a transfer brought, if it brought any.
pub open spec fn spec_reply(result: TransferResult) -> Option<Seq<u8>> {
    match result {
        TransferResult::Read(b) => Some(b@),
        _ => None,
    }
}

/// The error that a failed step of the handshake ends with: that of the
/// transfer, or a protocol error where the transfer went through but not as
/// it should.
pub open spec fn spec_step_error(result: TransferResult) -> DriverError {
    match result {
        TransferResult::Failed(e) => e,
        _ => DriverError::Protocol,
    }
}

/// The driver after the feature word was settled.
pub open spec fn spec_with_features(state: DriverState, word: u32) -> DriverState {
    DriverState { features: word, pad_pkts: spec_has_flag(word, GS_CAN_FEATURE_PAD_PKTS_TO_MAX_PKT_SIZE), ..state }
}

/// The driver after timing constants were accepted.
pub open spec fn spec_with_bt_const(state: DriverState, reply: Seq<u8>) -> DriverState {
    DriverState {
        features: spec_parse_bt_const(reply).feature,
        bt_const: Some(spec_parse_bt_const(reply)),
        ..state
    }
}

/// One step of the handshake: the phase and the driver after the transfer
/// of `phase` ended with `result`, or the error that ends the handshake.
///
/// The byte-order word must go out whole. The extended timing constants
/// are taken where at least forty bytes came, and the plain ones are tried
/// otherwise; those must come. The device configuration must have at least
/// four bytes. The feature word is read again, first with the extended
/// request, which needs four bytes, then with the plain one, which needs
/// exactly four; where both fail the adapter counts as having no
/// features.
pub open spec fn spec_handshake_step(state: DriverState, phase: HandshakePhase, result: TransferResult) -> Result<
    (HandshakePhase, DriverState),
    DriverError,
> {
    let reply = spec_reply(result);
    match phase {
        HandshakePhase::HostFormat => if result == TransferResult::Written(4) {
            Ok((HandshakePhase::BtConstExt, state))
        } else {
            Err(spec_step_error(result))
        },
        HandshakePhase::BtConstExt => if reply is Some && reply->0.len() >= 40 {
            Ok((HandshakePhase::DeviceConfig, spec_with_bt_const(state, reply->0)))
        } else {
            Ok((HandshakePhase::BtConst, state))
        },
        HandshakePhase::BtConst => if reply is Some && reply->0.len() >= 40 {
            Ok((HandshakePhase::DeviceConfig, spec_with_bt_const(state, reply->0)))
        } else {
            Err(spec_step_error(result))
        },
        HandshakePhase::DeviceConfig => if reply is Some && reply->0.len() >= 4 {
            Ok((HandshakePhase::FeaturesExt, state))
        } else {
            Err(spec_step_error(result))
        },
        HandshakePhase::FeaturesExt => if reply is Some && reply->0.len() >= 4 {
            Ok((HandshakePhase::Done, spec_with_features(state, spec_le32_at(reply->0, 0))))
        } else {
            Ok((HandshakePhase::FeaturesPlain, state))
        },
        HandshakePhase::FeaturesPlain => if reply is Some && reply->0.len() == 4 {
            Ok((HandshakePhase::Done, spec_with_features(state, spec_le32_at(reply->0, 0))))
        } else {
            Ok((HandshakePhase::Done, spec_with_features(state, 0)))
        },
        HandshakePhase::Done => Ok((HandshakePhase::Done, state)),
    }
}

impl GsUsbDriver {
    /// The transfer that a phase of the handshake asks for; none once the
    /// handshake is over.
    pub fn handshake_request(&self, phase: HandshakePhase) -> (r: Option<Transfer>)
        ensures
            phase == HandshakePhase::Done <==> r is None,
            match r {
                Some(Transfer::Out(c)) => phase == HandshakePhase::HostFormat && spec_is_control_out(
                    c,
                    GS_USB_BREQ_HOST_FORMAT,
                    1,
                    self@.info.interface as u16,
                    seq![0xEFu8, 0xBE, 0, 0],
                ),
                Some(Transfer::In(c)) => {
                    &&& phase != HandshakePhase::HostFormat
                    &&& c.request_type == 0xC1
                    &&& c.index == self@.info.interface as u16
                    &&& c.request == (match phase {
                        HandshakePhase::BtConstExt => GS_USB_BREQ_BT_CONST_EXT,
                        HandshakePhase::FeaturesExt => GS_USB_BREQ_BT_CONST_EXT,
                        HandshakePhase::DeviceConfig => GS_USB_BREQ_DEVICE_CONFIG,
                        _ => GS_USB_BREQ_BT_CONST,
                    })
                    &&& c.value == (if phase == HandshakePhase::DeviceConfig { 1u16 } else { 0u16 })
                    &&& c.len == (match phase {
                        HandshakePhase::BtConstExt => 52usize,
                        HandshakePhase::FeaturesExt => 52usize,
                        HandshakePhase::BtConst => 40usize,
                        HandshakePhase::DeviceConfig => 8usize,
                        _ => 4usize,
                    })
                },
                None => true,
            },
    {
        match phase {
            HandshakePhase::HostFormat => Some(Transfer::Out(self.send_host_format())),
            HandshakePhase::BtConstExt => Some(Transfer::In(self.read_bt_const(true))),
            HandshakePhase::BtConst => Some(Transfer::In(self.read_bt_const(false))),
            HandshakePhase::DeviceConfig => Some(Transfer::In(self.read_device_config())),
            HandshakePhase::FeaturesExt => Some(Transfer::In(self.read_bt_const(true))),
            HandshakePhase::FeaturesPlain => {
                let plain = self.read_bt_const(false);
                Some(
                    Transfer::In(
                        ControlIn {
                            request_type: plain.request_type,
                            request: plain.request,
                            value: plain.value,
                            index: plain.index,
                            len: 4,
                        },
                    ),
                )
            },
            HandshakePhase::Done => None,
        }
    }

    /// Takes in the result of the transfer of `phase` and says which phase
    /// comes next, or with which error the handshake has failed. A failed
    /// handshake leaves the driver as it was before the step.
    #[verifier::rlimit(40)]
    pub fn handshake_step(&mut self, phase: HandshakePhase, result: &TransferResult) -> (r: Result<
        HandshakePhase,
        DriverError,
    >)
        ensures
            match spec_handshake_step(old(self)@, phase, *result) {
                Ok(next) => r == Ok::<HandshakePhase, DriverError>(next.0) && final(self)@ == next.1,
                Err(e) => r == Err::<HandshakePhase, DriverError>(e) && final(self)@ == old(self)@,
            },
    {
        let failure: DriverError = match result {
            TransferResult::Failed(e) => *e,
            _ => DriverError::Protocol,
        };
        match phase {
            HandshakePhase::HostFormat => match result {
                TransferResult::Written(n) => {
                    match GsUsbDriver::check_host_format(*n) {
                        Ok(()) => Ok(HandshakePhase::BtConstExt),
                        Err(e) => Err(e),
                    }
                },
                _ => Err(failure),
            },
            HandshakePhase::BtConstExt => {
                let reply: Option<&[u8]> = match result {
                    TransferResult::Read(b) => Some(b.as_slice()),
                    _ => None,
                };
                match self.accept_bt_const(true, reply) {
                    Ok(true) => Ok(HandshakePhase::DeviceConfig),
                    _ => Ok(HandshakePhase::BtConst),
                }
            },
            HandshakePhase::BtConst => {
                let reply: Option<&[u8]> = match result {
                    TransferResult::Read(b) => Some(b.as_slice()),
                    _ => None,
                };
                match self.accept_bt_const(false, reply) {
                    Ok(_) => Ok(HandshakePhase::DeviceConfig),
                    Err(_) => Err(failure),
                }
            },
            HandshakePhase::DeviceConfig => match result {
                TransferResult::Read(b) => {
                    if b.len() >= 4 {
                        Ok(HandshakePhase::FeaturesExt)
                    } else {
                        Err(DriverError::Protocol)
                    }
                },
                _ => Err(failure),
            },
            HandshakePhase::FeaturesExt => {
                let word: Option<u32> = match result {
                    TransferResult::Read(b) => GsUsbDriver::features_from_ext(b.as_slice()),
                    _ => None,
                };
                match word {
                    Some(w) => {
                        let _ = self.read_features(Some(w));
                        Ok(HandshakePhase::Done)
                    },
                    None => Ok(HandshakePhase::FeaturesPlain),
                }
            },
            HandshakePhase::FeaturesPlain => {
                let word: Option<u32> = match result {
                    TransferResult::Read(b) => match GsUsbDriver::features_from_plain(b.as_slice()) {
                        Ok(w) => Some(w),
                        Err(_) => None,
                    },
                    _ => None,
                };
                let _ = self.read_features(word);
                Ok(HandshakePhase::Done)
            },
            HandshakePhase::Done => Ok(HandshakePhase::Done),
        }
    }

    /// What the event loop is told once the handshake is over: the packet
    /// size of the OUT endpoint and whether the adapter pads.
    pub fn config_update(&self) -> (update: UsbCommand)
        ensures
            update == (UsbCommand::UpdateConfig {
                out_wmax: self@.info.out_wmax as usize,
                pad_pkts_enabled: self@.pad_pkts,
            }),
    {
        UsbCommand::UpdateConfig { out_wmax: self.info.out_wmax as usize, pad_pkts_enabled: self.pad_pkts }
    }
}

/// Where the fields of a transmit frame lie.
#[verifier::rlimit(40)]
proof fn lemma_encode_layout(f: FrameView, echo_id: u32, channel_index: u8, area: nat)
    requires
        f.data.len() <= area,
    ensures
        spec_encode_tx(f, echo_id, channel_index, area).len() == 12 + area,
        spec_le32_at(spec_encode_tx(f, echo_id, channel_index, area), 0) == echo_id,
        spec_le32_at(spec_encode_tx(f, echo_id, channel_index, area), 4) == spec_wire_id(f),
        spec_encode_tx(f, echo_id, channel_index, area)[8] == f.dlc,
        spec_encode_tx(f, echo_id, channel_index, area)[9] == channel_index,
        spec_encode_tx(f, echo_id, channel_index, area).subrange(12, 12 + f.data.len() as int) == f.data,
{
    let bytes = spec_encode_tx(f, echo_id, channel_index, area);
    crate::bytes::lemma_le32_round_trip(echo_id);
    crate::bytes::lemma_le32_round_trip(spec_wire_id(f));
    let e = spec_le32_bytes(echo_id);
    let w = spec_le32_bytes(spec_wire_id(f));
    assert(bytes[0] == e[0] && bytes[1] == e[1] && bytes[2] == e[2] && bytes[3] == e[3]);
    assert(bytes[4] == w[0] && bytes[5] == w[1] && bytes[6] == w[2] && bytes[7] == w[3]);
    assert(f.data.subrange(0, f.data.len() as int) =~= f.data);
    assert(bytes.subrange(12, 12 + f.data.len() as int) =~= f.data);
}

/// The flags and the identifier come out of the identifier field as they
/// went in.
#[verifier::rlimit(40)]
proof fn lemma_wire_id_decodes(f: FrameView)
    requires
        crate::can::spec_frame_valid(f),
        f.error ==> f.id <= 0x7FF,
    ensures
        super::frames::spec_has_err(spec_wire_id(f)) == f.error,
        super::frames::spec_has_rtr(spec_wire_id(f)) == f.rtr,
        super::frames::spec_has_eff(spec_wire_id(f)) == f.extended,
        spec_wire_id(f) % 0x2000_0000 == f.id,
        !f.extended ==> spec_wire_id(f) % 0x800 == f.id,
{
    let id = f.id as int;
    let e: int = if f.extended { 1 } else { 0 };
    let r: int = if f.rtr { 1 } else { 0 };
    let x: int = if f.error { 1 } else { 0 };
    let w = spec_wire_id(f) as int;
    assert(if f.extended { id % 0x2000_0000 == id } else { id % 0x800 == id });
    assert(w == id + 0x8000_0000 * e + 0x4000_0000 * r + 0x2000_0000 * x);
    assert(w / 0x2000_0000 == 4 * e + 2 * r + x);
    assert(w / 0x4000_0000 == 2 * e + r);
    assert(w % 0x2000_0000 == id);
    if !f.extended {
        assert(w % 0x800 == id);
    }
}

/// The frame that the identifier field, length code and payload of a valid
/// frame stand for is the frame itself.
pub proof fn lemma_rx_frame_of_tx(f: FrameView)
    requires
        crate::can::spec_frame_valid(f),
        f.timestamp is None,
        f.error ==> f.id <= 0x7FF,
    ensures
        super::frames::spec_rx_frame(spec_wire_id(f), f.dlc, f.data) == f,
{
    lemma_wire_id_decodes(f);
    let parsed = super::frames::spec_rx_frame(spec_wire_id(f), f.dlc, f.data);
    if f.error {
        assert(f.data =~= Seq::<u8>::empty());
        assert(parsed == f);
    } else if f.rtr {
        assert(parsed == f);
    } else {
        assert(crate::can::spec_len_to_dlc(f.data.len()) == f.dlc);
        assert(parsed == f);
    }
}

/// A frame read back from its own transmit encoding is the frame it was.
///
/// The frame is any valid frame without a timestamp that the data area
/// holds in full; an error frame must have an identifier of at most eleven
/// bits, since the encoding cuts it to that. The encoding carries the echo
/// id of a frame off the bus, and is read for the same channel with
/// timestamps and padding off. A frame encoded under any other echo id is
/// skipped whole as a transmit confirmation.
#[verifier::rlimit(40)]
pub proof fn lemma_tx_rx_round_trip(
    f: FrameView,
    echo_id: u32,
    channel_index: u8,
    area: nat,
    last: Option<u64>,
    out_wmax: nat,
)
    requires
        crate::can::spec_frame_valid(f),
        f.timestamp is None,
        f.error ==> f.id <= 0x7FF,
        area == 8 || area == 64,
        f.data.len() <= area,
    ensures
        ({
            let bytes = spec_encode_tx(f, echo_id, channel_index, area);
            let wire = super::frames::spec_rx_wire_len(f.dlc, false, out_wmax, false);
            let consumed = if wire <= 12 + area { wire } else { 12 + area };
            spec_parse_host_frame(bytes, channel_index, false, last, out_wmax, false) == (if echo_id
                == 0xFFFF_FFFF {
                RxStep::Frame(f, consumed)
            } else {
                RxStep::Skip(consumed)
            })
        }),
{
    let bytes = spec_encode_tx(f, echo_id, channel_index, area);
    lemma_encode_layout(f, echo_id, channel_index, area);
    lemma_wire_len_bounds(f.dlc, false, out_wmax, false);
    lemma_rx_frame_of_tx(f);
    assert(bytes.len() == 12 + area);
    assert(bytes[8] == f.dlc && bytes[9] == channel_index);
    assert(f.data.len() == crate::can::spec_dlc_to_len(f.dlc));
    assert(super::frames::spec_rx_needed(f.dlc, false, out_wmax, false) <= bytes.len());
    assert(bytes.subrange(12, 12 + crate::can::spec_dlc_to_len(f.dlc) as int) == f.data);
}

/// After a stall on a padded write the one further packet is the bare
/// frame: twenty bytes in the classic layout, seventy-six in the other.
pub proof fn lemma_retry_is_unpadded(f: FrameView, echo_id: u32, channel_index: u8, features: u32)
    requires
        f.data.len() <= 64,
    ensures
        spec_encode_tx(f, echo_id, channel_index, spec_tx_area(features)).len() == (if spec_has_flag(
            features,
            GS_CAN_FEATURE_FD,
        ) {
            76nat
        } else {
            20nat
        }),
{
}

} // verus!
