//! The event loop that owns the USB handle, as a state machine: what it
//! learns from the commands that pass through it, what it makes of the
//! bytes it receives, and how it recovers from failed transfers.

use vstd::prelude::*;
use crate::bytes::append_from;
use crate::bytes::copy_range;
use crate::bytes::read_le32;
use crate::bytes::spec_le32_at;
use crate::can::CanFrame;
use crate::can::FrameView;
use crate::error::DriverError;
use crate::can::spec_all_wf;
use crate::can::spec_views;
use super::bit_timing::spec_encode_mode;
use super::constants::GS_CAN_MODE_RESET;
use super::constants::GS_CAN_MODE_START;
use super::constants::GS_USB_BREQ_MODE;
use super::constants::GS_USB_BREQ_TIMESTAMP;
use super::driver::mode_request;
use super::driver::spec_is_control_out;
use super::driver::ControlOut;
use super::driver::UsbCommand;
use super::frames::lemma_wire_len_bounds;
use super::frames::parse_host_frame_at;
use super::frames::spec_last_after;
use super::frames::spec_parse_host_frame;
use super::frames::RxStep;

verus! {

/// What the event loop holds, as mathematical values.
pub struct EventLoopState {
    pub iface: u8,
    pub in_ep: u8,
    pub out_ep: u8,
    pub rx_buffer: Seq<u8>,
    pub last_timestamp64: Option<u64>,
    pub channel_index: u8,
    pub timestamp_enabled: bool,
    pub out_wmax: usize,
    pub pad_pkts_enabled: bool,
    pub mode_flags: u32,
}

/// The state of the single owner of the USB handle: what it learned from
/// the commands that passed through it, and the receive accumulator.
#[derive(Debug)]
pub struct UsbEventLoop {
    iface: u8,
    in_ep: u8,
    out_ep: u8,
    rx_buffer: Vec<u8>,
    last_timestamp64: Option<u64>,
    channel_index: u8,
    timestamp_enabled: bool,
    out_wmax: usize,
    pad_pkts_enabled: bool,
    mode_flags: u32,
}

impl View for UsbEventLoop {
    type V = EventLoopState;

    closed spec fn view(&self) -> EventLoopState {
        EventLoopState {
            iface: self.iface,
            in_ep: self.in_ep,
            out_ep: self.out_ep,
            rx_buffer: self.rx_buffer@,
            last_timestamp64: self.last_timestamp64,
            channel_index: self.channel_index,
            timestamp_enabled: self.timestamp_enabled,
            out_wmax: self.out_wmax,
            pad_pkts_enabled: self.pad_pkts_enabled,
            mode_flags: self.mode_flags,
        }
    }
}

/// What to do about a failed bulk-in transfer.
#[derive(Debug, Clone, Copy, PartialEq, Eq, Structural)]
pub enum RxRecovery {
    /// Clear the halt, pause, and submit the transfer again.
    ClearHaltAndResubmit,
    /// End the loop and hand the error on.
    Terminate,
}

/// What to do about a failed bulk write before handing the error back.
#[derive(Debug, Clone, Copy, PartialEq, Eq, Structural)]
pub struct WriteRecovery {
    /// Clear the halt on the endpoint.
    pub clear_halt: bool,
    /// Also take the channel through reset and start.
    pub restart: bool,
}

/// What scanning the accumulator for complete frames gives.
pub struct RxScan {
    /// The frames handed out, in wire order.
    pub frames: Seq<FrameView>,
    /// The bytes that stay in the accumulator.
    pub rest: Seq<u8>,
    /// The last timestamp after the scan.
    pub last: Option<u64>,
}

/// Scans the accumulator from its start: each decision drops its bytes and
/// hands out its frame, until a frame has to wait for more bytes.
pub open spec fn spec_scan_rx(
    buf: Seq<u8>,
    channel_index: u8,
    timestamp_enabled: bool,
    last: Option<u64>,
    out_wmax: nat,
    pad: bool,
) -> RxScan
    decreases buf.len(),
{
    let step = spec_parse_host_frame(buf, channel_index, timestamp_enabled, last, out_wmax, pad);
    match step {
        RxStep::Incomplete => RxScan { frames: Seq::empty(), rest: buf, last },
        RxStep::Skip(n) => if 1 <= n <= buf.len() {
            spec_scan_rx(
                buf.subrange(n as int, buf.len() as int),
                channel_index,
                timestamp_enabled,
                last,
                out_wmax,
                pad,
            )
        } else {
            RxScan { frames: Seq::empty(), rest: buf, last }
        },
        RxStep::Frame(f, n) => if 1 <= n <= buf.len() {
            let tail = spec_scan_rx(
                buf.subrange(n as int, buf.len() as int),
                channel_index,
                timestamp_enabled,
                spec_last_after(step, last),
                out_wmax,
                pad,
            );
            RxScan { frames: seq![f] + tail.frames, ..tail }
        } else {
            RxScan { frames: Seq::empty(), rest: buf, last }
        },
    }
}

/// The accumulator never holds this many bytes between reads: a frame of
/// the largest wire length would be complete before.
pub open spec fn spec_rx_bound(out_wmax: nat, pad: bool) -> nat {
    if pad {
        80 + out_wmax
    } else {
        81
    }
}

impl UsbEventLoop {
    /// The event loop for a freshly claimed interface: channel 0, no
    /// timestamps, nothing received.
    pub fn new(iface: u8, in_ep: u8, out_ep: u8, out_wmax: usize, pad_pkts_enabled: bool) -> (s: UsbEventLoop)
        ensures
            s@ == (EventLoopState {
                iface,
                in_ep,
                out_ep,
                rx_buffer: Seq::empty(),
                last_timestamp64: None,
                channel_index: 0,
                timestamp_enabled: false,
                out_wmax,
                pad_pkts_enabled,
                mode_flags: 0,
            }),
    {
        UsbEventLoop {
            iface,
            in_ep,
            out_ep,
            rx_buffer: Vec::new(),
            last_timestamp64: None,
            channel_index: 0,
            timestamp_enabled: false,
            out_wmax,
            pad_pkts_enabled,
            mode_flags: 0,
        }
    }

    /// Length to ask for in each bulk-in transfer: the packet size, and at
    /// least a header.
    pub fn rx_transfer_len(&self) -> (len: usize)
        ensures
            len == (if self@.out_wmax >= 12 { self@.out_wmax } else { 12 }),
    {
        if self.out_wmax >= 12 {
            self.out_wmax
        } else {
            12
        }
    }

    /// The state after a command passed through. A mode request names the
    /// channel in its value, and a start among them leaves its flags as the
    /// current ones; a timestamp request turns timestamps on or off by its
    /// first byte; a configuration update replaces packet size and padding.
    pub open spec fn spec_after_command(state: EventLoopState, command: UsbCommand) -> EventLoopState {
        match command {
            UsbCommand::ControlOut(c) => {
                if c.request == GS_USB_BREQ_MODE {
                    let started = c.data@.len() >= 8 && spec_le32_at(c.data@, 0) == GS_CAN_MODE_START;
                    EventLoopState {
                        channel_index: (c.value % 256) as u8,
                        mode_flags: if started { spec_le32_at(c.data@, 4) } else { state.mode_flags },
                        ..state
                    }
                } else if c.request == GS_USB_BREQ_TIMESTAMP {
                    EventLoopState { timestamp_enabled: c.data@.len() > 0 && c.data@[0] != 0, ..state }
                } else {
                    state
                }
            },
            UsbCommand::UpdateConfig { out_wmax, pad_pkts_enabled } => EventLoopState {
                out_wmax,
                pad_pkts_enabled,
                ..state
            },
            _ => state,
        }
    }

    /// Takes note of a command before it is carried out. Returns whether the
    /// loop goes on: every command but a shutdown.
    pub fn handle_command(&mut self, command: &UsbCommand) -> (go_on: bool)
        ensures
            final(self)@ == Self::spec_after_command(old(self)@, *command),
            go_on == !(*command is Shutdown),
    {
        match command {
            UsbCommand::ControlOut(c) => {
                if c.request == GS_USB_BREQ_MODE {
                    self.channel_index = (c.value % 256) as u8;
                    if c.data.len() >= 8 && read_le32(c.data.as_slice(), 0) == GS_CAN_MODE_START {
                        self.mode_flags = read_le32(c.data.as_slice(), 4);
                    }
                } else if c.request == GS_USB_BREQ_TIMESTAMP {
                    self.timestamp_enabled = c.data.len() > 0 && c.data[0] != 0;
                }
                true
            },
            UsbCommand::ControlIn(_) => true,
            UsbCommand::BulkWrite { .. } => true,
            UsbCommand::UpdateConfig { out_wmax, pad_pkts_enabled } => {
                self.out_wmax = *out_wmax;
                self.pad_pkts_enabled = *pad_pkts_enabled;
                true
            },
            UsbCommand::Shutdown => false,
        }
    }

    /// What to do about a failed bulk-in transfer: a lost device ends the
    /// loop, anything else is cleared and tried again.
    pub fn handle_rx_completion(error: DriverError) -> (r: RxRecovery)
        ensures
            r == (if error == DriverError::DeviceAbsent {
                RxRecovery::Terminate
            } else {
                RxRecovery::ClearHaltAndResubmit
            }),
    {
        match error {
            DriverError::DeviceAbsent => RxRecovery::Terminate,
            _ => RxRecovery::ClearHaltAndResubmit,
        }
    }

    /// Takes in one received chunk and hands out the frames that are now
    /// complete, in wire order. Echoes and frames of other channels are
    /// dropped without a trace, and what is left in the accumulator is a
    /// frame still waiting for bytes.
    #[verifier::rlimit(40)]
    pub fn process_rx_chunk(&mut self, chunk: &[u8]) -> (frames: Vec<CanFrame>)
        ensures
            spec_views(frames@) == spec_scan_rx(
                old(self)@.rx_buffer + chunk@,
                old(self)@.channel_index,
                old(self)@.timestamp_enabled,
                old(self)@.last_timestamp64,
                old(self)@.out_wmax as nat,
                old(self)@.pad_pkts_enabled,
            ).frames,
            spec_all_wf(frames@),
            final(self)@ == (EventLoopState {
                rx_buffer: spec_scan_rx(
                    old(self)@.rx_buffer + chunk@,
                    old(self)@.channel_index,
                    old(self)@.timestamp_enabled,
                    old(self)@.last_timestamp64,
                    old(self)@.out_wmax as nat,
                    old(self)@.pad_pkts_enabled,
                ).rest,
                last_timestamp64: spec_scan_rx(
                    old(self)@.rx_buffer + chunk@,
                    old(self)@.channel_index,
                    old(self)@.timestamp_enabled,
                    old(self)@.last_timestamp64,
                    old(self)@.out_wmax as nat,
                    old(self)@.pad_pkts_enabled,
                ).last,
                ..old(self)@
            }),
            final(self)@.rx_buffer.len() < spec_rx_bound(
                old(self)@.out_wmax as nat,
                old(self)@.pad_pkts_enabled,
            ),
    {
        append_from(&mut self.rx_buffer, chunk, 0);
        assert(chunk@.subrange(0, chunk@.len() as int) =~= chunk@);
        let ghost buf = self.rx_buffer@;
        let ghost last0 = self.last_timestamp64;
        let chan = self.channel_index;
        let ts = self.timestamp_enabled;
        let wmax = self.out_wmax;
        let pad = self.pad_pkts_enabled;
        let mut last = self.last_timestamp64;
        let mut frames: Vec<CanFrame> = Vec::new();
        let mut offset: usize = 0;
        assert(buf.subrange(0, buf.len() as int) =~= buf);
        assert(spec_views(frames@) + spec_scan_rx(buf, chan, ts, last0, wmax as nat, pad).frames
            =~= spec_scan_rx(buf, chan, ts, last0, wmax as nat, pad).frames);
        loop
            invariant
                offset <= buf.len(),
                self.rx_buffer@ == buf,
                spec_all_wf(frames@),
                spec_scan_rx(buf, chan, ts, last0, wmax as nat, pad).frames == spec_views(frames@)
                    + spec_scan_rx(
                    buf.subrange(offset as int, buf.len() as int),
                    chan,
                    ts,
                    last,
                    wmax as nat,
                    pad,
                ).frames,
                spec_scan_rx(buf, chan, ts, last0, wmax as nat, pad).rest == spec_scan_rx(
                    buf.subrange(offset as int, buf.len() as int),
                    chan,
                    ts,
                    last,
                    wmax as nat,
                    pad,
                ).rest,
                spec_scan_rx(buf, chan, ts, last0, wmax as nat, pad).last == spec_scan_rx(
                    buf.subrange(offset as int, buf.len() as int),
                    chan,
                    ts,
                    last,
                    wmax as nat,
                    pad,
                ).last,
            ensures
                offset <= buf.len(),
                self.rx_buffer@ == buf,
                spec_all_wf(frames@),
                spec_scan_rx(buf, chan, ts, last0, wmax as nat, pad).frames == spec_views(frames@),
                spec_scan_rx(buf, chan, ts, last0, wmax as nat, pad).rest == buf.subrange(
                    offset as int,
                    buf.len() as int,
                ),
                spec_scan_rx(buf, chan, ts, last0, wmax as nat, pad).last == last,
                spec_parse_host_frame(
                    buf.subrange(offset as int, buf.len() as int),
                    chan,
                    ts,
                    last,
                    wmax as nat,
                    pad,
                ) is Incomplete,
            decreases buf.len() - offset,
        {
            let pending = vstd::slice::slice_subrange(self.rx_buffer.as_slice(), offset, self.rx_buffer.len());
            let ghost before_frames = frames@;
            let ghost before_last = last;
            match parse_host_frame_at(pending, chan, ts, &mut last, wmax, pad) {
                None => {
                    proof {
                        assert(spec_views(frames@) + Seq::<FrameView>::empty() =~= spec_views(frames@));
                    }
                    break;
                },
                Some((maybe_frame, consumed)) => {
                    proof {
                        assert(pending@.subrange(consumed as int, pending@.len() as int) =~= buf.subrange(
                            offset + consumed,
                            buf.len() as int,
                        ));
                    }
                    match maybe_frame {
                        Some(frame) => {
                            frames.push(frame);
                            proof {
                                let tail = spec_scan_rx(
                                    buf.subrange(offset + consumed, buf.len() as int),
                                    chan,
                                    ts,
                                    last,
                                    wmax as nat,
                                    pad,
                                );
                                assert(spec_views(frames@) =~= spec_views(before_frames) + seq![frame@]);
                                assert(spec_views(frames@) + tail.frames =~= spec_views(before_frames) + (
                                seq![frame@] + tail.frames));
                            }
                        },
                        None => {},
                    }
                    offset = offset + consumed;
                },
            }
        }
        proof {
            let rest = buf.subrange(offset as int, buf.len() as int);
            if rest.len() >= 12 && rest[8] <= 15 {
                lemma_wire_len_bounds(rest[8], ts, wmax as nat, pad);
            }
        }
        let rest = copy_range(self.rx_buffer.as_slice(), offset, self.rx_buffer.len());
        self.rx_buffer = rest;
        self.last_timestamp64 = last;
        frames
    }

    /// What to do about a failed bulk write before the error goes back to
    /// the caller: a timeout or a stall clears the halt, and a stall also
    /// takes the channel through reset and start.
    pub fn bulk_write(error: DriverError) -> (r: WriteRecovery)
        ensures
            r.clear_halt == (error == DriverError::Timeout || error == DriverError::Stall),
            r.restart == (error == DriverError::Stall),
    {
        match error {
            DriverError::Timeout => WriteRecovery { clear_halt: true, restart: false },
            DriverError::Stall => WriteRecovery { clear_halt: true, restart: true },
            _ => WriteRecovery { clear_halt: false, restart: false },
        }
    }

    /// The two mode requests that bring the channel back after a stall:
    /// reset, then start with the flags the channel was started with.
    pub fn recover_after_stall(&self) -> (r: (ControlOut, ControlOut))
        ensures
            spec_is_control_out(
                r.0,
                GS_USB_BREQ_MODE,
                self@.channel_index as u16,
                self@.iface as u16,
                spec_encode_mode(GS_CAN_MODE_RESET, 0),
            ),
            spec_is_control_out(
                r.1,
                GS_USB_BREQ_MODE,
                self@.channel_index as u16,
                self@.iface as u16,
                spec_encode_mode(GS_CAN_MODE_START, self@.mode_flags),
            ),
    {
        (
            mode_request(self.channel_index, self.iface, GS_CAN_MODE_RESET, 0),
            mode_request(self.channel_index, self.iface, GS_CAN_MODE_START, self.mode_flags),
        )
    }
}

} // verus!
