//! What the receive path makes of the byte stream of a conforming adapter.

use vstd::prelude::*;
use crate::bytes::lemma_le32_round_trip;
use crate::bytes::spec_le32_at;
use crate::bytes::spec_le32_bytes;
use crate::can::spec_dlc_to_len;
use crate::can::spec_frame_valid;
use crate::can::FrameView;
use super::constants::GS_CAN_ECHO_ID_UNUSED;
use super::driver::lemma_rx_frame_of_tx;
use super::event_loop::spec_scan_rx;
use super::driver::spec_wire_id;
use super::event_loop::RxScan;
use super::frames::lemma_wire_len_bounds;
use super::frames::spec_extend_timestamp;
use super::frames::spec_last_after;
use super::frames::spec_parse_host_frame;
use super::frames::spec_rx_base;
use super::frames::spec_rx_wire_len;
use super::frames::RxStep;

verus! {

/// One frame as a conforming adapter puts it on the bulk-in endpoint.
pub struct DeviceFrame {
    /// The frame, without a timestamp.
    pub frame: FrameView,
    /// The echo id: that of a frame off the bus, or the one the host gave
    /// the frame that is confirmed.
    pub echo_id: u32,
    /// The reading of the adapter's clock, sent where timestamps are on.
    pub ts32: u32,
}

/// Whether an adapter can send the frame and the host read it back: the
/// frame obeys the frame rules and has no timestamp of its own, and an error
/// frame keeps to eleven identifier bits.
pub open spec fn spec_sendable(d: DeviceFrame) -> bool {
    &&& spec_frame_valid(d.frame)
    &&& d.frame.timestamp is None
    &&& (d.frame.error ==> d.frame.id <= 0x7FF)
}

/// A run of zero bytes.
pub open spec fn spec_zeros(n: int) -> Seq<u8> {
    Seq::new((if n >= 0 { n } else { 0 }) as nat, |i: int| 0u8)
}

/// The bytes of one frame on the wire: header, payload, fill up to the end
/// of the data area, the timestamp where timestamps are on, and fill up to
/// the wire length.
pub open spec fn spec_device_bytes(
    d: DeviceFrame,
    channel_index: u8,
    timestamp_enabled: bool,
    out_wmax: nat,
    pad: bool,
) -> Seq<u8> {
    let f = d.frame;
    let base = spec_rx_base(f.dlc);
    let wire = spec_rx_wire_len(f.dlc, timestamp_enabled, out_wmax, pad);
    let area = spec_le32_bytes(d.echo_id) + spec_le32_bytes(spec_wire_id(f)) + seq![
        f.dlc,
        channel_index,
        0u8,
        0u8,
    ] + f.data + spec_zeros(base - 12 - f.data.len());
    let body = if timestamp_enabled { area + spec_le32_bytes(d.ts32) } else { area };
    body + spec_zeros(wire - body.len())
}

/// The bytes of a run of frames on the wire, one after the other.
pub open spec fn spec_device_stream(
    frames: Seq<DeviceFrame>,
    channel_index: u8,
    timestamp_enabled: bool,
    out_wmax: nat,
    pad: bool,
) -> Seq<u8>
    decreases frames.len(),
{
    if frames.len() == 0 {
        Seq::empty()
    } else {
        spec_device_bytes(frames[0], channel_index, timestamp_enabled, out_wmax, pad) + spec_device_stream(
            frames.drop_first(),
            channel_index,
            timestamp_enabled,
            out_wmax,
            pad,
        )
    }
}

/// The frame that the host hands out for a frame off the bus: the frame,
/// with the extended timestamp where timestamps are on.
pub open spec fn spec_received(d: DeviceFrame, timestamp_enabled: bool, last: Option<u64>) -> FrameView {
    FrameView {
        timestamp: if timestamp_enabled {
            Some(spec_extend_timestamp(last, d.ts32))
        } else {
            None
        },
        ..d.frame
    }
}

/// The last timestamp after a frame: it moves on with a frame off the bus
/// where timestamps are on.
pub open spec fn spec_last_after_frame(d: DeviceFrame, timestamp_enabled: bool, last: Option<u64>) -> Option<
    u64,
> {
    if d.echo_id == GS_CAN_ECHO_ID_UNUSED && timestamp_enabled {
        Some(spec_extend_timestamp(last, d.ts32))
    } else {
        last
    }
}

/// The frames that the host hands out for a run of frames on the wire: those
/// off the bus, in order, each with its timestamp.
pub open spec fn spec_expected(frames: Seq<DeviceFrame>, timestamp_enabled: bool, last: Option<u64>) -> Seq<
    FrameView,
>
    decreases frames.len(),
{
    if frames.len() == 0 {
        Seq::empty()
    } else {
        let tail = spec_expected(
            frames.drop_first(),
            timestamp_enabled,
            spec_last_after_frame(frames[0], timestamp_enabled, last),
        );
        if frames[0].echo_id == GS_CAN_ECHO_ID_UNUSED {
            seq![spec_received(frames[0], timestamp_enabled, last)] + tail
        } else {
            tail
        }
    }
}

/// The last timestamp after a run of frames.
pub open spec fn spec_last_after_all(frames: Seq<DeviceFrame>, timestamp_enabled: bool, last: Option<u64>) -> Option<
    u64,
>
    decreases frames.len(),
{
    if frames.len() == 0 {
        last
    } else {
        spec_last_after_all(
            frames.drop_first(),
            timestamp_enabled,
            spec_last_after_frame(frames[0], timestamp_enabled, last),
        )
    }
}

/// Where the fields of a frame on the wire lie.
#[verifier::rlimit(40)]
proof fn lemma_device_layout(d: DeviceFrame, channel_index: u8, timestamp_enabled: bool, out_wmax: nat, pad: bool)
    requires
        spec_sendable(d),
    ensures
        ({
            let bytes = spec_device_bytes(d, channel_index, timestamp_enabled, out_wmax, pad);
            let base = spec_rx_base(d.frame.dlc) as int;
            &&& bytes.len() == spec_rx_wire_len(d.frame.dlc, timestamp_enabled, out_wmax, pad)
            &&& bytes.len() >= base + (if timestamp_enabled { 4int } else { 0int })
            &&& spec_le32_at(bytes, 0) == d.echo_id
            &&& spec_le32_at(bytes, 4) == spec_wire_id(d.frame)
            &&& bytes[8] == d.frame.dlc
            &&& bytes[9] == channel_index
            &&& bytes.subrange(12, 12 + d.frame.data.len() as int) == d.frame.data
            &&& (timestamp_enabled ==> spec_le32_at(bytes, base) == d.ts32)
        }),
{
    let f = d.frame;
    let bytes = spec_device_bytes(d, channel_index, timestamp_enabled, out_wmax, pad);
    let base = spec_rx_base(f.dlc) as int;
    lemma_wire_len_bounds(f.dlc, timestamp_enabled, out_wmax, pad);
    lemma_le32_round_trip(d.echo_id);
    lemma_le32_round_trip(spec_wire_id(f));
    lemma_le32_round_trip(d.ts32);
    let e = spec_le32_bytes(d.echo_id);
    let w = spec_le32_bytes(spec_wire_id(f));
    let t = spec_le32_bytes(d.ts32);
    let area = e + w + seq![f.dlc, channel_index, 0u8, 0u8] + f.data + spec_zeros(base - 12 - f.data.len());
    assert(area.len() == base);
    assert(area[0] == e[0] && area[1] == e[1] && area[2] == e[2] && area[3] == e[3]);
    assert(area[4] == w[0] && area[5] == w[1] && area[6] == w[2] && area[7] == w[3]);
    assert(area[8] == f.dlc && area[9] == channel_index);
    assert(area.subrange(12, 12 + f.data.len() as int) =~= f.data);
    let body = if timestamp_enabled { area + t } else { area };
    assert(bytes == body + spec_zeros(spec_rx_wire_len(f.dlc, timestamp_enabled, out_wmax, pad) - body.len()));
    assert(bytes.subrange(0, base) =~= area);
    assert(bytes.subrange(12, 12 + f.data.len() as int) =~= area.subrange(12, 12 + f.data.len() as int));
    assert(bytes[0] == area[0] && bytes[1] == area[1] && bytes[2] == area[2] && bytes[3] == area[3]);
    assert(bytes[4] == area[4] && bytes[5] == area[5] && bytes[6] == area[6] && bytes[7] == area[7]);
    assert(bytes[8] == area[8] && bytes[9] == area[9]);
    if timestamp_enabled {
        assert(bytes[base] == t[0] && bytes[base + 1] == t[1] && bytes[base + 2] == t[2] && bytes[base + 3]
            == t[3]);
    }
}

/// The decision on a stream that starts with a whole frame of a conforming
/// adapter: the frame takes exactly its wire length, and it is handed out
/// if it came off the bus and skipped if it confirms a transmission.
#[verifier::rlimit(40)]
pub proof fn lemma_step_on_device_frame(
    d: DeviceFrame,
    rest: Seq<u8>,
    channel_index: u8,
    timestamp_enabled: bool,
    last: Option<u64>,
    out_wmax: nat,
    pad: bool,
)
    requires
        spec_sendable(d),
    ensures
        ({
            let bytes = spec_device_bytes(d, channel_index, timestamp_enabled, out_wmax, pad);
            spec_parse_host_frame(bytes + rest, channel_index, timestamp_enabled, last, out_wmax, pad) == (
            if d.echo_id == GS_CAN_ECHO_ID_UNUSED {
                RxStep::Frame(spec_received(d, timestamp_enabled, last), bytes.len())
            } else {
                RxStep::Skip(bytes.len())
            })
        }),
{
    let f = d.frame;
    let bytes = spec_device_bytes(d, channel_index, timestamp_enabled, out_wmax, pad);
    let stream = bytes + rest;
    let base = spec_rx_base(f.dlc) as int;
    lemma_device_layout(d, channel_index, timestamp_enabled, out_wmax, pad);
    lemma_wire_len_bounds(f.dlc, timestamp_enabled, out_wmax, pad);
    lemma_rx_frame_of_tx(f);
    assert(stream.len() >= bytes.len());
    assert(stream.subrange(0, bytes.len() as int) =~= bytes);
    assert(spec_le32_at(stream, 0) == spec_le32_at(bytes, 0));
    assert(spec_le32_at(stream, 4) == spec_le32_at(bytes, 4));
    assert(stream[8] == bytes[8] && stream[9] == bytes[9]);
    assert(f.data.len() == spec_dlc_to_len(f.dlc));
    assert(stream.subrange(12, 12 + spec_dlc_to_len(f.dlc) as int) =~= bytes.subrange(
        12,
        12 + f.data.len() as int,
    ));
    if timestamp_enabled {
        assert(spec_le32_at(stream, base) == spec_le32_at(bytes, base));
    }
}

/// The receive path hands out exactly the frames off the bus that a
/// conforming adapter sent, in order and each with its extended timestamp;
/// it drops the transmit confirmations among them without a trace; and it
/// uses up every byte of the stream.
pub proof fn lemma_conforming_stream(
    frames: Seq<DeviceFrame>,
    channel_index: u8,
    timestamp_enabled: bool,
    last: Option<u64>,
    out_wmax: nat,
    pad: bool,
)
    requires
        forall|i: int| 0 <= i < frames.len() ==> spec_sendable(#[trigger] frames[i]),
    ensures
        spec_scan_rx(
            spec_device_stream(frames, channel_index, timestamp_enabled, out_wmax, pad),
            channel_index,
            timestamp_enabled,
            last,
            out_wmax,
            pad,
        ) == (RxScan {
            frames: spec_expected(frames, timestamp_enabled, last),
            rest: Seq::empty(),
            last: spec_last_after_all(frames, timestamp_enabled, last),
        }),
    decreases frames.len(),
{
    let stream = spec_device_stream(frames, channel_index, timestamp_enabled, out_wmax, pad);
    if frames.len() == 0 {
        assert(stream =~= Seq::<u8>::empty());
    } else {
        let d = frames[0];
        let more = frames.drop_first();
        let bytes = spec_device_bytes(d, channel_index, timestamp_enabled, out_wmax, pad);
        let rest = spec_device_stream(more, channel_index, timestamp_enabled, out_wmax, pad);
        assert(spec_sendable(d));
        assert forall|i: int| 0 <= i < more.len() implies spec_sendable(#[trigger] more[i]) by {
            assert(more[i] == frames[i + 1]);
        }
        lemma_step_on_device_frame(d, rest, channel_index, timestamp_enabled, last, out_wmax, pad);
        lemma_wire_len_bounds(d.frame.dlc, timestamp_enabled, out_wmax, pad);
        lemma_device_layout(d, channel_index, timestamp_enabled, out_wmax, pad);
        let next_last = spec_last_after_frame(d, timestamp_enabled, last);
        lemma_conforming_stream(more, channel_index, timestamp_enabled, next_last, out_wmax, pad);
        assert(stream == bytes + rest);
        assert(stream.subrange(bytes.len() as int, stream.len() as int) =~= rest);
        let step = spec_parse_host_frame(stream, channel_index, timestamp_enabled, last, out_wmax, pad);
        assert(spec_last_after(step, last) == next_last || d.echo_id != GS_CAN_ECHO_ID_UNUSED);
    }
}

} // verus!
