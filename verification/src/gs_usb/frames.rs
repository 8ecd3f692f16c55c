//! Decoding of host frames received on the bulk-in endpoint.

use vstd::prelude::*;
use vstd::arithmetic::div_mod::lemma_small_mod;
use vstd::arithmetic::div_mod::lemma_mod_pos_bound;
use crate::bytes::read_le32;
use crate::bytes::spec_le32_at;
use crate::bytes::copy_range;
use crate::can::CanFrame;
use crate::can::FrameView;
use crate::can::spec_dlc_to_len;
use crate::can::spec_standard;
use crate::can::spec_extended;
use crate::can::spec_remote;
use crate::can::spec_error;
use crate::can::spec_frame_valid;
use super::constants::GS_HEADER_LEN;
use super::constants::GS_CAN_ECHO_ID_UNUSED;

verus! {

/// Payload length in bytes for a length code; zero for codes above 15.
pub fn dlc_to_len(dlc: u8) -> (len: usize)
    ensures
        len == spec_dlc_to_len(dlc),
        len <= 64,
{
    if dlc <= 8 {
        dlc as usize
    } else if dlc == 9 {
        12
    } else if dlc == 10 {
        16
    } else if dlc == 11 {
        20
    } else if dlc == 12 {
        24
    } else if dlc == 13 {
        32
    } else if dlc == 14 {
        48
    } else if dlc == 15 {
        64
    } else {
        0
    }
}

/// The least multiple of eight that is not below `x`.
pub open spec fn spec_roundup8(x: nat) -> nat {
    if x % 8 == 0 {
        x
    } else {
        (x + 8 - x % 8) as nat
    }
}

/// Rounds `x` up to a multiple of eight.
pub fn roundup8(x: usize) -> (r: usize)
    requires
        x + 7 <= usize::MAX,
    ensures
        r == spec_roundup8(x as nat),
{
    (x + 7) / 8 * 8
}

/// The least multiple of `m` that is not below `x`; `x` itself where `m` is
/// zero.
pub open spec fn spec_align_up(x: nat, m: nat) -> nat {
    if m == 0 || x % m == 0 {
        x
    } else {
        (x - x % m + m) as nat
    }
}

/// Rounds `x` up to a multiple of `m`.
pub fn align_up(x: usize, m: usize) -> (r: usize)
    requires
        spec_align_up(x as nat, m as nat) <= usize::MAX,
    ensures
        r == spec_align_up(x as nat, m as nat),
{
    if m == 0 {
        return x;
    }
    let rem: usize = x % m;
    proof {
        vstd::arithmetic::div_mod::lemma_mod_decreases(x as nat, m as nat);
    }
    if rem == 0 {
        x
    } else {
        x - rem + m
    }
}

/// The result of aligning is a multiple of the alignment, not below the
/// input and less than one alignment step above it.
pub proof fn lemma_align_up_is_least_multiple(x: nat, m: nat)
    requires
        m > 0,
    ensures
        spec_align_up(x, m) % m == 0,
        x <= spec_align_up(x, m) < x + m,
{
    lemma_mod_pos_bound(x as int, m as int);
    if x % m != 0 {
        vstd::arithmetic::div_mod::lemma_fundamental_div_mod(x as int, m as int);
        let q = x as int / m as int;
        assert(x - x % m + m == m * (q + 1)) by (nonlinear_arith)
            requires
                x == m * q + x % m,
        ;
        vstd::arithmetic::div_mod::lemma_mod_multiples_basic(q + 1, m as int);
        assert(m * (q + 1) == (q + 1) * m) by (nonlinear_arith);
    }
}

/// Whether the first twelve bytes can be the header of a frame for channel
/// `expected_chan`: they are all there, the length code is one of the
/// sixteen, and the channel is the expected one.
pub open spec fn spec_plausible_header(bytes: Seq<u8>, expected_chan: u8) -> bool {
    bytes.len() >= GS_HEADER_LEN && bytes[8] <= 15 && bytes[9] == expected_chan
}

/// Tests a header for plausibility.
pub fn plausible_header(bytes: &[u8], expected_chan: u8) -> (ok: bool)
    ensures
        ok == spec_plausible_header(bytes@, expected_chan),
{
    if bytes.len() < GS_HEADER_LEN {
        return false;
    }
    let dlc = bytes[8];
    let chan = bytes[9];
    if dlc > 15 {
        return false;
    }
    if chan != expected_chan {
        return false;
    }
    true
}

/// The 64-bit timestamp that continues `last` with the 32-bit reading
/// `ts32`: the upper word of `last`, moved on by one where the reading is
/// below the lower word of `last`, over the reading itself. The upper word
/// wraps to zero after its largest value.
pub open spec fn spec_extend_timestamp(last: Option<u64>, ts32: u32) -> u64 {
    match last {
        None => ts32 as u64,
        Some(prev) => {
            let prev32 = prev as int % 0x1_0000_0000;
            let upper = prev as int - prev32;
            let bumped = if (ts32 as int) < prev32 {
                (upper + 0x1_0000_0000) % 0x1_0000_0000_0000_0000
            } else {
                upper
            };
            (bumped + ts32 as int) as u64
        },
    }
}

/// Extends a 32-bit device timestamp to 64 bits. The low word of the result
/// is the reading, and unless the upper word is at its largest value the
/// result is not below the timestamp before it.
pub fn extend_timestamp(last: Option<u64>, ts32: u32) -> (ts64: u64)
    ensures
        ts64 == spec_extend_timestamp(last, ts32),
        ts64 as int % 0x1_0000_0000 == ts32 as int,
        last is None ==> ts64 == ts32,
        last is Some && last->0 < 0xFFFF_FFFF_0000_0000 ==> ts64 >= last->0,
        last is Some && last->0 < 0xFFFF_FFFF_0000_0000 ==> ts64 - last->0 < 0x2_0000_0000,
{
    match last {
        None => ts32 as u64,
        Some(prev) => {
            let prev32: u64 = prev % 0x1_0000_0000;
            let mut upper: u64 = prev - prev32;
            if (ts32 as u64) < prev32 {
                if upper == 0xFFFF_FFFF_0000_0000 {
                    upper = 0;
                } else {
                    upper = upper + 0x1_0000_0000;
                }
            }
            upper + ts32 as u64
        },
    }
}

/// The 64-bit timestamps that a run of 32-bit readings extends to, each
/// continuing the one before it.
pub open spec fn spec_extend_all(last: Option<u64>, ticks: Seq<u32>) -> Seq<u64>
    decreases ticks.len(),
{
    if ticks.len() == 0 {
        Seq::empty()
    } else {
        let first = spec_extend_timestamp(last, ticks[0]);
        seq![first] + spec_extend_all(Some(first), ticks.drop_first())
    }
}

/// Over any run of readings, every extended timestamp has its reading as
/// the low word, and no timestamp is below the one before it as long as
/// the upper word has not reached its largest value.
#[verifier::rlimit(40)]
pub proof fn lemma_extension_is_monotone(last: Option<u64>, ticks: Seq<u32>)
    ensures
        spec_extend_all(last, ticks).len() == ticks.len(),
        forall|i: int|
            0 <= i < ticks.len() ==> (#[trigger] spec_extend_all(last, ticks)[i]) as int % 0x1_0000_0000
                == ticks[i] as int,
        forall|i: int|
            0 <= i < ticks.len() - 1 && (#[trigger] spec_extend_all(last, ticks)[i])
                < 0xFFFF_FFFF_0000_0000 ==> spec_extend_all(last, ticks)[i] <= spec_extend_all(
                last,
                ticks,
            )[i + 1],
        ticks.len() > 0 && last is Some && last->0 < 0xFFFF_FFFF_0000_0000 ==> spec_extend_all(
            last,
            ticks,
        )[0] >= last->0,
    decreases ticks.len(),
{
    if ticks.len() > 0 {
        let first = spec_extend_timestamp(last, ticks[0]);
        let rest = ticks.drop_first();
        let tail = spec_extend_all(Some(first), rest);
        let all = spec_extend_all(last, ticks);
        lemma_extension_is_monotone(Some(first), rest);
        assert(all =~= seq![first] + tail);
        assert forall|i: int| 0 <= i < ticks.len() implies (#[trigger] all[i]) as int % 0x1_0000_0000
            == ticks[i] as int by {
            if i > 0 {
                assert(all[i] == tail[i - 1]);
                assert(rest[i - 1] == ticks[i]);
            }
        }
        assert forall|i: int| 0 <= i < ticks.len() - 1 && (#[trigger] all[i]) < 0xFFFF_FFFF_0000_0000 implies all[i]
            <= all[i + 1] by {
            assert(all[i + 1] == tail[i]);
            if i > 0 {
                assert(all[i] == tail[i - 1]);
            }
        }
    }
}

/// Whether a run of true times moves on slowly from `prev`: no time is
/// before the one before it, nor 2^32 or more after it.
pub open spec fn spec_slow_from(prev: u64, times: Seq<u64>) -> bool
    decreases times.len(),
{
    times.len() == 0 || (prev <= times[0] && times[0] - prev < 0x1_0000_0000 && spec_slow_from(
        times[0],
        times.drop_first(),
    ))
}

/// The low words of a run of times.
pub open spec fn spec_low_words(times: Seq<u64>) -> Seq<u32> {
    times.map_values(|t: u64| (t % 0x1_0000_0000) as u32)
}

/// A time less than 2^32 after the last timestamp is what its low word
/// extends to.
#[verifier::rlimit(40)]
proof fn lemma_extend_step(prev: u64, next: u64)
    requires
        prev <= next,
        next - prev < 0x1_0000_0000,
    ensures
        spec_extend_timestamp(Some(prev), (next % 0x1_0000_0000) as u32) == next,
{
    let a = prev as int / 0x1_0000_0000;
    let p = prev as int % 0x1_0000_0000;
    let b = next as int / 0x1_0000_0000;
    let q = next as int % 0x1_0000_0000;
    assert(prev as int == a * 0x1_0000_0000 + p);
    assert(next as int == b * 0x1_0000_0000 + q);
    let upper = prev as int - p;
    assert(upper == a * 0x1_0000_0000);
    if q < p {
        assert(b == a + 1);
        assert(upper + 0x1_0000_0000 == b * 0x1_0000_0000);
        assert(0 <= upper + 0x1_0000_0000 < 0x1_0000_0000_0000_0000);
        assert((upper + 0x1_0000_0000) % 0x1_0000_0000_0000_0000 == upper + 0x1_0000_0000);
    } else {
        assert(b == a);
    }
}

/// Where the readings are the low words of true times that move on slowly
/// from the last timestamp, the extended timestamps are the true times,
/// wraps of the low word included.
pub proof fn lemma_extension_tracks_time(prev: u64, times: Seq<u64>)
    requires
        spec_slow_from(prev, times),
    ensures
        spec_extend_all(Some(prev), spec_low_words(times)) == times,
    decreases times.len(),
{
    let ticks = spec_low_words(times);
    if times.len() > 0 {
        let rest = times.drop_first();
        lemma_extend_step(prev, times[0]);
        lemma_extension_tracks_time(times[0], rest);
        assert(ticks.drop_first() =~= spec_low_words(rest));
        assert(seq![times[0]] + rest =~= times);
    } else {
        assert(spec_extend_all(Some(prev), ticks) =~= times);
    }
}

/// Bytes from the start of a frame to the end of its data area: the header
/// and the payload, the payload filled up to eight bytes or, beyond eight,
/// to a multiple of eight.
pub open spec fn spec_rx_base(dlc: u8) -> nat {
    let data_len = spec_dlc_to_len(dlc);
    if data_len <= 8 {
        20
    } else {
        12 + spec_roundup8(data_len)
    }
}

/// Bytes that a frame with length code `dlc` takes on the wire: data area,
/// timestamp where enabled, and fill up to the packet size where the
/// adapter pads.
pub open spec fn spec_rx_wire_len(dlc: u8, timestamp_enabled: bool, out_wmax: nat, pad: bool) -> nat {
    let plain = spec_rx_base(dlc) + if timestamp_enabled { 4nat } else { 0nat };
    if pad && out_wmax > 0 {
        spec_align_up(plain, out_wmax)
    } else {
        plain
    }
}

/// Bytes that must have arrived before a frame with length code `dlc` is
/// decided on. With a timestamp or with padding that is the whole wire
/// length. Otherwise it is the header and the payload proper, and for an
/// empty payload the eight fill bytes as well.
pub open spec fn spec_rx_needed(dlc: u8, timestamp_enabled: bool, out_wmax: nat, pad: bool) -> nat {
    if timestamp_enabled || (pad && out_wmax > 0) {
        spec_rx_wire_len(dlc, timestamp_enabled, out_wmax, pad)
    } else if spec_dlc_to_len(dlc) == 0 {
        20
    } else {
        12 + spec_dlc_to_len(dlc)
    }
}

/// Whether the extended-format flag is set in a wire identifier.
pub open spec fn spec_has_eff(raw_id: u32) -> bool {
    raw_id >= 0x8000_0000
}

/// Whether the remote-request flag is set in a wire identifier.
pub open spec fn spec_has_rtr(raw_id: u32) -> bool {
    (raw_id / 0x4000_0000) % 2 == 1
}

/// Whether the error flag is set in a wire identifier.
pub open spec fn spec_has_err(raw_id: u32) -> bool {
    (raw_id / 0x2000_0000) % 2 == 1
}

/// The frame that a wire identifier, a length code and a payload stand for,
/// without a timestamp. The error flag wins over the remote flag, which wins
/// over the format flag.
pub open spec fn spec_rx_frame(raw_id: u32, dlc: u8, payload: Seq<u8>) -> FrameView {
    if spec_has_err(raw_id) {
        spec_error(raw_id % 0x2000_0000)
    } else if spec_has_rtr(raw_id) {
        let len = if dlc <= 8 { dlc as nat } else { 8nat };
        if spec_has_eff(raw_id) {
            spec_remote(raw_id % 0x2000_0000, len, true)
        } else {
            spec_remote(raw_id % 0x800, len, false)
        }
    } else if spec_has_eff(raw_id) {
        spec_extended(raw_id % 0x2000_0000, payload)
    } else {
        spec_standard(raw_id % 0x800, payload)
    }
}

/// What one look at the start of the accumulator decides.
pub enum RxStep {
    /// More bytes must arrive first.
    Incomplete,
    /// This many bytes are dropped and no frame is handed out.
    Skip(nat),
    /// A frame is handed out and this many bytes are dropped.
    Frame(FrameView, nat),
}

/// The decision on the bytes at the start of the accumulator.
///
/// A header that is not all there waits. A length code above 15 drops one
/// byte. Then the frame waits until the bytes it needs are there. A frame for
/// another channel drops one byte. Whatever is left takes its wire length, or
/// what has arrived of it, out of the accumulator: without a frame where the
/// echo id marks a transmit confirmation, with the decoded frame otherwise.
pub open spec fn spec_parse_host_frame(
    bytes: Seq<u8>,
    channel_index: u8,
    timestamp_enabled: bool,
    last_ts64: Option<u64>,
    out_wmax: nat,
    pad: bool,
) -> RxStep {
    if bytes.len() < 12 {
        RxStep::Incomplete
    } else if bytes[8] > 15 {
        RxStep::Skip(1)
    } else if bytes.len() < spec_rx_needed(bytes[8], timestamp_enabled, out_wmax, pad) {
        RxStep::Incomplete
    } else if bytes[9] != channel_index {
        RxStep::Skip(1)
    } else {
        let dlc = bytes[8];
        let wire = spec_rx_wire_len(dlc, timestamp_enabled, out_wmax, pad);
        let consumed = if wire <= bytes.len() { wire } else { bytes.len() };
        if spec_le32_at(bytes, 0) != GS_CAN_ECHO_ID_UNUSED {
            RxStep::Skip(consumed)
        } else {
            let plain = spec_rx_frame(
                spec_le32_at(bytes, 4),
                dlc,
                bytes.subrange(12, 12 + spec_dlc_to_len(dlc) as int),
            );
            let timestamp = if timestamp_enabled {
                Some(spec_extend_timestamp(last_ts64, spec_le32_at(bytes, spec_rx_base(dlc) as int)))
            } else {
                None
            };
            RxStep::Frame(FrameView { timestamp, ..plain }, consumed)
        }
    }
}

/// The last timestamp after a step: that of the frame handed out, if it has
/// one, and the one before otherwise.
pub open spec fn spec_last_after(step: RxStep, last_ts64: Option<u64>) -> Option<u64> {
    match step {
        RxStep::Frame(f, _) => if f.timestamp is Some { f.timestamp } else { last_ts64 },
        _ => last_ts64,
    }
}

/// Every decision but waiting drops at least one byte and never more than
/// have arrived; a frame handed out obeys the frame rules, so its payload is
/// as long as its length code says, and it came off the bus for this channel.
#[verifier::rlimit(40)]
pub proof fn lemma_parse_progress(
    bytes: Seq<u8>,
    channel_index: u8,
    timestamp_enabled: bool,
    last_ts64: Option<u64>,
    out_wmax: nat,
    pad: bool,
)
    ensures
        match spec_parse_host_frame(bytes, channel_index, timestamp_enabled, last_ts64, out_wmax, pad) {
            RxStep::Incomplete => bytes.len() < 12 || bytes.len() < spec_rx_needed(
                bytes[8],
                timestamp_enabled,
                out_wmax,
                pad,
            ),
            RxStep::Skip(n) => 1 <= n <= bytes.len(),
            RxStep::Frame(f, n) => {
                &&& 12 <= n <= bytes.len()
                &&& spec_frame_valid(f)
                &&& f.data.len() == spec_dlc_to_len(f.dlc)
                &&& spec_le32_at(bytes, 0) == GS_CAN_ECHO_ID_UNUSED
                &&& bytes[9] == channel_index
            },
        },
{
    if bytes.len() >= 12 && bytes[8] <= 15 {
        let dlc = bytes[8];
        lemma_wire_len_bounds(dlc, timestamp_enabled, out_wmax, pad);
    }
}

/// A frame's wire length is at least twenty bytes and at least what must
/// arrive before the frame is decided on, and without padding at most
/// eighty.
pub proof fn lemma_wire_len_bounds(dlc: u8, timestamp_enabled: bool, out_wmax: nat, pad: bool)
    requires
        dlc <= 15,
    ensures
        20 <= spec_rx_base(dlc) <= 76,
        12 + spec_dlc_to_len(dlc) <= spec_rx_base(dlc),
        spec_rx_base(dlc) <= spec_rx_wire_len(dlc, timestamp_enabled, out_wmax, pad),
        12 <= spec_rx_needed(dlc, timestamp_enabled, out_wmax, pad) <= spec_rx_wire_len(
            dlc,
            timestamp_enabled,
            out_wmax,
            pad,
        ),
        !(pad && out_wmax > 0) ==> spec_rx_wire_len(dlc, timestamp_enabled, out_wmax, pad) <= 80,
        pad && out_wmax > 0 ==> spec_rx_wire_len(dlc, timestamp_enabled, out_wmax, pad) < 80 + out_wmax,
{
    if pad && out_wmax > 0 {
        let plain = spec_rx_base(dlc) + if timestamp_enabled { 4nat } else { 0nat };
        lemma_align_up_is_least_multiple(plain, out_wmax);
    }
}

/// Whether `r` is the executable form of the decision `step`.
pub open spec fn spec_step_returned(step: RxStep, r: Option<(Option<CanFrame>, usize)>) -> bool {
    match (step, r) {
        (RxStep::Incomplete, None) => true,
        (RxStep::Skip(n), Some((None, consumed))) => consumed == n,
        (RxStep::Frame(f, n), Some((Some(frame), consumed))) => frame@ == f && frame.wf() && consumed == n,
        _ => false,
    }
}

/// Decodes the frame at the start of `bytes`, the unconsumed part of the
/// receive accumulator.
///
/// Returns `None` where more bytes must arrive, and otherwise the number of
/// bytes to drop together with the frame to hand out, if there is one. The
/// last timestamp moves on only with a frame that carries one.
#[verifier::rlimit(40)]
pub fn parse_host_frame_at(
    bytes: &[u8],
    channel_index: u8,
    timestamp_enabled: bool,
    last_ts64: &mut Option<u64>,
    out_wmax: usize,
    pad_pkts_enabled: bool,
) -> (r: Option<(Option<CanFrame>, usize)>)
    ensures
        spec_step_returned(
            spec_parse_host_frame(
                bytes@,
                channel_index,
                timestamp_enabled,
                *old(last_ts64),
                out_wmax as nat,
                pad_pkts_enabled,
            ),
            r,
        ),
        *final(last_ts64) == spec_last_after(
            spec_parse_host_frame(
                bytes@,
                channel_index,
                timestamp_enabled,
                *old(last_ts64),
                out_wmax as nat,
                pad_pkts_enabled,
            ),
            *old(last_ts64),
        ),
        match r {
            Some((_, consumed)) => 1 <= consumed <= bytes@.len(),
            None => true,
        },
{
    if bytes.len() < GS_HEADER_LEN {
        return None;
    }
    let echo_id = read_le32(bytes, 0);
    let raw_id = read_le32(bytes, 4);
    let dlc = bytes[8];
    let chan = bytes[9];
    if dlc > 15 {
        return Some((None, 1));
    }
    let data_len = dlc_to_len(dlc);
    let aligned_payload: usize = if data_len <= 8 { 8 } else { roundup8(data_len) };
    let base: usize = GS_HEADER_LEN + aligned_payload;
    proof {
        lemma_wire_len_bounds(dlc, timestamp_enabled, out_wmax as nat, pad_pkts_enabled);
    }
    if data_len == 0 && bytes.len() < 20 {
        return None;
    }
    let mut consumed: usize = base;
    if timestamp_enabled {
        if bytes.len() < base + 4 {
            return None;
        }
        consumed = base + 4;
    }
    if pad_pkts_enabled && out_wmax > 0 {
        proof {
            lemma_mod_pos_bound(consumed as int, out_wmax as int);
            if consumed < out_wmax {
                lemma_small_mod(consumed as nat, out_wmax as nat);
            }
        }
        let padded = align_up(consumed, out_wmax);
        if bytes.len() < padded {
            return None;
        }
        consumed = padded;
    }
    if bytes.len() < GS_HEADER_LEN + data_len {
        return None;
    }
    if !plausible_header(bytes, channel_index) {
        return Some((None, 1));
    }
    if consumed > bytes.len() {
        consumed = bytes.len();
    }
    if echo_id != GS_CAN_ECHO_ID_UNUSED {
        return Some((None, consumed));
    }
    let data = copy_range(bytes, GS_HEADER_LEN, GS_HEADER_LEN + data_len);
    let built = if (raw_id / 0x2000_0000) % 2 == 1 {
        CanFrame::new_error(raw_id % 0x2000_0000)
    } else if (raw_id / 0x4000_0000) % 2 == 1 {
        let len: usize = if dlc <= 8 { dlc as usize } else { 8 };
        if raw_id >= 0x8000_0000 {
            CanFrame::new_remote(raw_id % 0x2000_0000, len, true)
        } else {
            CanFrame::new_remote(raw_id % 0x800, len, false)
        }
    } else if raw_id >= 0x8000_0000 {
        CanFrame::new_eff(raw_id % 0x2000_0000, data.as_slice())
    } else {
        CanFrame::new(raw_id % 0x800, data.as_slice())
    };
    match built {
        Ok(mut frame) => {
            if timestamp_enabled {
                let ts32 = read_le32(bytes, base);
                let ts64 = extend_timestamp(*last_ts64, ts32);
                *last_ts64 = Some(ts64);
                frame.set_timestamp(Some(ts64));
            }
            Some((Some(frame), consumed))
        },
        Err(_) => {
            // The identifier was cut to its width and the length came from a
            // length code, so the constructors cannot refuse.
            assert(false);
            None
        },
    }
}

} // verus!
