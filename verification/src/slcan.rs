//! The SLCAN line protocol: ASCII frames ended by a carriage return.

use vstd::prelude::*;
use crate::hex::spec_line_data;
use crate::hex::spec_line_data_ok;
use crate::hex::spec_hex_num;
use crate::hex::lemma_hex_num_bound;
use crate::hex::spec_pow16;
use crate::hex::parse_hex_digits;
use crate::hex::spec_hex_digit;
use crate::hex::spec_hex_fixed;
use crate::hex::hex_digit;
use crate::hex::push_hex_fixed;
use crate::hex::lemma_hex_round_trip;
use crate::hex::lemma_hex_fixed_len;
use crate::can::CanFrame;
use crate::can::FrameView;
use crate::can::spec_views;
use crate::can::spec_all_wf;
use crate::can::spec_standard;
use crate::can::spec_extended;
use crate::can::CAN_SFF_MASK;
use crate::can::CAN_EFF_MASK;
use crate::bytes::copy_range;
use crate::bytes::find_first;
use crate::bytes::spec_has_first;
use crate::bytes::spec_first_index;
use crate::bytes::append_from;
use crate::bytes::trim_ascii;
use crate::bytes::spec_trim;
use vstd::slice::slice_subrange;
use crate::bytes::spec_le32_at;
use crate::bytes::read_le32;
use crate::error::DriverError;

verus! {

/// The byte that ends every line.
pub const CR: u8 = 13;

/// Smallest plausible reply to a bitrate measurement, in bit/s.
pub const MIN_MEASURED_BITRATE: u32 = 5000;

/// The value of an ASCII decimal digit.
pub open spec fn spec_dec_val(c: u8) -> Option<int> {
    if 48 <= c <= 57 {
        Some(c - 48)
    } else {
        None
    }
}

/// The frame that a line with an identifier of `id_len` digits writes, if it
/// writes one. After the letter come the identifier, one decimal length
/// digit and that many pairs of payload digits. A line that is exactly eight
/// digits and the line end longer than that carries a timestamp, whose eight
/// digits are the low word under `high`; digits that are no number leave the
/// frame without one. The identifier must fit the format and the length must
/// be at most eight.
pub open spec fn spec_frame_line(high: u32, line: Seq<u8>, id_len: int, extended: bool) -> Option<FrameView> {
    let data_start = id_len + 2;
    if line.len() < data_start {
        None
    } else {
        let id = spec_hex_num(line.subrange(1, 1 + id_len));
        let len = spec_dec_val(line[1 + id_len]);
        if id is None || len is None {
            None
        } else if line.len() < data_start + 2 * len->0 {
            None
        } else if !spec_line_data_ok(line, data_start, len->0 as nat) {
            None
        } else if id->0 > (if extended { CAN_EFF_MASK } else { CAN_SFF_MASK }) || len->0 > 8 {
            None
        } else {
            let ts_start = data_start + 2 * len->0;
            let low = if line.len() == ts_start + 9 {
                spec_hex_num(line.subrange(ts_start, ts_start + 8))
            } else {
                None
            };
            let timestamp = match low {
                Some(l) => Some((high as int * 0x1_0000_0000 + l) as u64),
                None => None,
            };
            let data = spec_line_data(line, data_start, len->0 as nat);
            Some(
                FrameView {
                    timestamp,
                    ..if extended {
                        spec_extended(id->0 as u32, data)
                    } else {
                        spec_standard(id->0 as u32, data)
                    }
                },
            )
        }
    }
}

/// The frame that a line, line end included, writes: `t` starts a frame
/// with a three-digit identifier, `T` one with an eight-digit identifier,
/// and every other line writes none.
pub open spec fn spec_parse_slcan_line(high: u32, line: Seq<u8>) -> Option<FrameView> {
    if line.len() == 0 {
        None
    } else if line[0] == 116 {
        spec_frame_line(high, line, 3, false)
    } else if line[0] == 84 {
        spec_frame_line(high, line, 8, true)
    } else {
        None
    }
}

/// The high timestamp word after a line: one more, wrapping, after a line
/// that starts with `J`, and unchanged after any other.
pub open spec fn spec_high_after(high: u32, line: Seq<u8>) -> u32 {
    if line.len() > 0 && line[0] == 74 {
        if high == 0xFFFF_FFFF {
            0
        } else {
            (high + 1) as u32
        }
    } else {
        high
    }
}

#[verifier::rlimit(40)]
fn parse_frame_line(high: u32, line: &[u8], id_len: usize, extended: bool) -> (r: Option<CanFrame>)
    requires
        id_len == 3 || id_len == 8,
    ensures
        match spec_frame_line(high, line@, id_len as int, extended) {
            Some(f) => r is Some && r->0@ == f && r->0.wf(),
            None => r is None,
        },
{
    let data_start: usize = id_len + 2;
    if line.len() < data_start {
        return None;
    }
    let id = match parse_hex_digits(line, 1, 1 + id_len) {
        Some(id) => id,
        None => {
            return None;
        },
    };
    let c = line[1 + id_len];
    if c < 48 || c > 57 {
        return None;
    }
    let dlc: usize = (c - 48) as usize;
    if line.len() < data_start + dlc * 2 {
        return None;
    }
    let mut data: Vec<u8> = Vec::new();
    let mut i: usize = 0;
    while i < dlc
        invariant
            i <= dlc <= 9,
            data_start == id_len + 2,
            id_len <= 8,
            spec_hex_num(line@.subrange(1, 1 + id_len)) is Some,
            spec_dec_val(line@[1 + id_len]) == Some(dlc as int),
            data_start + dlc * 2 <= line@.len(),
            data@ == spec_line_data(line@, data_start as int, i as nat),
            spec_line_data_ok(line@, data_start as int, i as nat),
        decreases dlc - i,
    {
        let start: usize = data_start + i * 2;
        match parse_hex_digits(line, start, start + 2) {
            None => {
                proof {
                    let k = i as int;
                    assert(spec_hex_num(line@.subrange(data_start + 2 * k, data_start + 2 * k + 2)) is None);
                    assert(!spec_line_data_ok(line@, data_start as int, dlc as nat));
                }
                return None;
            },
            Some(b) => {
                proof {
                    lemma_hex_num_bound(line@.subrange(start as int, start + 2));
                    reveal_with_fuel(spec_pow16, 3);
                }
                data.push(b as u8);
            },
        }
        i += 1;
        assert(data@ =~= spec_line_data(line@, data_start as int, i as nat));
    }
    let ts_start: usize = data_start + dlc * 2;
    let timestamp: Option<u64> = if line.len() == ts_start + 9 {
        match parse_hex_digits(line, ts_start, ts_start + 8) {
            Some(low) => Some(high as u64 * 0x1_0000_0000 + low as u64),
            None => None,
        }
    } else {
        None
    };
    let built = if extended {
        CanFrame::new_eff(id, data.as_slice())
    } else {
        CanFrame::new(id, data.as_slice())
    };
    match built {
        Ok(mut frame) => {
            frame.set_timestamp(timestamp);
            Some(frame)
        },
        Err(_) => None,
    }
}

/// Parses one line, line end included. A line that starts with `J` moves the
/// high timestamp word on and gives no frame; a line that is no frame is
/// dropped.
pub fn parse_slcan_line_bytes(timestamp_high: &mut u32, line: &[u8]) -> (r: Option<CanFrame>)
    ensures
        match spec_parse_slcan_line(*old(timestamp_high), line@) {
            Some(f) => r is Some && r->0@ == f && r->0.wf(),
            None => r is None,
        },
        *final(timestamp_high) == spec_high_after(*old(timestamp_high), line@),
{
    if line.len() == 0 {
        return None;
    }
    let first = line[0];
    if first == 116 {
        parse_frame_line(*timestamp_high, line, 3, false)
    } else if first == 84 {
        parse_frame_line(*timestamp_high, line, 8, true)
    } else if first == 74 {
        *timestamp_high = if *timestamp_high == 0xFFFF_FFFF {
            0
        } else {
            *timestamp_high + 1
        };
        None
    } else {
        None
    }
}

/// Digits that a standard identifier is written with: as many as it needs,
/// and at least three.
pub open spec fn spec_hex_width(v: u32) -> nat {
    if v < 0x1000 {
        3
    } else if v < 0x1_0000 {
        4
    } else if v < 0x10_0000 {
        5
    } else if v < 0x100_0000 {
        6
    } else if v < 0x1000_0000 {
        7
    } else {
        8
    }
}

/// A length code in decimal.
pub open spec fn spec_dec(v: u8) -> Seq<u8> {
    if v < 10 {
        seq![(48 + v) as u8]
    } else if v < 100 {
        seq![(48 + v / 10) as u8, (48 + v % 10) as u8]
    } else {
        seq![(48 + v / 100) as u8, (48 + (v / 10) % 10) as u8, (48 + v % 10) as u8]
    }
}

/// The payload as two hex digits per byte.
pub open spec fn spec_hex_bytes(data: Seq<u8>) -> Seq<u8> {
    Seq::new(
        2 * data.len(),
        |j: int|
            if j % 2 == 0 {
                spec_hex_digit(data[j / 2] as int / 16)
            } else {
                spec_hex_digit(data[j / 2] as int % 16)
            },
    )
}

/// The line that sends a frame: `T` and eight identifier digits for an
/// extended frame, `t` and three for a standard one, then the length code in
/// decimal, the payload in hex, and the line end. Hex digits are upper
/// case.
pub open spec fn spec_format_frame(f: FrameView) -> Seq<u8> {
    (if f.extended {
        seq![84u8] + spec_hex_fixed(f.id as int, 8)
    } else {
        seq![116u8] + spec_hex_fixed(f.id as int, spec_hex_width(f.id))
    }) + spec_dec(f.dlc) + spec_hex_bytes(f.data) + seq![CR]
}

fn hex_width(v: u32) -> (n: usize)
    ensures
        n == spec_hex_width(v),
{
    if v < 0x1000 {
        3
    } else if v < 0x1_0000 {
        4
    } else if v < 0x10_0000 {
        5
    } else if v < 0x100_0000 {
        6
    } else if v < 0x1000_0000 {
        7
    } else {
        8
    }
}

fn push_dec(out: &mut Vec<u8>, v: u8)
    ensures
        final(out)@ == old(out)@ + spec_dec(v),
{
    if v >= 100 {
        out.push(48 + v / 100);
        out.push(48 + (v / 10) % 10);
        out.push(48 + v % 10);
    } else if v >= 10 {
        out.push(48 + v / 10);
        out.push(48 + v % 10);
    } else {
        out.push(48 + v);
    }
    assert(out@ =~= old(out)@ + spec_dec(v));
}

/// Writes the line that sends `frame`.
pub fn format_frame(frame: &CanFrame) -> (line: Vec<u8>)
    ensures
        line@ == spec_format_frame(frame@),
{
    let mut line: Vec<u8> = Vec::new();
    if frame.is_extended() {
        line.push(84u8);
        push_hex_fixed(&mut line, frame.id(), 8);
    } else {
        line.push(116u8);
        push_hex_fixed(&mut line, frame.id(), hex_width(frame.id()));
    }
    push_dec(&mut line, frame.dlc());
    let ghost head = line@;
    let data = frame.data();
    let mut i: usize = 0;
    while i < data.len()
        invariant
            i <= data@.len(),
            line@ == head + spec_hex_bytes(data@.subrange(0, i as int)),
        decreases data@.len() - i,
    {
        let b = data[i];
        line.push(hex_digit(b / 16));
        line.push(hex_digit(b % 16));
        i += 1;
        assert(line@ =~= head + spec_hex_bytes(data@.subrange(0, i as int)));
    }
    assert(data@.subrange(0, i as int) =~= data@);
    line.push(CR);
    line
}

/// Where the parts of a written line lie.
#[verifier::rlimit(40)]
proof fn lemma_line_layout(f: FrameView, id_len: nat)
    requires
        f.dlc <= 8,
        f.data.len() == f.dlc,
        id_len == (if f.extended { 8nat } else { spec_hex_width(f.id) }),
    ensures
        spec_format_frame(f).len() == id_len + 2 * f.data.len() + 3,
        spec_format_frame(f)[0] == (if f.extended { 84u8 } else { 116u8 }),
        spec_format_frame(f).subrange(1, 1 + id_len as int) == spec_hex_fixed(f.id as int, id_len),
        spec_format_frame(f)[1 + id_len as int] == (48 + f.dlc) as u8,
        forall|j: int|
            0 <= j < 2 * f.data.len() ==> spec_format_frame(f)[id_len as int + 2 + j] == spec_hex_bytes(
                f.data,
            )[j],
{
    lemma_hex_fixed_len(f.id as int, id_len);
    let digits = spec_hex_fixed(f.id as int, id_len);
    let letter = if f.extended { seq![84u8] } else { seq![116u8] };
    let line = letter + digits + spec_dec(f.dlc) + spec_hex_bytes(f.data) + seq![CR];
    assert(line == spec_format_frame(f));
    assert(line.subrange(1, 1 + id_len as int) =~= digits);
}

/// A payload byte written as two digits reads back as the byte.
#[verifier::rlimit(40)]
proof fn lemma_hex_pair(line: Seq<u8>, at: int, data: Seq<u8>, i: int)
    requires
        0 <= i < data.len(),
        0 <= at,
        at + 2 <= line.len(),
        line[at] == spec_hex_bytes(data)[2 * i],
        line[at + 1] == spec_hex_bytes(data)[2 * i + 1],
    ensures
        spec_hex_num(line.subrange(at, at + 2)) == Some(data[i] as int),
{
    let pair = line.subrange(at, at + 2);
    let b = data[i] as int;
    assert(spec_pow16(2) == 256) by {
        reveal_with_fuel(spec_pow16, 3);
    }
    lemma_hex_round_trip(b, 2);
    assert(spec_hex_fixed(b, 2) =~= seq![spec_hex_digit(b / 16), spec_hex_digit(b % 16)]) by {
        reveal_with_fuel(spec_hex_fixed, 3);
    }
    assert(pair =~= spec_hex_fixed(b, 2));
}

/// A data frame with at most eight payload bytes and no timestamp, written
/// as a line and parsed again, is the frame it was, whatever the high
/// timestamp word.
#[verifier::rlimit(40)]
pub proof fn lemma_slcan_round_trip(f: FrameView, high: u32)
    requires
        crate::can::spec_frame_valid(f),
        !f.rtr,
        !f.error,
        f.data.len() <= 8,
        f.timestamp is None,
    ensures
        spec_parse_slcan_line(high, spec_format_frame(f)) == Some(f),
{
    let line = spec_format_frame(f);
    let id_len: nat = if f.extended { 8 } else { 3 };
    let n = f.data.len();
    assert(spec_pow16(3) == 0x1000 && spec_pow16(8) == 0x1_0000_0000) by {
        reveal_with_fuel(spec_pow16, 9);
    }
    lemma_line_layout(f, id_len);
    lemma_hex_round_trip(f.id as int, id_len);
    let data_start = id_len as int + 2;
    assert forall|i: int| 0 <= i < n implies (#[trigger] spec_hex_num(
        line.subrange(data_start + 2 * i, data_start + 2 * i + 2),
    )) == Some(f.data[i] as int) by {
        lemma_hex_pair(line, data_start + 2 * i, f.data, i);
    }
    assert(spec_line_data(line, data_start, n) =~= f.data);
    assert(spec_line_data_ok(line, data_start, n));
    assert(spec_dec_val(line[1 + id_len as int]) == Some(n as int));
    assert(spec_frame_line(high, line, id_len as int, f.extended) == Some(f));
}

/// The bitrates that the `S` command can select, by command digit.
pub open spec fn spec_supported_bitrates() -> Seq<u32> {
    seq![10_000u32, 20_000, 50_000, 100_000, 125_000, 250_000, 500_000, 800_000, 1_000_000]
}

/// The command that selects `bitrate`: `S`, the place of the bitrate in the
/// table, and the line end.
pub open spec fn spec_bitrate_command(bitrate: u32) -> Option<Seq<u8>> {
    if exists|n: int| 0 <= n < 9 && spec_supported_bitrates()[n] == bitrate {
        let n = choose|n: int| 0 <= n < 9 && spec_supported_bitrates()[n] == bitrate;
        Some(seq![83u8, (48 + n) as u8, CR])
    } else {
        None
    }
}

/// The bitrate with command digit `n`.
pub fn supported_bitrate(n: usize) -> (rate: u32)
    requires
        n < 9,
    ensures
        rate == spec_supported_bitrates()[n as int],
{
    if n == 0 {
        10_000
    } else if n == 1 {
        20_000
    } else if n == 2 {
        50_000
    } else if n == 3 {
        100_000
    } else if n == 4 {
        125_000
    } else if n == 5 {
        250_000
    } else if n == 6 {
        500_000
    } else if n == 7 {
        800_000
    } else {
        1_000_000
    }
}

/// The command that selects `bitrate`, or `InvalidInput` for a bitrate that
/// is not in the table.
pub fn bitrate_command(bitrate: u32) -> (r: Result<Vec<u8>, DriverError>)
    ensures
        match r {
            Ok(cmd) => spec_bitrate_command(bitrate) == Some(cmd@),
            Err(e) => e == DriverError::InvalidInput && spec_bitrate_command(bitrate) is None,
        },
{
    let mut n: usize = 0;
    while n < 9
        invariant
            n <= 9,
            forall|k: int| 0 <= k < n ==> spec_supported_bitrates()[k] != bitrate,
        decreases 9 - n,
    {
        if supported_bitrate(n) == bitrate {
            let mut cmd: Vec<u8> = Vec::new();
            cmd.push(83u8);
            cmd.push(48 + n as u8);
            cmd.push(CR);
            proof {
                let m = choose|m: int| 0 <= m < 9 && spec_supported_bitrates()[m] == bitrate;
                assert(m == n);
                assert(cmd@ =~= seq![83u8, (48 + n) as u8, CR]);
            }
            return Ok(cmd);
        }
        n += 1;
    }
    Err(DriverError::InvalidInput)
}

/// How far a table entry is from a measured bitrate.
pub open spec fn spec_distance(rate: u32, actual: u32) -> int {
    if rate >= actual {
        rate - actual
    } else {
        actual - rate
    }
}

/// Whether `rate` is the table entry closest to `actual`, the lower one
/// where two are equally close.
pub open spec fn spec_is_closest(rate: u32, actual: u32) -> bool {
    exists|n: int|
        {
            &&& 0 <= n < 9
            &&& #[trigger] spec_supported_bitrates()[n] == rate
            &&& forall|k: int|
                0 <= k < 9 ==> spec_distance(rate, actual) <= spec_distance(
                    #[trigger] spec_supported_bitrates()[k],
                    actual,
                )
            &&& forall|k: int|
                0 <= k < n ==> spec_distance(rate, actual) < spec_distance(
                    #[trigger] spec_supported_bitrates()[k],
                    actual,
                )
        }
}

/// The table entry closest to `actual`.
pub fn closest_supported_bitrate(actual: u32) -> (rate: u32)
    ensures
        spec_is_closest(rate, actual),
{
    let mut best: usize = 0;
    let mut n: usize = 1;
    while n < 9
        invariant
            1 <= n <= 9,
            best < n,
            forall|k: int|
                0 <= k < n ==> spec_distance(spec_supported_bitrates()[best as int], actual)
                    <= spec_distance(#[trigger] spec_supported_bitrates()[k], actual),
            forall|k: int|
                0 <= k < best ==> spec_distance(spec_supported_bitrates()[best as int], actual)
                    < spec_distance(#[trigger] spec_supported_bitrates()[k], actual),
        decreases 9 - n,
    {
        let cand = supported_bitrate(n);
        let held = supported_bitrate(best);
        let d_cand: u32 = if cand >= actual { cand - actual } else { actual - cand };
        let d_held: u32 = if held >= actual { held - actual } else { actual - held };
        if d_cand < d_held {
            best = n;
        }
        n += 1;
    }
    let rate = supported_bitrate(best);
    assert(spec_supported_bitrates()[best as int] == rate);
    rate
}

/// Reads the reply to a bitrate measurement: four bytes, a little-endian
/// word, which must be at least 5000, snapped to the closest table entry.
pub fn measured_bitrate(reply: &[u8]) -> (r: Result<u32, DriverError>)
    ensures
        match r {
            Ok(rate) => {
                &&& reply@.len() == 4
                &&& spec_le32_at(reply@, 0) >= MIN_MEASURED_BITRATE
                &&& spec_is_closest(rate, spec_le32_at(reply@, 0))
            },
            Err(e) => {
                &&& e == DriverError::Protocol
                &&& (reply@.len() != 4 || spec_le32_at(reply@, 0) < MIN_MEASURED_BITRATE)
            },
        },
{
    if reply.len() != 4 {
        return Err(DriverError::Protocol);
    }
    let actual = read_le32(reply, 0);
    if actual < MIN_MEASURED_BITRATE {
        return Err(DriverError::Protocol);
    }
    Ok(closest_supported_bitrate(actual))
}

/// What scanning the accumulator for complete lines gives.
pub struct LineScan {
    /// The frames of the complete lines, in order.
    pub frames: Seq<FrameView>,
    /// The bytes after the last line end, kept for the next read.
    pub rest: Seq<u8>,
    /// The high timestamp word after the last complete line.
    pub high: u32,
}

/// Scans `buf` line by line. Each line runs up to and including the next
/// line end; it is parsed under the high word that the lines before it left,
/// and what follows the last line end is kept.
pub open spec fn spec_scan_lines(buf: Seq<u8>, high: u32) -> LineScan
    decreases buf.len(),
{
    if !spec_has_first(buf, CR) {
        LineScan { frames: Seq::empty(), rest: buf, high }
    } else {
        let at = spec_first_index(buf, CR);
        if 0 <= at < buf.len() {
            let line = buf.subrange(0, at + 1);
            let tail = spec_scan_lines(buf.subrange(at + 1, buf.len() as int), spec_high_after(high, line));
            match spec_parse_slcan_line(high, line) {
                Some(f) => LineScan { frames: seq![f] + tail.frames, ..tail },
                None => tail,
            }
        } else {
            LineScan { frames: Seq::empty(), rest: buf, high }
        }
    }
}

/// What the driver of an SLCAN adapter holds, as mathematical values.
pub struct SlcanState {
    pub leftover: Seq<u8>,
    pub timestamp_high: u32,
    pub configured_bitrate: Option<u32>,
    /// Whether the channel was opened and not closed since.
    pub channel_open: bool,
}

/// The driver with its channel closed.
pub open spec fn spec_closed(state: SlcanState) -> SlcanState {
    SlcanState { channel_open: false, ..state }
}

/// Closing is idempotent: a closed driver is what closing makes of it.
pub proof fn lemma_close_is_idempotent(state: SlcanState)
    ensures
        !spec_closed(state).channel_open,
        spec_closed(spec_closed(state)) == spec_closed(state),
{
}

/// The protocol side of an SLCAN adapter. It writes the commands to send and
/// reads what the serial port delivered; the port itself is the caller's.
#[derive(Debug)]
pub struct SlcanDriver {
    leftover: Vec<u8>,
    timestamp_high: u32,
    configured_bitrate: Option<u32>,
    channel_open: bool,
}

impl View for SlcanDriver {
    type V = SlcanState;

    closed spec fn view(&self) -> SlcanState {
        SlcanState {
            leftover: self.leftover@,
            timestamp_high: self.timestamp_high,
            configured_bitrate: self.configured_bitrate,
            channel_open: self.channel_open,
        }
    }
}

impl SlcanDriver {
    /// A driver for a port that was just opened: nothing buffered, high
    /// timestamp word zero, no bitrate chosen.
    pub fn open() -> (d: SlcanDriver)
        ensures
            d@ == (SlcanState {
                leftover: Seq::empty(),
                timestamp_high: 0,
                configured_bitrate: None,
                channel_open: false,
            }),
    {
        SlcanDriver { leftover: Vec::new(), timestamp_high: 0, configured_bitrate: None, channel_open: false }
    }

    /// The command `Z1` that turns timestamps on.
    pub fn enable_timestamp(&self) -> (cmd: Vec<u8>)
        ensures
            cmd@ == seq![90u8, 49u8, CR],
    {
        vec![90u8, 49u8, CR]
    }

    /// Records `bitrate` and gives the command that selects it. A bitrate
    /// that is not in the table is refused and nothing is recorded.
    pub fn set_bitrate(&mut self, bitrate: u32) -> (r: Result<Vec<u8>, DriverError>)
        ensures
            match r {
                Ok(cmd) => {
                    &&& spec_bitrate_command(bitrate) == Some(cmd@)
                    &&& final(self)@ == (SlcanState { configured_bitrate: Some(bitrate), ..old(self)@ })
                },
                Err(e) => {
                    &&& e == DriverError::InvalidInput
                    &&& spec_bitrate_command(bitrate) is None
                    &&& final(self)@ == old(self)@
                },
            },
    {
        match bitrate_command(bitrate) {
            Ok(cmd) => {
                self.configured_bitrate = Some(bitrate);
                Ok(cmd)
            },
            Err(e) => Err(e),
        }
    }

    /// The bitrate chosen last.
    pub fn get_bitrate(&self) -> (r: Option<u32>)
        ensures
            r == self@.configured_bitrate,
    {
        self.configured_bitrate
    }

    /// The command `O` that opens the channel. Refused with `InvalidInput`
    /// before a bitrate was chosen; otherwise the channel counts as open
    /// from here.
    pub fn open_channel(&mut self) -> (r: Result<Vec<u8>, DriverError>)
        ensures
            match r {
                Ok(cmd) => {
                    &&& old(self)@.configured_bitrate is Some
                    &&& cmd@ == seq![79u8, CR]
                    &&& final(self)@ == (SlcanState { channel_open: true, ..old(self)@ })
                },
                Err(e) => {
                    &&& old(self)@.configured_bitrate is None
                    &&& e == DriverError::InvalidInput
                    &&& final(self)@ == old(self)@
                },
            },
    {
        if self.configured_bitrate.is_none() {
            return Err(DriverError::InvalidInput);
        }
        self.channel_open = true;
        Ok(vec![79u8, CR])
    }

    /// The command `C` that closes the channel. The channel counts as
    /// closed from here, whatever comes of the command. Closing a closed
    /// channel asks the same of the adapter and leaves the driver closed.
    pub fn close_channel(&mut self) -> (cmd: Vec<u8>)
        ensures
            cmd@ == seq![67u8, CR],
            final(self)@ == spec_closed(old(self)@),
    {
        self.channel_open = false;
        vec![67u8, CR]
    }

    /// Whether the channel was opened and not closed since.
    pub fn is_open(&self) -> (r: bool)
        ensures
            r == self@.channel_open,
    {
        self.channel_open
    }

    /// The line that sends `frame`.
    pub fn send_frame(&self, frame: &CanFrame) -> (line: Vec<u8>)
        ensures
            line@ == spec_format_frame(frame@),
    {
        format_frame(frame)
    }

    /// Takes in what a read from the port delivered and hands out the frames
    /// of the lines that are now complete. Bytes after the last line end
    /// stay buffered.
    #[verifier::rlimit(40)]
    pub fn read_frames(&mut self, chunk: &[u8]) -> (frames: Vec<CanFrame>)
        ensures
            spec_views(frames@) == spec_scan_lines(
                old(self)@.leftover + chunk@,
                old(self)@.timestamp_high,
            ).frames,
            spec_all_wf(frames@),
            final(self)@.leftover == spec_scan_lines(
                old(self)@.leftover + chunk@,
                old(self)@.timestamp_high,
            ).rest,
            final(self)@.timestamp_high == spec_scan_lines(
                old(self)@.leftover + chunk@,
                old(self)@.timestamp_high,
            ).high,
            final(self)@.configured_bitrate == old(self)@.configured_bitrate,
            final(self)@.channel_open == old(self)@.channel_open,
            !spec_has_first(final(self)@.leftover, CR),
    {
        append_from(&mut self.leftover, chunk, 0);
        assert(chunk@.subrange(0, chunk@.len() as int) =~= chunk@);
        let ghost buf = self.leftover@;
        let ghost high0 = self.timestamp_high;
        let mut frames: Vec<CanFrame> = Vec::new();
        let mut processed: usize = 0;
        let mut high: u32 = self.timestamp_high;
        assert(buf.subrange(0, buf.len() as int) =~= buf);
        assert(spec_views(frames@) + spec_scan_lines(buf, high0).frames =~= spec_scan_lines(buf, high0).frames);
        loop
            invariant
                processed <= buf.len(),
                self.leftover@ == buf,
                self.configured_bitrate == old(self).configured_bitrate,
                self.channel_open == old(self).channel_open,
                spec_all_wf(frames@),
                spec_scan_lines(buf, high0).frames == spec_views(frames@) + spec_scan_lines(
                    buf.subrange(processed as int, buf.len() as int),
                    high,
                ).frames,
                spec_scan_lines(buf, high0).rest == spec_scan_lines(
                    buf.subrange(processed as int, buf.len() as int),
                    high,
                ).rest,
                spec_scan_lines(buf, high0).high == spec_scan_lines(
                    buf.subrange(processed as int, buf.len() as int),
                    high,
                ).high,
            ensures
                processed <= buf.len(),
                self.leftover@ == buf,
                self.configured_bitrate == old(self).configured_bitrate,
                self.channel_open == old(self).channel_open,
                spec_all_wf(frames@),
                spec_scan_lines(buf, high0).frames == spec_views(frames@),
                spec_scan_lines(buf, high0).rest == buf.subrange(processed as int, buf.len() as int),
                spec_scan_lines(buf, high0).high == high,
                !spec_has_first(buf.subrange(processed as int, buf.len() as int), CR),
            decreases buf.len() - processed,
        {
            let pending = slice_subrange(self.leftover.as_slice(), processed, self.leftover.len());
            match find_first(pending, CR) {
                None => {
                    assert(spec_views(frames@) + Seq::<FrameView>::empty() =~= spec_views(frames@));
                    break;
                },
                Some(at) => {
                    let line = slice_subrange(pending, 0, at + 1);
                    let ghost before_frames = frames@;
                    let parsed = parse_slcan_line_bytes(&mut high, line);
                    assert(pending@.subrange(at + 1, pending@.len() as int) =~= buf.subrange(
                        processed + at + 1,
                        buf.len() as int,
                    ));
                    match parsed {
                        Some(frame) => {
                            frames.push(frame);
                            proof {
                                let tail = spec_scan_lines(
                                    buf.subrange(processed + at + 1, buf.len() as int),
                                    high,
                                );
                                assert(spec_views(frames@) =~= spec_views(before_frames) + seq![frame@]);
                                assert(spec_views(frames@) + tail.frames =~= spec_views(before_frames) + (
                                seq![frame@] + tail.frames));
                            }
                        },
                        None => {},
                    }
                    processed = processed + at + 1;
                },
            }
        }
        let rest = copy_range(self.leftover.as_slice(), processed, self.leftover.len());
        self.leftover = rest;
        self.timestamp_high = high;
        frames
    }

    /// Forgets what is buffered and gives the command `B` that asks for the
    /// measured bitrate. The reply is four bytes, read by
    /// [`measured_bitrate`].
    pub fn get_measured_bitrate(&mut self) -> (cmd: Vec<u8>)
        ensures
            cmd@ == seq![66u8, CR],
            final(self)@ == (SlcanState { leftover: Seq::empty(), ..old(self)@ }),
    {
        self.leftover = Vec::new();
        vec![66u8, CR]
    }

    /// Forgets what is buffered and gives the command `V` that asks for the
    /// firmware version. The reply is the first line that
    /// [`version_from_line`] accepts.
    pub fn get_version(&mut self) -> (cmd: Vec<u8>)
        ensures
            cmd@ == seq![86u8, CR],
            final(self)@ == (SlcanState { leftover: Seq::empty(), ..old(self)@ }),
    {
        self.leftover = Vec::new();
        vec![86u8, CR]
    }
}

/// Looks at one line read after a version request. A line that starts with
/// `T` carries a frame and is passed over; any other line is the version,
/// returned without the white space at its ends.
pub fn version_from_line(line: &[u8]) -> (r: Option<Vec<u8>>)
    ensures
        r is None <==> line@.len() > 0 && line@[0] == 84,
        r is Some ==> r->0@ == spec_trim(line@),
{
    if line.len() > 0 && line[0] == 84 {
        None
    } else {
        Some(trim_ascii(line))
    }
}

/// Where the bitrate of a session comes from.
#[derive(Debug, Clone, Copy, PartialEq, Eq, Structural)]
pub enum BitrateSource {
    /// The caller named it.
    Given(u32),
    /// The adapter can measure it.
    Measured,
    /// Nobody knows it.
    Missing,
}

/// The name that the firmware able to measure the bitrate starts its
/// version with.
pub open spec fn spec_measuring_firmware() -> Seq<u8> {
    seq![67u8, 89, 68, 69, 82, 45, 67, 65, 78, 65, 66, 76, 69]
}

/// Whether `s` starts with `prefix`.
pub open spec fn spec_starts_with(s: Seq<u8>, prefix: Seq<u8>) -> bool {
    s.len() >= prefix.len() && s.subrange(0, prefix.len() as int) == prefix
}

/// Decides where the bitrate comes from: a bitrate that the caller named
/// wins; without one, firmware whose version starts with `CYDER-CANABLE` is
/// asked to measure it, and any other firmware leaves it missing.
pub fn bitrate_source(requested: Option<u32>, version: &[u8]) -> (r: BitrateSource)
    ensures
        r == (match requested {
            Some(b) => BitrateSource::Given(b),
            None => if spec_starts_with(version@, spec_measuring_firmware()) {
                BitrateSource::Measured
            } else {
                BitrateSource::Missing
            },
        }),
{
    match requested {
        Some(b) => BitrateSource::Given(b),
        None => {
            let name: Vec<u8> = vec![67u8, 89, 68, 69, 82, 45, 67, 65, 78, 65, 66, 76, 69];
            assert(name@ =~= spec_measuring_firmware());
            if version.len() < name.len() {
                return BitrateSource::Missing;
            }
            let mut i: usize = 0;
            while i < name.len()
                invariant
                    i <= name@.len(),
                    requested is None,
                    name@ == spec_measuring_firmware(),
                    version@.len() >= name@.len(),
                    forall|k: int| 0 <= k < i ==> version@[k] == name@[k],
                decreases name@.len() - i,
            {
                if version[i] != name[i] {
                    proof {
                        let prefix = spec_measuring_firmware();
                        let head = version@.subrange(0, prefix.len() as int);
                        assert(head[i as int] == version@[i as int]);
                        assert(head[i as int] != prefix[i as int]);
                        assert(head != prefix);
                    }
                    return BitrateSource::Missing;
                }
                i += 1;
            }
            assert(version@.subrange(0, name@.len() as int) =~= name@);
            BitrateSource::Measured
        },
    }
}

} // verus!
