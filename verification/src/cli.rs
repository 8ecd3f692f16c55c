//! What the command-line tools read from their arguments: timestamp modes,
//! receive filters and frames to send.

use vstd::prelude::*;
use crate::hex::spec_hex_val;
use crate::hex::spec_hex_num;
use crate::hex::hex_val;
use crate::hex::lemma_hex_byte;
use crate::hex::parse_hex_digits;
use crate::hex::spec_hex_u32;
use crate::hex::parse_hex_plain;
use crate::bytes::copy_range;
use crate::bytes::find_first;
use crate::bytes::lemma_no_first_no_occurrence;
use crate::bytes::trim_ascii;
use crate::bytes::spec_trim;
use crate::can::CanFrame;
use crate::can::FrameView;
use crate::can::spec_standard;
use crate::can::spec_extended;
use crate::can::spec_valid_len;
use crate::can::CAN_SFF_MASK;
use crate::can::CAN_EFF_MASK;
use crate::bytes::spec_has_first;
use crate::bytes::spec_first_index;
use crate::bytes::spec_occurs;
use crate::hex::spec_line_data;
use crate::hex::spec_line_data_ok;
use vstd::slice::slice_subrange;

verus! {

/// The options of the dump tool.
#[derive(Debug, PartialEq, Eq)]
pub struct Args {
    /// Timestamp type: `a` absolute, `d` delta, `z` zero, `A` absolute with
    /// date.
    pub timestamp: Option<char>,
    /// Read hardware timestamps instead of system timestamps.
    pub hardware_ts: bool,
    pub color_level: u8,
    pub binary_output: bool,
    pub ascii: bool,
    pub swap_bytes: bool,
    pub silent_level: Option<u8>,
    pub log: bool,
    pub logfile: Option<String>,
    pub stdout_logformat: bool,
    pub count: Option<u64>,
    pub rcv_buf: Option<usize>,
    pub dont_exit_on_down: bool,
    pub monitor_drops: bool,
    pub show_error_frames: bool,
    pub raw_dlc: bool,
    pub extra_infos: bool,
    pub timeout_ms: Option<u64>,
    /// Interfaces with optional filter sets: `<ifname>[,filter]*`.
    pub interfaces: Vec<String>,
}

/// How timestamps are shown.
#[derive(Debug, Clone, Copy, PartialEq, Eq, Structural)]
pub enum TimestampMode {
    /// No timestamp.
    Off,
    /// Time since the epoch.
    Absolute,
    /// Time since the epoch, with the date.
    AbsoluteDate,
    /// Time since the frame before.
    Delta,
    /// Time since the start of the program.
    Zero,
}

impl TimestampMode {
    /// The mode that a letter selects: `a`, `A`, `d` or `z`.
    pub fn from_char(c: char) -> (r: Option<TimestampMode>)
        ensures
            r == (if c == 'a' {
                Some(TimestampMode::Absolute)
            } else if c == 'A' {
                Some(TimestampMode::AbsoluteDate)
            } else if c == 'd' {
                Some(TimestampMode::Delta)
            } else if c == 'z' {
                Some(TimestampMode::Zero)
            } else {
                None
            }),
    {
        if c == 'a' {
            Some(TimestampMode::Absolute)
        } else if c == 'A' {
            Some(TimestampMode::AbsoluteDate)
        } else if c == 'd' {
            Some(TimestampMode::Delta)
        } else if c == 'z' {
            Some(TimestampMode::Zero)
        } else {
            None
        }
    }
}

/// What the timestamp of a frame is computed from. Times are microseconds
/// on the caller's monotonic clock.
#[derive(Debug, Clone, Copy, PartialEq, Eq, Structural)]
pub struct TimestampCtx {
    pub mode: TimestampMode,
    pub hardware: bool,
    pub start_instant: u64,
    pub last_instant: Option<u64>,
}

/// The difference of two times, zero where the second is the later one.
pub open spec fn spec_since(now: u64, then: u64) -> u64 {
    if now >= then {
        (now - then) as u64
    } else {
        0
    }
}

impl TimestampCtx {
    /// A context that starts at `now`.
    pub fn new(mode: TimestampMode, hardware: bool, now: u64) -> (ctx: TimestampCtx)
        ensures
            ctx == (TimestampCtx { mode, hardware, start_instant: now, last_instant: None }),
    {
        TimestampCtx { mode, hardware, start_instant: now, last_instant: None }
    }

    /// The timestamp to show for a frame, in microseconds.
    ///
    /// With hardware timestamps it is the frame's own, or zero where the
    /// frame has none. Otherwise it goes by the mode: none; the time since
    /// the epoch; the time since the frame before, zero for the first; or
    /// the time since the start. Only the delta mode remembers `now`.
    pub fn get_timestamp(&mut self, frame: &CanFrame, now: u64, epoch_micros: u64) -> (r: Option<u64>)
        ensures
            r == (if old(self).hardware {
                Some(if frame@.timestamp is Some { frame@.timestamp->0 } else { 0 })
            } else {
                match old(self).mode {
                    TimestampMode::Off => None,
                    TimestampMode::Absolute => Some(epoch_micros),
                    TimestampMode::AbsoluteDate => Some(epoch_micros),
                    TimestampMode::Delta => Some(
                        if old(self).last_instant is Some {
                            spec_since(now, old(self).last_instant->0)
                        } else {
                            0
                        },
                    ),
                    TimestampMode::Zero => Some(spec_since(now, old(self).start_instant)),
                }
            }),
            *final(self) == (if !old(self).hardware && old(self).mode == TimestampMode::Delta {
                TimestampCtx { last_instant: Some(now), ..*old(self) }
            } else {
                *old(self)
            }),
    {
        if self.hardware {
            return Some(
                match frame.timestamp() {
                    Some(t) => t,
                    None => 0,
                },
            );
        }
        match self.mode {
            TimestampMode::Off => None,
            TimestampMode::Absolute => Some(epoch_micros),
            TimestampMode::AbsoluteDate => Some(epoch_micros),
            TimestampMode::Delta => {
                let ts: u64 = match self.last_instant {
                    Some(last) => if now >= last { now - last } else { 0 },
                    None => 0,
                };
                self.last_instant = Some(now);
                Some(ts)
            },
            TimestampMode::Zero => Some(if now >= self.start_instant { now - self.start_instant } else { 0 }),
        }
    }
}

/// One receive filter.
#[derive(Debug, Clone, Copy, PartialEq, Eq, Structural)]
pub enum Filter {
    /// `<can_id>:<can_mask>`: pass where the masked identifiers agree.
    Match { id: u32, mask: u32 },
    /// `<can_id>~<can_mask>`: pass where they differ.
    NotMatch { id: u32, mask: u32 },
    /// `#<error_mask>`: pass the error classes in the mask.
    ErrorMask(u32),
    /// `j` or `J`: a frame must pass all filters.
    Join,
}

/// Why a filter token was refused.
#[derive(Debug, Clone, Copy, PartialEq, Eq, Structural)]
pub enum FilterError {
    /// What follows `#` is no hex number.
    InvalidErrorMask,
    /// What stands before `:` or `~`, or alone, is no hex number.
    InvalidId,
    /// What follows `:` or `~` is no hex number.
    InvalidMask,
    /// The token has none of the known forms.
    Unrecognized,
}

/// Whether every byte is a hex digit. The empty string passes.
pub open spec fn spec_is_hex(s: Seq<u8>) -> bool {
    forall|i: int| 0 <= i < s.len() ==> spec_hex_val(#[trigger] s[i]) is Some
}

/// Tests whether every byte is a hex digit.
pub fn is_hex(s: &[u8]) -> (r: bool)
    ensures
        r == spec_is_hex(s@),
{
    let mut i: usize = 0;
    while i < s.len()
        invariant
            i <= s@.len(),
            forall|k: int| 0 <= k < i ==> spec_hex_val(#[trigger] s@[k]) is Some,
        decreases s@.len() - i,
    {
        if hex_val(s[i]).is_none() {
            return false;
        }
        i += 1;
    }
    true
}

/// A hex string without a leading `0x` or `0X`.
pub open spec fn spec_strip_0x(s: Seq<u8>) -> Seq<u8> {
    if s.len() >= 2 && s[0] == 48 && (s[1] == 120 || s[1] == 88) {
        s.subrange(2, s.len() as int)
    } else {
        s
    }
}

/// The 32-bit number that a hex string writes, with or without a leading
/// `0x`.
pub open spec fn spec_parse_hex(s: Seq<u8>) -> Option<u32> {
    spec_hex_u32(spec_strip_0x(s))
}

/// Reads a 32-bit hex number, with or without a leading `0x`.
pub fn parse_hex(s: &[u8]) -> (r: Option<u32>)
    ensures
        r == spec_parse_hex(s@),
{
    if s.len() >= 2 && s[0] == 48 && (s[1] == 120 || s[1] == 88) {
        parse_hex_plain(slice_subrange(s, 2, s.len()))
    } else {
        parse_hex_plain(s)
    }
}

/// Whether a token is the join flag.
pub open spec fn spec_is_join(token: Seq<u8>) -> bool {
    token.len() == 1 && (token[0] == 106 || token[0] == 74)
}

/// What a filter token, without white space at its ends, stands for: no
/// filter if it is empty; the join flag; an error mask after `#`; a match
/// around the first `:`; a mismatch around the first `~`; a match on every
/// bit for a bare hex number. Each form is tried in this order and the
/// first that fits decides.
pub open spec fn spec_parse_filter(token: Seq<u8>) -> Result<Option<Filter>, FilterError> {
    if token.len() == 0 {
        Ok(None)
    } else if spec_is_join(token) {
        Ok(Some(Filter::Join))
    } else if token[0] == 35 {
        match spec_parse_hex(token.subrange(1, token.len() as int)) {
            Some(mask) => Ok(Some(Filter::ErrorMask(mask))),
            None => Err(FilterError::InvalidErrorMask),
        }
    } else if spec_has_first(token, 58) {
        spec_parse_pair(token, spec_first_index(token, 58), true)
    } else if spec_has_first(token, 126) {
        spec_parse_pair(token, spec_first_index(token, 126), false)
    } else if spec_is_hex(token) {
        match spec_parse_hex(token) {
            Some(id) => Ok(Some(Filter::Match { id, mask: 0xFFFF_FFFF })),
            None => Err(FilterError::InvalidId),
        }
    } else {
        Err(FilterError::Unrecognized)
    }
}

/// The filter written as two hex numbers around the separator at `at`.
pub open spec fn spec_parse_pair(token: Seq<u8>, at: int, positive: bool) -> Result<Option<Filter>, FilterError> {
    match spec_parse_hex(token.subrange(0, at)) {
        None => Err(FilterError::InvalidId),
        Some(id) => match spec_parse_hex(token.subrange(at + 1, token.len() as int)) {
            None => Err(FilterError::InvalidMask),
            Some(mask) => Ok(Some(if positive { Filter::Match { id, mask } } else { Filter::NotMatch { id, mask } })),
        },
    }
}

fn parse_pair(token: &[u8], at: usize, positive: bool) -> (r: Result<Option<Filter>, FilterError>)
    requires
        at < token@.len(),
    ensures
        r == spec_parse_pair(token@, at as int, positive),
{
    let len: usize = token.len();
    let id = match parse_hex(slice_subrange(token, 0, at)) {
        Some(id) => id,
        None => {
            return Err(FilterError::InvalidId);
        },
    };
    let mask = match parse_hex(slice_subrange(token, at + 1, len)) {
        Some(mask) => mask,
        None => {
            return Err(FilterError::InvalidMask);
        },
    };
    if positive {
        Ok(Some(Filter::Match { id, mask }))
    } else {
        Ok(Some(Filter::NotMatch { id, mask }))
    }
}

/// Reads one filter token that has no white space at its ends.
#[verifier::rlimit(40)]
pub fn parse_filter(token: &[u8]) -> (r: Result<Option<Filter>, FilterError>)
    ensures
        r == spec_parse_filter(token@),
{
    if token.len() == 0 {
        return Ok(None);
    }
    if token.len() == 1 && (token[0] == 106 || token[0] == 74) {
        return Ok(Some(Filter::Join));
    }
    if token[0] == 35 {
        return match parse_hex(slice_subrange(token, 1, token.len())) {
            Some(mask) => Ok(Some(Filter::ErrorMask(mask))),
            None => Err(FilterError::InvalidErrorMask),
        };
    }
    match find_first(token, 58) {
        Some(at) => {
            return parse_pair(token, at, true);
        },
        None => {},
    }
    match find_first(token, 126) {
        Some(at) => {
            return parse_pair(token, at, false);
        },
        None => {},
    }
    if is_hex(token) {
        return match parse_hex(token) {
            Some(id) => Ok(Some(Filter::Match { id, mask: 0xFFFF_FFFF })),
            None => Err(FilterError::InvalidId),
        };
    }
    Err(FilterError::Unrecognized)
}

/// An interface to dump and the filters on it.
#[derive(Debug, PartialEq, Eq)]
pub struct InterfaceSpec {
    pub ifname: Vec<u8>,
    pub filters: Vec<Filter>,
}

/// The filters that a comma-separated list of tokens writes, in order.
/// White space around a token does not count, an empty token writes no
/// filter, and the first token that is refused refuses the list.
pub open spec fn spec_parse_filters(list: Seq<u8>) -> Result<Seq<Filter>, FilterError>
    decreases list.len(),
{
    let more = spec_has_first(list, 44) && 0 <= spec_first_index(list, 44) < list.len();
    let token = if more { list.subrange(0, spec_first_index(list, 44)) } else { list };
    match spec_parse_filter(spec_trim(token)) {
        Err(e) => Err(e),
        Ok(filter) => {
            let head = match filter {
                Some(f) => seq![f],
                None => Seq::empty(),
            };
            if more {
                match spec_parse_filters(list.subrange(spec_first_index(list, 44) + 1, list.len() as int)) {
                    Err(e) => Err(e),
                    Ok(tail) => Ok(head + tail),
                }
            } else {
                Ok(head)
            }
        },
    }
}

/// The name in `<ifname>[,filter]*`: what stands before the first comma.
pub open spec fn spec_ifname(spec: Seq<u8>) -> Seq<u8> {
    if spec_has_first(spec, 44) {
        spec.subrange(0, spec_first_index(spec, 44))
    } else {
        spec
    }
}

#[verifier::rlimit(40)]
fn parse_filters(list: &[u8], out: &mut Vec<Filter>) -> (r: Result<(), FilterError>)
    ensures
        match spec_parse_filters(list@) {
            Ok(filters) => r is Ok && final(out)@ == old(out)@ + filters,
            Err(e) => r == Err::<(), FilterError>(e),
        },
    decreases list@.len(),
{
    let total: usize = list.len();
    let found = find_first(list, 44);
    let end: usize = match found {
        Some(at) => at,
        None => total,
    };
    assert(list@.subrange(0, list@.len() as int) =~= list@);
    let token = trim_ascii(slice_subrange(list, 0, end));
    let ghost before = out@;
    match parse_filter(token.as_slice()) {
        Err(e) => {
            return Err(e);
        },
        Ok(Some(f)) => {
            out.push(f);
            assert(out@ =~= before + seq![f]);
        },
        Ok(None) => {
            assert(out@ =~= before + Seq::<Filter>::empty());
        },
    }
    match found {
        None => Ok(()),
        Some(at) => {
            let ghost mid = out@;
            let r = parse_filters(slice_subrange(list, at + 1, total), out);
            proof {
                match spec_parse_filters(list@.subrange(at + 1, total as int)) {
                    Ok(tail) => {
                        let head = mid.subrange(before.len() as int, mid.len() as int);
                        assert(mid =~= before + head);
                        assert(mid + tail =~= before + (head + tail));
                    },
                    Err(_) => {},
                }
            }
            r
        },
    }
}

impl InterfaceSpec {
    /// Reads `<ifname>[,filter]*`.
    #[verifier::rlimit(40)]
    pub fn parse(spec: &[u8]) -> (r: Result<InterfaceSpec, FilterError>)
        ensures
            match r {
                Ok(parsed) => {
                    &&& parsed.ifname@ == spec_ifname(spec@)
                    &&& if spec_has_first(spec@, 44) {
                        spec_parse_filters(
                            spec@.subrange(spec_first_index(spec@, 44) + 1, spec@.len() as int),
                        ) == Ok::<Seq<Filter>, FilterError>(parsed.filters@)
                    } else {
                        parsed.filters@.len() == 0
                    }
                },
                Err(e) => spec_has_first(spec@, 44) && spec_parse_filters(
                    spec@.subrange(spec_first_index(spec@, 44) + 1, spec@.len() as int),
                ) == Err::<Seq<Filter>, FilterError>(e),
            },
    {
        let total: usize = spec.len();
        let first = match find_first(spec, 44) {
            None => {
                assert(spec@.subrange(0, total as int) =~= spec@);
                return Ok(InterfaceSpec { ifname: copy_range(spec, 0, total), filters: Vec::new() });
            },
            Some(at) => at,
        };
        let ifname = copy_range(spec, 0, first);
        let mut filters: Vec<Filter> = Vec::new();
        match parse_filters(slice_subrange(spec, first + 1, total), &mut filters) {
            Ok(()) => {
                proof {
                    let all = spec_parse_filters(spec@.subrange(first + 1, total as int));
                    assert(Seq::<Filter>::empty() + all->Ok_0 =~= all->Ok_0);
                }
                Ok(InterfaceSpec { ifname, filters })
            },
            Err(e) => Err(e),
        }
    }
}

/// The frame that `<ID>#<DATA>` writes: exactly one `#`; before it a hex
/// identifier, extended where it is above `0x7FF`; after it an even number
/// of hex digits, two per payload byte. The identifier must fit in 29 bits
/// and the payload must have a length that a length code stands for.
pub open spec fn spec_parse_cansend_frame(input: Seq<u8>) -> Option<FrameView> {
    if !spec_has_first(input, 35) {
        None
    } else {
        let at = spec_first_index(input, 35);
        let id_part = input.subrange(0, at);
        let data_part = input.subrange(at + 1, input.len() as int);
        let id = spec_hex_u32(id_part);
        if spec_occurs(data_part, 35) {
            None
        } else if id is None || id->0 > CAN_EFF_MASK {
            None
        } else if data_part.len() % 2 != 0 || !spec_line_data_ok(data_part, 0, (data_part.len() / 2) as nat)
            || !spec_valid_len((data_part.len() / 2) as nat) {
            None
        } else {
            let data = spec_line_data(data_part, 0, (data_part.len() / 2) as nat);
            Some(
                if id->0 > CAN_SFF_MASK {
                    spec_extended(id->0, data)
                } else {
                    spec_standard(id->0, data)
                },
            )
        }
    }
}

/// Reads the frame to send from `<ID>#<DATA>`.
#[verifier::rlimit(40)]
pub fn parse_cansend_frame(input: &[u8]) -> (r: Option<CanFrame>)
    ensures
        match spec_parse_cansend_frame(input@) {
            Some(f) => r is Some && r->0@ == f && r->0.wf(),
            None => r is None,
        },
{
    let at = match find_first(input, 35) {
        Some(at) => at,
        None => {
            return None;
        },
    };
    let len: usize = input.len();
    let id_part = slice_subrange(input, 0, at);
    let data_part = slice_subrange(input, at + 1, len);
    match find_first(data_part, 35) {
        Some(second) => {
            assert(spec_occurs(data_part@, 35)) by {
                assert(data_part@[second as int] == 35);
            }
            return None;
        },
        None => {
            assert(!spec_occurs(data_part@, 35)) by {
                lemma_no_first_no_occurrence(data_part@, 35);
            }
        },
    }
    let id = match parse_hex_plain(id_part) {
        Some(id) => id,
        None => {
            return None;
        },
    };
    if id > CAN_EFF_MASK {
        return None;
    }
    if data_part.len() % 2 != 0 {
        return None;
    }
    let n: usize = data_part.len() / 2;
    let mut data: Vec<u8> = Vec::new();
    let mut i: usize = 0;
    assert(data@ =~= spec_line_data(data_part@, 0, 0));
    while i < n
        invariant
            i <= n,
            n == data_part@.len() / 2,
            data_part@.len() % 2 == 0,
            data_part@.len() <= usize::MAX,
            id_part@ == input@.subrange(0, at as int),
            data_part@ == input@.subrange(at + 1, input@.len() as int),
            spec_has_first(input@, 35),
            at as int == spec_first_index(input@, 35),
            !spec_occurs(data_part@, 35),
            spec_hex_u32(id_part@) == Some(id),
            id <= CAN_EFF_MASK,
            data@ == spec_line_data(data_part@, 0, i as nat),
            spec_line_data_ok(data_part@, 0, i as nat),
        decreases n - i,
    {
        match parse_hex_digits(data_part, 2 * i, 2 * i + 2) {
            None => {
                proof {
                    let k = i as int;
                    assert(spec_hex_num(data_part@.subrange(0 + 2 * k, 0 + 2 * k + 2)) is None);
                }
                return None;
            },
            Some(b) => {
                proof {
                    lemma_hex_byte(data_part@.subrange(2 * i, 2 * i + 2));
                }
                data.push(b as u8);
            },
        }
        i += 1;
        assert(data@ =~= spec_line_data(data_part@, 0, i as nat));
    }
    let built = if id > CAN_SFF_MASK {
        CanFrame::new_eff(id, data.as_slice())
    } else {
        CanFrame::new(id, data.as_slice())
    };
    match built {
        Ok(frame) => Some(frame),
        Err(_) => None,
    }
}

} // verus!
