//! Bit-timing constants reported by the adapter and the search for a timing
//! that gives a requested bitrate.

use vstd::prelude::*;
use crate::bytes::read_le32;
use crate::bytes::push_le32;
use crate::bytes::spec_le32_at;
use crate::bytes::spec_le32_bytes;

verus! {

/// The bit timing programmed into the adapter, in time quanta.
#[derive(Clone, Copy, Debug, Default, PartialEq, Eq, Structural)]
pub struct GsDeviceBitTiming {
    pub prop_seg: u32,
    pub phase_seg1: u32,
    pub phase_seg2: u32,
    pub sjw: u32,
    pub brp: u32,
}

/// Capabilities and timing limits that the adapter reports.
#[derive(Clone, Copy, Debug, PartialEq, Eq, Structural)]
pub struct GsBtConst {
    pub feature: u32,
    pub fclk_can: u32,
    pub tseg1_min: u32,
    pub tseg1_max: u32,
    pub tseg2_min: u32,
    pub tseg2_max: u32,
    pub sjw_max: u32,
    pub brp_min: u32,
    pub brp_max: u32,
    pub brp_inc: u32,
}

/// The constants that a reply of at least forty bytes holds: ten
/// little-endian words, the feature word first.
pub open spec fn spec_parse_bt_const(b: Seq<u8>) -> GsBtConst {
    GsBtConst {
        feature: spec_le32_at(b, 0),
        fclk_can: spec_le32_at(b, 4),
        tseg1_min: spec_le32_at(b, 8),
        tseg1_max: spec_le32_at(b, 12),
        tseg2_min: spec_le32_at(b, 16),
        tseg2_max: spec_le32_at(b, 20),
        sjw_max: spec_le32_at(b, 24),
        brp_min: spec_le32_at(b, 28),
        brp_max: spec_le32_at(b, 32),
        brp_inc: spec_le32_at(b, 36),
    }
}

/// Reads the timing constants from the adapter's reply.
pub fn parse_bt_const(b: &[u8]) -> (c: GsBtConst)
    requires
        b@.len() >= 40,
    ensures
        c == spec_parse_bt_const(b@),
{
    GsBtConst {
        feature: read_le32(b, 0),
        fclk_can: read_le32(b, 4),
        tseg1_min: read_le32(b, 8),
        tseg1_max: read_le32(b, 12),
        tseg2_min: read_le32(b, 16),
        tseg2_max: read_le32(b, 20),
        sjw_max: read_le32(b, 24),
        brp_min: read_le32(b, 28),
        brp_max: read_le32(b, 32),
        brp_inc: read_le32(b, 36),
    }
}

impl GsDeviceBitTiming {
    /// The twenty bytes of the timing request: five little-endian words in
    /// the order propagation segment, phase segment 1, phase segment 2,
    /// jump width, prescaler.
    pub open spec fn spec_to_bytes(self) -> Seq<u8> {
        spec_le32_bytes(self.prop_seg) + spec_le32_bytes(self.phase_seg1) + spec_le32_bytes(
            self.phase_seg2,
        ) + spec_le32_bytes(self.sjw) + spec_le32_bytes(self.brp)
    }

    /// Encodes the timing for the wire.
    pub fn to_bytes(self) -> (buf: Vec<u8>)
        ensures
            buf@ == self.spec_to_bytes(),
            buf@.len() == 20,
    {
        let mut buf: Vec<u8> = Vec::new();
        push_le32(&mut buf, self.prop_seg);
        push_le32(&mut buf, self.phase_seg1);
        push_le32(&mut buf, self.phase_seg2);
        push_le32(&mut buf, self.sjw);
        push_le32(&mut buf, self.brp);
        buf
    }
}

/// The eight bytes of a mode request: mode word, then flags word.
pub open spec fn spec_encode_mode(mode: u32, flags: u32) -> Seq<u8> {
    spec_le32_bytes(mode) + spec_le32_bytes(flags)
}

/// Encodes a mode request for the wire.
pub fn encode_mode(mode: u32, flags: u32) -> (buf: Vec<u8>)
    ensures
        buf@ == spec_encode_mode(mode, flags),
        buf@.len() == 8,
{
    let mut buf: Vec<u8> = Vec::new();
    push_le32(&mut buf, mode);
    push_le32(&mut buf, flags);
    buf
}

/// Whether the point lies in the grid that the constants span.
pub open spec fn spec_in_grid(caps: GsBtConst, brp: int, tseg1: int, tseg2: int) -> bool {
    &&& caps.brp_min <= brp <= caps.brp_max
    &&& caps.tseg1_min <= tseg1 <= caps.tseg1_max
    &&& caps.tseg2_min <= tseg2 <= caps.tseg2_max
}

/// Clock cycles in one bit at the point, times the requested bitrate. It
/// equals the clock where the point gives the bitrate exactly.
pub open spec fn spec_scaled_bit(bitrate: u32, brp: int, tseg1: int, tseg2: int) -> int {
    bitrate as int * brp * (1 + tseg1 + tseg2)
}

/// The absolute value of an integer.
pub open spec fn spec_abs(x: int) -> int {
    if x < 0 {
        -x
    } else {
        x
    }
}

/// Whether the bitrate at the point is within five percent of the requested
/// one: `|fclk / (brp * tq) - bitrate| / bitrate <= 1/20`, cleared of
/// fractions.
pub open spec fn spec_rate_ok(caps: GsBtConst, bitrate: u32, brp: int, tseg1: int, tseg2: int) -> bool {
    let td = spec_scaled_bit(bitrate, brp, tseg1, tseg2);
    td > 0 && 20 * spec_abs(caps.fclk_can as int - td) <= td
}

/// Whether the point is a candidate: in the grid, with at least two quanta
/// before the sample point so that both segments there get one, and with a
/// bitrate close enough.
pub open spec fn spec_acceptable(caps: GsBtConst, bitrate: u32, brp: int, tseg1: int, tseg2: int) -> bool {
    spec_in_grid(caps, brp, tseg1, tseg2) && tseg1 >= 2 && spec_rate_ok(caps, bitrate, brp, tseg1, tseg2)
}

/// Numerator of the score of a point. The score is ten times the relative
/// bitrate error plus the distance of the sample point
/// `(1 + tseg1) / tq` from 7/8, and equals this numerator over
/// [`spec_score_den`].
pub open spec fn spec_score_num(caps: GsBtConst, bitrate: u32, brp: int, tseg1: int, tseg2: int) -> int {
    let td = spec_scaled_bit(bitrate, brp, tseg1, tseg2);
    80 * spec_abs(caps.fclk_can as int - td) + bitrate as int * brp * spec_abs(
        8 * (1 + tseg1) - 7 * (1 + tseg1 + tseg2),
    )
}

/// Denominator of the score of a point.
pub open spec fn spec_score_den(bitrate: u32, brp: int, tseg1: int, tseg2: int) -> int {
    8 * spec_scaled_bit(bitrate, brp, tseg1, tseg2)
}

/// Whether the first point has a strictly lower score than the second.
pub open spec fn spec_beats(
    caps: GsBtConst,
    bitrate: u32,
    brp: int,
    tseg1: int,
    tseg2: int,
    brp2: int,
    tseg12: int,
    tseg22: int,
) -> bool {
    spec_score_num(caps, bitrate, brp, tseg1, tseg2) * spec_score_den(bitrate, brp2, tseg12, tseg22)
        < spec_score_num(caps, bitrate, brp2, tseg12, tseg22) * spec_score_den(
        bitrate,
        brp,
        tseg1,
        tseg2,
    )
}

/// Whether the first point is searched before the second: the prescaler
/// varies slowest, the second segment fastest.
pub open spec fn spec_precedes(brp: int, tseg1: int, tseg2: int, brp2: int, tseg12: int, tseg22: int) -> bool {
    brp < brp2 || (brp == brp2 && (tseg1 < tseg12 || (tseg1 == tseg12 && tseg2 < tseg22)))
}

/// Whether the point is the one the search settles on among the candidates
/// searched before the limit: it is one of them, none of them has a lower
/// score, and it has a lower score than each of them searched before it.
pub open spec fn spec_chosen(
    caps: GsBtConst,
    bitrate: u32,
    brp: int,
    tseg1: int,
    tseg2: int,
    lim_brp: int,
    lim_tseg1: int,
    lim_tseg2: int,
) -> bool {
    &&& spec_acceptable(caps, bitrate, brp, tseg1, tseg2)
    &&& spec_precedes(brp, tseg1, tseg2, lim_brp, lim_tseg1, lim_tseg2)
    &&& forall|x: int, y: int, z: int|
        #[trigger] spec_acceptable(caps, bitrate, x, y, z) && spec_precedes(
            x,
            y,
            z,
            lim_brp,
            lim_tseg1,
            lim_tseg2,
        ) ==> {
            &&& !spec_beats(caps, bitrate, x, y, z, brp, tseg1, tseg2)
            &&& (spec_precedes(x, y, z, brp, tseg1, tseg2) ==> spec_beats(
                caps,
                bitrate,
                brp,
                tseg1,
                tseg2,
                x,
                y,
                z,
            ))
        }
}

/// The timing advertised for a point: the first segment halved into phase
/// segment 1 (rounded down) and the propagation segment (the rest), the
/// second segment as phase segment 2, and the jump width as large as the
/// limit and phase segment 2 allow.
pub open spec fn spec_solution(caps: GsBtConst, brp: int, tseg1: int, tseg2: int) -> GsDeviceBitTiming {
    GsDeviceBitTiming {
        prop_seg: (tseg1 - tseg1 / 2) as u32,
        phase_seg1: (tseg1 / 2) as u32,
        phase_seg2: tseg2 as u32,
        sjw: if caps.sjw_max as int <= tseg2 { caps.sjw_max } else { tseg2 as u32 },
        brp: brp as u32,
    }
}

/// Whether no point of the grid searched before the limit is a candidate.
pub open spec fn spec_none_before(
    caps: GsBtConst,
    bitrate: u32,
    lim_brp: int,
    lim_tseg1: int,
    lim_tseg2: int,
) -> bool {
    forall|x: int, y: int, z: int| #[trigger]
        spec_acceptable(caps, bitrate, x, y, z) ==> !spec_precedes(x, y, z, lim_brp, lim_tseg1, lim_tseg2)
}

/// What the search knows when it has looked at every point before the limit.
pub open spec fn spec_search_state(
    caps: GsBtConst,
    bitrate: u32,
    best: Option<(int, int, int)>,
    lim_brp: int,
    lim_tseg1: int,
    lim_tseg2: int,
) -> bool {
    match best {
        None => spec_none_before(caps, bitrate, lim_brp, lim_tseg1, lim_tseg2),
        Some(p) => spec_chosen(caps, bitrate, p.0, p.1, p.2, lim_brp, lim_tseg1, lim_tseg2),
    }
}

/// A score below one that is not above a third is below the third.
proof fn lemma_score_order(a: int, b: int, c: int, d: int, e: int, f: int)
    requires
        b > 0,
        d > 0,
        f > 0,
        a * d < c * b,
        c * f <= e * d,
    ensures
        a * f < e * b,
{
    assert((a * d) * f < (c * b) * f) by (nonlinear_arith)
        requires
            a * d < c * b,
            f > 0,
    ;
    assert((c * f) * b <= (e * d) * b) by (nonlinear_arith)
        requires
            c * f <= e * d,
            b > 0,
    ;
    assert((c * b) * f == (c * f) * b) by (nonlinear_arith);
    assert((a * d) * f == (a * f) * d) by (nonlinear_arith);
    assert((e * d) * b == (e * b) * d) by (nonlinear_arith);
    assert(a * f < e * b) by (nonlinear_arith)
        requires
            (a * f) * d < (e * b) * d,
            d > 0,
    ;
}

/// The score of a point as a fraction, where its bitrate is close enough.
#[verifier::rlimit(40)]
fn candidate_score(caps: &GsBtConst, bitrate: u32, brp: u32, tseg1: u32, tseg2: u32) -> (r: Option<
    (u128, u128),
>)
    ensures
        r is Some <==> spec_rate_ok(*caps, bitrate, brp as int, tseg1 as int, tseg2 as int),
        match r {
            Some((num, den)) => {
                &&& num == spec_score_num(*caps, bitrate, brp as int, tseg1 as int, tseg2 as int)
                &&& den == spec_score_den(bitrate, brp as int, tseg1 as int, tseg2 as int)
                &&& 0 < den < 0x100_0000_0000
                &&& num < 0x100_0000_0000
            },
            None => true,
        },
{
    let tq: u128 = 1 + tseg1 as u128 + tseg2 as u128;
    assert(bitrate as int * brp as int <= 0xFFFF_FFFF * 0xFFFF_FFFF) by (nonlinear_arith)
        requires
            0 <= bitrate as int <= 0xFFFF_FFFF,
            0 <= brp as int <= 0xFFFF_FFFF,
    ;
    let k: u128 = bitrate as u128 * brp as u128;
    assert(k as int * tq as int <= 0xFFFF_FFFF * 0xFFFF_FFFF * 0x2_0000_0000) by (nonlinear_arith)
        requires
            0 <= k as int <= 0xFFFF_FFFF * 0xFFFF_FFFF,
            0 <= tq as int <= 0x2_0000_0000,
    ;
    let td: u128 = k * tq;
    assert(td as int == spec_scaled_bit(bitrate, brp as int, tseg1 as int, tseg2 as int));
    let fclk: u128 = caps.fclk_can as u128;
    let diff: u128 = if fclk >= td { fclk - td } else { td - fclk };
    if td == 0 || 20 * diff > td {
        return None;
    }
    let lead: u128 = 8 * (1 + tseg1 as u128);
    let want: u128 = 7 * tq;
    let off: u128 = if lead >= want { lead - want } else { want - lead };
    assert(off as int == spec_abs(8 * (1 + tseg1 as int) - 7 * (1 + tseg1 as int + tseg2 as int)));
    assert(k * off <= 7 * td) by (nonlinear_arith)
        requires
            td == k * tq,
            off <= 7 * tq,
            k >= 0,
    ;
    let num: u128 = 80 * diff + k * off;
    Some((num, 8 * td))
}

/// Splits the quanta before the sample point into the propagation segment
/// and phase segment 1. Phase segment 1 gets half of them, rounded down, but
/// no more than the limit and no less than one; the propagation segment gets
/// the rest. A propagation segment left empty takes one quantum from phase
/// segment 1 if that has more than one; otherwise the point is refused.
fn derive_segments(tseg1: u32, tseg1_max: u32) -> (r: Option<(u32, u32)>)
    requires
        tseg1 <= tseg1_max,
    ensures
        r is Some <==> tseg1 >= 2,
        match r {
            Some((prop_seg, phase_seg1)) => {
                &&& phase_seg1 == tseg1 / 2
                &&& prop_seg == tseg1 - tseg1 / 2
            },
            None => true,
        },
{
    let mut phase_seg1: u32 = if tseg1 > 1 {
        if tseg1 / 2 <= tseg1_max {
            tseg1 / 2
        } else {
            tseg1_max
        }
    } else {
        1
    };
    if phase_seg1 == 0 {
        phase_seg1 = 1;
    }
    let mut prop_seg: u32 = if tseg1 >= phase_seg1 {
        tseg1 - phase_seg1
    } else {
        0
    };
    if prop_seg == 0 {
        if phase_seg1 > 1 {
            phase_seg1 = phase_seg1 - 1;
            prop_seg = 1;
        } else {
            return None;
        }
    }
    Some((prop_seg, phase_seg1))
}

/// Whether the executable record of the best point so far agrees with the
/// point itself.
spec fn spec_tracks(
    caps: GsBtConst,
    bitrate: u32,
    best: Option<GsDeviceBitTiming>,
    best_num: u128,
    best_den: u128,
    pick: Option<(int, int, int)>,
) -> bool {
    &&& best_num < 0x100_0000_0000
    &&& 0 < best_den < 0x100_0000_0000
    &&& match pick {
        None => best is None,
        Some(p) => {
            &&& best == Some(spec_solution(caps, p.0, p.1, p.2))
            &&& best_num == spec_score_num(caps, bitrate, p.0, p.1, p.2)
            &&& best_den == spec_score_den(bitrate, p.0, p.1, p.2)
        },
    }
}

/// The search state does not depend on how the limit is written: two limits
/// with the same grid points before them carry the same state.
#[verifier::rlimit(40)]
proof fn lemma_limit_moves(
    caps: GsBtConst,
    bitrate: u32,
    pick: Option<(int, int, int)>,
    l1: (int, int, int),
    l2: (int, int, int),
)
    requires
        spec_search_state(caps, bitrate, pick, l1.0, l1.1, l1.2),
        forall|x: int, y: int, z: int| #[trigger]
            spec_in_grid(caps, x, y, z) ==> (spec_precedes(x, y, z, l1.0, l1.1, l1.2) <==> spec_precedes(
                x,
                y,
                z,
                l2.0,
                l2.1,
                l2.2,
            )),
    ensures
        spec_search_state(caps, bitrate, pick, l2.0, l2.1, l2.2),
{
    match pick {
        None => {
            assert forall|x: int, y: int, z: int| #[trigger]
                spec_acceptable(caps, bitrate, x, y, z) implies !spec_precedes(x, y, z, l2.0, l2.1, l2.2) by {
                assert(spec_in_grid(caps, x, y, z));
            }
        },
        Some(p) => {
            assert(spec_in_grid(caps, p.0, p.1, p.2));
            assert forall|x: int, y: int, z: int|
                #[trigger] spec_acceptable(caps, bitrate, x, y, z) && spec_precedes(
                    x,
                    y,
                    z,
                    l2.0,
                    l2.1,
                    l2.2,
                ) implies {
                &&& !spec_beats(caps, bitrate, x, y, z, p.0, p.1, p.2)
                &&& (spec_precedes(x, y, z, p.0, p.1, p.2) ==> spec_beats(
                    caps,
                    bitrate,
                    p.0,
                    p.1,
                    p.2,
                    x,
                    y,
                    z,
                ))
            } by {
                assert(spec_in_grid(caps, x, y, z));
            }
        },
    }
}

/// Looking at one more point keeps the search state: the point becomes the
/// best one where it is a candidate and beats the best so far, or is the
/// first candidate.
#[verifier::rlimit(40)]
proof fn lemma_search_step(
    caps: GsBtConst,
    bitrate: u32,
    before: Option<(int, int, int)>,
    after: Option<(int, int, int)>,
    brp: int,
    tseg1: int,
    tseg2: int,
)
    requires
        spec_search_state(caps, bitrate, before, brp, tseg1, tseg2),
        after == (if spec_acceptable(caps, bitrate, brp, tseg1, tseg2) && (match before {
            None => true,
            Some(c) => spec_beats(caps, bitrate, brp, tseg1, tseg2, c.0, c.1, c.2),
        }) {
            Some((brp, tseg1, tseg2))
        } else {
            before
        }),
    ensures
        spec_search_state(caps, bitrate, after, brp, tseg1, tseg2 + 1),
{
    if after == before {
        match before {
            None => {
                assert forall|x: int, y: int, z: int| #[trigger]
                    spec_acceptable(caps, bitrate, x, y, z) implies !spec_precedes(
                    x,
                    y,
                    z,
                    brp,
                    tseg1,
                    tseg2 + 1,
                ) by {
                    if spec_precedes(x, y, z, brp, tseg1, tseg2 + 1) {
                        assert(spec_precedes(x, y, z, brp, tseg1, tseg2) || (x == brp && y == tseg1 && z
                            == tseg2));
                    }
                }
            },
            Some(c) => {
                assert forall|x: int, y: int, z: int|
                    #[trigger] spec_acceptable(caps, bitrate, x, y, z) && spec_precedes(
                        x,
                        y,
                        z,
                        brp,
                        tseg1,
                        tseg2 + 1,
                    ) implies {
                    &&& !spec_beats(caps, bitrate, x, y, z, c.0, c.1, c.2)
                    &&& (spec_precedes(x, y, z, c.0, c.1, c.2) ==> spec_beats(
                        caps,
                        bitrate,
                        c.0,
                        c.1,
                        c.2,
                        x,
                        y,
                        z,
                    ))
                } by {
                    assert(spec_precedes(x, y, z, brp, tseg1, tseg2) || (x == brp && y == tseg1 && z
                        == tseg2));
                }
            },
        }
    } else {
        assert forall|x: int, y: int, z: int|
            #[trigger] spec_acceptable(caps, bitrate, x, y, z) && spec_precedes(
                x,
                y,
                z,
                brp,
                tseg1,
                tseg2 + 1,
            ) implies {
            &&& !spec_beats(caps, bitrate, x, y, z, brp, tseg1, tseg2)
            &&& (spec_precedes(x, y, z, brp, tseg1, tseg2) ==> spec_beats(
                caps,
                bitrate,
                brp,
                tseg1,
                tseg2,
                x,
                y,
                z,
            ))
        } by {
            if spec_precedes(x, y, z, brp, tseg1, tseg2) {
                match before {
                    None => {},
                    Some(c) => {
                        lemma_score_order(
                            spec_score_num(caps, bitrate, brp, tseg1, tseg2),
                            spec_score_den(bitrate, brp, tseg1, tseg2),
                            spec_score_num(caps, bitrate, c.0, c.1, c.2),
                            spec_score_den(bitrate, c.0, c.1, c.2),
                            spec_score_num(caps, bitrate, x, y, z),
                            spec_score_den(bitrate, x, y, z),
                        );
                    },
                }
            } else {
                assert(x == brp && y == tseg1 && z == tseg2);
            }
        }
    }
}

/// Searches the grid of prescalers and segment lengths for the timing whose
/// bitrate is within five percent of `bitrate` and whose score is lowest, the
/// first such point in search order where several share that score.
///
/// Returns `None` exactly where the grid holds no candidate. A timing that is
/// returned has at least one quantum in the propagation segment and in phase
/// segment 1, and its jump width is the smaller of the limit and phase
/// segment 2.
#[verifier::rlimit(40)]
pub fn calc_bit_timing(bitrate: u32, caps: &GsBtConst) -> (r: Option<GsDeviceBitTiming>)
    ensures
        match r {
            None => forall|x: int, y: int, z: int| !#[trigger] spec_acceptable(*caps, bitrate, x, y, z),
            Some(t) => {
                let tseg1 = t.prop_seg as int + t.phase_seg1 as int;
                &&& spec_chosen(
                    *caps,
                    bitrate,
                    t.brp as int,
                    tseg1,
                    t.phase_seg2 as int,
                    caps.brp_max as int + 1,
                    0,
                    0,
                )
                &&& t == spec_solution(*caps, t.brp as int, tseg1, t.phase_seg2 as int)
                &&& t.prop_seg >= 1
                &&& t.phase_seg1 >= 1
                &&& t.phase_seg2 >= caps.tseg2_min
                &&& t.sjw == (if caps.sjw_max <= t.phase_seg2 { caps.sjw_max } else { t.phase_seg2 })
            },
        },
{
    let mut best: Option<GsDeviceBitTiming> = None;
    let mut best_num: u128 = 0;
    let mut best_den: u128 = 1;
    let ghost mut pick: Option<(int, int, int)> = None;
    let mut brp: u64 = caps.brp_min as u64;
    while brp <= caps.brp_max as u64
        invariant
            caps.brp_min <= brp,
            brp <= caps.brp_max + 1 || pick is None,
            spec_search_state(*caps, bitrate, pick, brp as int, 0, 0),
            spec_tracks(*caps, bitrate, best, best_num, best_den, pick),
        decreases caps.brp_max + 1 - brp,
    {
        let mut tseg1: u64 = caps.tseg1_min as u64;
        proof {
            lemma_limit_moves(*caps, bitrate, pick, (brp as int, 0, 0), (brp as int, tseg1 as int, 0));
        }
        while tseg1 <= caps.tseg1_max as u64
            invariant
                caps.brp_min <= brp <= caps.brp_max,
                caps.tseg1_min <= tseg1,
                spec_search_state(*caps, bitrate, pick, brp as int, tseg1 as int, 0),
                spec_tracks(*caps, bitrate, best, best_num, best_den, pick),
            decreases caps.tseg1_max + 1 - tseg1,
        {
            let mut tseg2: u64 = caps.tseg2_min as u64;
            proof {
                lemma_limit_moves(
                    *caps,
                    bitrate,
                    pick,
                    (brp as int, tseg1 as int, 0),
                    (brp as int, tseg1 as int, tseg2 as int),
                );
            }
            while tseg2 <= caps.tseg2_max as u64
                invariant
                    caps.brp_min <= brp <= caps.brp_max,
                    caps.tseg1_min <= tseg1 <= caps.tseg1_max,
                    caps.tseg2_min <= tseg2,
                    spec_search_state(*caps, bitrate, pick, brp as int, tseg1 as int, tseg2 as int),
                    spec_tracks(*caps, bitrate, best, best_num, best_den, pick),
                decreases caps.tseg2_max + 1 - tseg2,
            {
                let ghost before = pick;
                match candidate_score(caps, bitrate, brp as u32, tseg1 as u32, tseg2 as u32) {
                    None => {},
                    Some((num, den)) => {
                        match derive_segments(tseg1 as u32, caps.tseg1_max) {
                            None => {},
                            Some((prop_seg, phase_seg1)) => {
                                assert(num * best_den <= 0x100_0000_0000 * 0x100_0000_0000 && best_num
                                    * den <= 0x100_0000_0000 * 0x100_0000_0000) by (nonlinear_arith)
                                    requires
                                        num < 0x100_0000_0000,
                                        den < 0x100_0000_0000,
                                        best_num < 0x100_0000_0000,
                                        best_den < 0x100_0000_0000,
                                ;
                                if best.is_none() || num * best_den < best_num * den {
                                    let phase_seg2: u32 = tseg2 as u32;
                                    let sjw: u32 = if caps.sjw_max <= phase_seg2 {
                                        caps.sjw_max
                                    } else {
                                        phase_seg2
                                    };
                                    best = Some(
                                        GsDeviceBitTiming {
                                            prop_seg,
                                            phase_seg1,
                                            phase_seg2,
                                            sjw,
                                            brp: brp as u32,
                                        },
                                    );
                                    best_num = num;
                                    best_den = den;
                                    proof {
                                        pick = Some((brp as int, tseg1 as int, tseg2 as int));
                                    }
                                }
                            },
                        }
                    },
                }
                proof {
                    lemma_search_step(*caps, bitrate, before, pick, brp as int, tseg1 as int, tseg2 as int);
                }
                tseg2 += 1;
            }
            proof {
                lemma_limit_moves(
                    *caps,
                    bitrate,
                    pick,
                    (brp as int, tseg1 as int, tseg2 as int),
                    (brp as int, tseg1 as int + 1, 0),
                );
            }
            tseg1 += 1;
        }
        proof {
            lemma_limit_moves(*caps, bitrate, pick, (brp as int, tseg1 as int, 0), (brp as int + 1, 0, 0));
        }
        brp += 1;
    }
    proof {
        lemma_limit_moves(*caps, bitrate, pick, (brp as int, 0, 0), (caps.brp_max as int + 1, 0, 0));
    }
    best
}

/// Whether the constants are those typical of candleLight-class adapters,
/// whatever the features: a 48 MHz clock, 1 to 16 quanta in the first
/// segment, 1 to 8 in the second, a jump width of up to 4 and prescalers 1 to
/// 1024.
pub open spec fn spec_typical(caps: GsBtConst) -> bool {
    &&& caps.fclk_can == 48_000_000
    &&& caps.tseg1_min == 1
    &&& caps.tseg1_max == 16
    &&& caps.tseg2_min == 1
    &&& caps.tseg2_max == 8
    &&& caps.sjw_max == 4
    &&& caps.brp_min == 1
    &&& caps.brp_max == 1024
}

/// With the typical constants, the point that the search settles on for
/// any bitrate samples at or after the middle of the bit and before its
/// end, its bitrate is within five percent, and every segment has at least
/// one quantum.
#[verifier::rlimit(40)]
pub proof fn lemma_typical_solution(caps: GsBtConst, bitrate: u32, brp: int, tseg1: int, tseg2: int)
    requires
        spec_typical(caps),
        spec_chosen(caps, bitrate, brp, tseg1, tseg2, caps.brp_max as int + 1, 0, 0),
    ensures
        spec_rate_ok(caps, bitrate, brp, tseg1, tseg2),
        2 * (1 + tseg1) >= 1 + tseg1 + tseg2,
        1 + tseg1 < 1 + tseg1 + tseg2,
        spec_solution(caps, brp, tseg1, tseg2).prop_seg >= 1,
        spec_solution(caps, brp, tseg1, tseg2).phase_seg1 >= 1,
        spec_solution(caps, brp, tseg1, tseg2).phase_seg2 >= 1,
        spec_solution(caps, brp, tseg1, tseg2).sjw == (if 4 <= tseg2 { 4 } else { tseg2 }),
{
    if 2 * (1 + tseg1) < 1 + tseg1 + tseg2 {
        // Moving all but one quantum of the second segment into the first
        // keeps the bitrate and brings the sample point closer to 7/8.
        let alt1 = tseg1 + tseg2 - 1;
        let tq = 1 + tseg1 + tseg2;
        let k = bitrate as int * brp;
        let td = spec_scaled_bit(bitrate, brp, tseg1, tseg2);
        assert(spec_scaled_bit(bitrate, brp, alt1, 1) == td);
        assert(spec_acceptable(caps, bitrate, brp, alt1, 1));
        assert(spec_precedes(brp, alt1, 1, caps.brp_max as int + 1, 0, 0));
        let off = spec_abs(8 * (1 + tseg1) - 7 * tq);
        let alt_off = spec_abs(8 * (1 + alt1) - 7 * tq);
        assert(alt_off < off);
        assert(k > 0) by (nonlinear_arith)
            requires
                k * tq > 0,
                tq > 0,
        ;
        assert(k * alt_off < k * off) by (nonlinear_arith)
            requires
                k > 0,
                alt_off < off,
        ;
        let num = spec_score_num(caps, bitrate, brp, tseg1, tseg2);
        let alt_num = spec_score_num(caps, bitrate, brp, alt1, 1);
        let den = spec_score_den(bitrate, brp, tseg1, tseg2);
        assert(spec_score_den(bitrate, brp, alt1, 1) == den);
        assert(alt_num < num);
        assert(alt_num * den < num * den) by (nonlinear_arith)
            requires
                alt_num < num,
                den > 0,
        ;
        assert(spec_beats(caps, bitrate, brp, alt1, 1, brp, tseg1, tseg2));
        assert(false);
    }
}

} // verus!
