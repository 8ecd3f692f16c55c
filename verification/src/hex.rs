//! Numbers written as ASCII hex digits.

use vstd::prelude::*;

verus! {

/// The value of an ASCII hex digit of either case.
pub open spec fn spec_hex_val(c: u8) -> Option<int> {
    if 48 <= c <= 57 {
        Some(c - 48)
    } else if 65 <= c <= 70 {
        Some(c - 55)
    } else if 97 <= c <= 102 {
        Some(c - 87)
    } else {
        None
    }
}

/// The number that a run of hex digits writes, most significant digit first;
/// nothing where a byte is no hex digit.
pub open spec fn spec_hex_num(s: Seq<u8>) -> Option<int>
    decreases s.len(),
{
    if s.len() == 0 {
        Some(0)
    } else {
        match (spec_hex_num(s.drop_last()), spec_hex_val(s.last())) {
            (Some(high), Some(digit)) => Some(16 * high + digit),
            _ => None,
        }
    }
}

/// The value of one hex digit.
pub fn hex_val(c: u8) -> (r: Option<u8>)
    ensures
        r is Some <==> spec_hex_val(c) is Some,
        r is Some ==> r->0 as int == spec_hex_val(c)->0 && r->0 < 16,
{
    if 48 <= c && c <= 57 {
        Some(c - 48)
    } else if 65 <= c && c <= 70 {
        Some(c - 55)
    } else if 97 <= c && c <= 102 {
        Some(c - 87)
    } else {
        None
    }
}

/// A run of up to eight hex digits is a number below sixteen to the length
/// of the run.
pub proof fn lemma_hex_num_bound(s: Seq<u8>)
    requires
        s.len() <= 8,
        spec_hex_num(s) is Some,
    ensures
        0 <= spec_hex_num(s)->0 < spec_pow16(s.len()),
    decreases s.len(),
{
    if s.len() > 0 {
        lemma_hex_num_bound(s.drop_last());
    }
}

/// Two hex digits are a number below 256.
pub proof fn lemma_hex_byte(s: Seq<u8>)
    requires
        s.len() == 2,
        spec_hex_num(s) is Some,
    ensures
        0 <= spec_hex_num(s)->0 < 256,
{
    lemma_hex_num_bound(s);
    reveal_with_fuel(spec_pow16, 3);
}

/// Sixteen to the power `n`.
pub open spec fn spec_pow16(n: nat) -> int
    decreases n,
{
    if n == 0 {
        1
    } else {
        16 * spec_pow16((n - 1) as nat)
    }
}

/// Reads the hex number written in `line[from..to]`, at most eight digits.
pub fn parse_hex_digits(line: &[u8], from: usize, to: usize) -> (r: Option<u32>)
    requires
        from <= to <= line@.len(),
        to - from <= 8,
    ensures
        r is Some <==> spec_hex_num(line@.subrange(from as int, to as int)) is Some,
        r is Some ==> r->0 as int == spec_hex_num(line@.subrange(from as int, to as int))->0,
{
    let mut value: u32 = 0;
    let mut i: usize = from;
    while i < to
        invariant
            from <= i <= to,
            to <= line@.len(),
            to - from <= 8,
            spec_hex_num(line@.subrange(from as int, i as int)) == Some(value as int),
        decreases to - i,
    {
        proof {
            let next = line@.subrange(from as int, i + 1);
            assert(next.drop_last() =~= line@.subrange(from as int, i as int));
            assert(next.last() == line@[i as int]);
            lemma_hex_num_bound(line@.subrange(from as int, i as int));
            reveal_with_fuel(spec_pow16, 9);
            lemma_hex_none_grows(line@, from as int, i + 1, to as int);
        }
        match hex_val(line[i]) {
            None => {
                return None;
            },
            Some(d) => {
                value = value * 16 + d as u32;
            },
        }
        i += 1;
    }
    Some(value)
}

/// A run that is no number does not become one by growing.
proof fn lemma_hex_none_grows(s: Seq<u8>, from: int, mid: int, to: int)
    requires
        0 <= from <= mid <= to <= s.len(),
    ensures
        spec_hex_num(s.subrange(from, mid)) is None ==> spec_hex_num(s.subrange(from, to)) is None,
    decreases to - mid,
{
    if mid < to {
        lemma_hex_none_grows(s, from, mid, to - 1);
        assert(s.subrange(from, to).drop_last() =~= s.subrange(from, to - 1));
    }
}

/// The upper-case ASCII digit for a value below sixteen.
pub open spec fn spec_hex_digit(d: int) -> u8 {
    if d < 10 {
        (48 + d) as u8
    } else {
        (55 + d) as u8
    }
}

/// The last `n` hex digits of `v`, most significant first.
pub open spec fn spec_hex_fixed(v: int, n: nat) -> Seq<u8>
    decreases n,
{
    if n == 0 {
        Seq::empty()
    } else {
        spec_hex_fixed(v / 16, (n - 1) as nat).push(spec_hex_digit(v % 16))
    }
}

/// The upper-case ASCII digit for a value below sixteen.
pub fn hex_digit(d: u8) -> (c: u8)
    requires
        d < 16,
    ensures
        c == spec_hex_digit(d as int),
{
    if d < 10 {
        48 + d
    } else {
        55 + d
    }
}

/// Appends the last `n` hex digits of `v`, most significant first.
pub fn push_hex_fixed(out: &mut Vec<u8>, v: u32, n: usize)
    ensures
        final(out)@ == old(out)@ + spec_hex_fixed(v as int, n as nat),
    decreases n,
{
    if n > 0 {
        push_hex_fixed(out, v / 16, n - 1);
        out.push(hex_digit((v % 16) as u8));
        assert(out@ =~= old(out)@ + spec_hex_fixed(v as int, n as nat));
    } else {
        assert(out@ =~= old(out)@ + spec_hex_fixed(v as int, n as nat));
    }
}

/// Digits written for a number read back as that number.
pub proof fn lemma_hex_round_trip(v: int, n: nat)
    requires
        0 <= v < spec_pow16(n),
    ensures
        spec_hex_fixed(v, n).len() == n,
        spec_hex_num(spec_hex_fixed(v, n)) == Some(v),
    decreases n,
{
    if n > 0 {
        lemma_hex_round_trip(v / 16, (n - 1) as nat);
        let s = spec_hex_fixed(v, n);
        assert(s.drop_last() =~= spec_hex_fixed(v / 16, (n - 1) as nat));
    }
}

/// A number is written with as many digits as asked for.
pub proof fn lemma_hex_fixed_len(v: int, n: nat)
    ensures
        spec_hex_fixed(v, n).len() == n,
    decreases n,
{
    if n > 0 {
        lemma_hex_fixed_len(v / 16, (n - 1) as nat);
    }
}

/// The 32-bit number that a run of hex digits writes: there must be a
/// digit, nothing but digits, and a value that fits.
pub open spec fn spec_hex_u32(digits: Seq<u8>) -> Option<u32> {
    match spec_hex_num(digits) {
        Some(v) => if digits.len() > 0 && v <= 0xFFFF_FFFF {
            Some(v as u32)
        } else {
            None
        },
        None => None,
    }
}

/// A run of hex digits that is a number does not shrink by growing, and a
/// run that is none stays none.
proof fn lemma_hex_grows(s: Seq<u8>, mid: int, to: int)
    requires
        0 <= mid <= to <= s.len(),
    ensures
        spec_hex_num(s.subrange(0, mid)) is None ==> spec_hex_num(s.subrange(0, to)) is None,
        spec_hex_num(s.subrange(0, to)) is Some ==> spec_hex_num(s.subrange(0, to))->0 >= spec_hex_num(
            s.subrange(0, mid),
        )->0 >= 0,
    decreases to - mid,
{
    if mid < to {
        lemma_hex_grows(s, mid, to - 1);
        assert(s.subrange(0, to).drop_last() =~= s.subrange(0, to - 1));
    } else {
        lemma_hex_nonneg(s.subrange(0, mid));
    }
}

/// A hex number is not negative.
proof fn lemma_hex_nonneg(s: Seq<u8>)
    ensures
        spec_hex_num(s) is Some ==> spec_hex_num(s)->0 >= 0,
    decreases s.len(),
{
    if s.len() > 0 {
        lemma_hex_nonneg(s.drop_last());
    }
}

/// Reads a 32-bit number from a run of hex digits.
#[verifier::rlimit(40)]
pub fn parse_hex_plain(digits: &[u8]) -> (r: Option<u32>)
    ensures
        r == spec_hex_u32(digits@),
{
    if digits.len() == 0 {
        return None;
    }
    let mut value: u64 = 0;
    let mut i: usize = 0;
    assert(digits@.subrange(0, 0) =~= Seq::<u8>::empty());
    while i < digits.len()
        invariant
            i <= digits@.len(),
            digits@.len() > 0,
            value <= 0xFFFF_FFFF,
            spec_hex_num(digits@.subrange(0, i as int)) == Some(value as int),
        decreases digits@.len() - i,
    {
        proof {
            let next = digits@.subrange(0, i + 1);
            assert(next.drop_last() =~= digits@.subrange(0, i as int));
            assert(next.last() == digits@[i as int]);
            lemma_hex_grows(digits@, i + 1, digits@.len() as int);
            assert(digits@.subrange(0, digits@.len() as int) =~= digits@);
        }
        match hex_val(digits[i]) {
            None => {
                return None;
            },
            Some(d) => {
                value = value * 16 + d as u64;
            },
        }
        if value > 0xFFFF_FFFF {
            return None;
        }
        i += 1;
    }
    assert(digits@.subrange(0, digits@.len() as int) =~= digits@);
    Some(value as u32)
}

/// The payload bytes written as `n` pairs of hex digits from `start` on.
pub open spec fn spec_line_data(line: Seq<u8>, start: int, n: nat) -> Seq<u8> {
    Seq::new(n, |i: int| spec_hex_num(line.subrange(start + 2 * i, start + 2 * i + 2))->0 as u8)
}

/// Whether all of the `n` digit pairs from `start` on are hex.
pub open spec fn spec_line_data_ok(line: Seq<u8>, start: int, n: nat) -> bool {
    forall|i: int| 0 <= i < n ==> (#[trigger] spec_hex_num(line.subrange(start + 2 * i, start + 2 * i + 2))) is Some
}

} // verus!
