//! Little-endian words and byte-range helpers shared by the wire codecs.

use vstd::prelude::*;

verus! {

/// The 32-bit word whose little-endian encoding is `b0 b1 b2 b3`.
pub open spec fn spec_le32(b0: u8, b1: u8, b2: u8, b3: u8) -> u32 {
    (b0 as int + 0x100 * (b1 as int) + 0x1_0000 * (b2 as int) + 0x100_0000 * (b3 as int)) as u32
}

/// The little-endian word stored at offset `at` of `s`.
pub open spec fn spec_le32_at(s: Seq<u8>, at: int) -> u32
    recommends
        0 <= at,
        at + 4 <= s.len(),
{
    spec_le32(s[at], s[at + 1], s[at + 2], s[at + 3])
}

/// The four bytes of `x`, least significant first.
pub open spec fn spec_le32_bytes(x: u32) -> Seq<u8> {
    seq![
        (x % 0x100) as u8,
        ((x / 0x100) % 0x100) as u8,
        ((x / 0x100 / 0x100) % 0x100) as u8,
        (x / 0x100 / 0x100 / 0x100) as u8,
    ]
}

/// Decoding the encoding of a word gives the word back.
#[verifier::rlimit(40)]
pub proof fn lemma_le32_round_trip(x: u32)
    ensures
        spec_le32_bytes(x).len() == 4,
        spec_le32_at(spec_le32_bytes(x), 0) == x,
{
    let q1 = x / 0x100;
    let q2 = q1 / 0x100;
    let q3 = q2 / 0x100;
    assert(x == x % 0x100 + 0x100 * q1);
    assert(q1 == q1 % 0x100 + 0x100 * q2);
    assert(q2 == q2 % 0x100 + 0x100 * q3);
    assert(q3 < 0x100);
    let s = spec_le32_bytes(x);
    assert(s[0] == x % 0x100 && s[1] == q1 % 0x100 && s[2] == q2 % 0x100 && s[3] == q3);
}

/// Reads the little-endian word at offset `at`.
pub fn read_le32(bytes: &[u8], at: usize) -> (x: u32)
    requires
        at + 4 <= bytes@.len(),
    ensures
        x == spec_le32_at(bytes@, at as int),
{
    let b0: u32 = bytes[at] as u32;
    let b1: u32 = bytes[at + 1] as u32;
    let b2: u32 = bytes[at + 2] as u32;
    let b3: u32 = bytes[at + 3] as u32;
    b0 + 0x100 * b1 + 0x1_0000 * b2 + 0x100_0000 * b3
}

/// Appends the little-endian encoding of `x` to `out`.
pub fn push_le32(out: &mut Vec<u8>, x: u32)
    ensures
        final(out)@ == old(out)@ + spec_le32_bytes(x),
{
    out.push((x % 0x100) as u8);
    out.push(((x / 0x100) % 0x100) as u8);
    out.push(((x / 0x100 / 0x100) % 0x100) as u8);
    out.push((x / 0x100 / 0x100 / 0x100) as u8);
    assert(out@ =~= old(out)@ + spec_le32_bytes(x));
}

/// Copies `bytes[from..to]` into a fresh vector.
pub fn copy_range(bytes: &[u8], from: usize, to: usize) -> (out: Vec<u8>)
    requires
        from <= to,
        to <= bytes@.len(),
    ensures
        out@ == bytes@.subrange(from as int, to as int),
{
    let mut out: Vec<u8> = Vec::new();
    let mut i: usize = from;
    while i < to
        invariant
            from <= i,
            i <= to,
            to <= bytes@.len(),
            out@ == bytes@.subrange(from as int, i as int),
        decreases to - i,
    {
        out.push(bytes[i]);
        i += 1;
        assert(out@ =~= bytes@.subrange(from as int, i as int));
    }
    out
}

/// Appends `src[from..]` to `out`.
pub fn append_from(out: &mut Vec<u8>, src: &[u8], from: usize)
    requires
        from <= src@.len(),
    ensures
        final(out)@ == old(out)@ + src@.subrange(from as int, src@.len() as int),
{
    let mut i: usize = from;
    while i < src.len()
        invariant
            from <= i <= src@.len(),
            out@ == old(out)@ + src@.subrange(from as int, i as int),
        decreases src@.len() - i,
    {
        out.push(src[i]);
        i += 1;
        assert(out@ =~= old(out)@ + src@.subrange(from as int, i as int));
    }
}

/// Appends `n` zero bytes to `out`.
pub fn push_zeros(out: &mut Vec<u8>, n: usize)
    ensures
        final(out)@ == old(out)@ + Seq::new(n as nat, |i: int| 0u8),
{
    let mut i: usize = 0;
    while i < n
        invariant
            i <= n,
            out@ == old(out)@ + Seq::new(i as nat, |j: int| 0u8),
        decreases n - i,
    {
        out.push(0u8);
        i += 1;
        assert(out@ =~= old(out)@ + Seq::new(i as nat, |j: int| 0u8));
    }
}

/// Whether a byte is ASCII white space.
pub open spec fn spec_is_space(c: u8) -> bool {
    c == 32 || (9 <= c <= 13)
}

/// Whether `s[from..to]` is `s` without the white space at its two ends.
pub open spec fn spec_trimmed(s: Seq<u8>, from: int, to: int) -> bool {
    &&& 0 <= from <= to <= s.len()
    &&& forall|i: int| 0 <= i < from ==> spec_is_space(#[trigger] s[i])
    &&& forall|i: int| to <= i < s.len() ==> spec_is_space(#[trigger] s[i])
    &&& (from < to ==> !spec_is_space(s[from]) && !spec_is_space(s[to - 1]))
    &&& (from == to ==> from == s.len())
}

/// Only one range of a string is the string trimmed.
pub proof fn lemma_trim_unique(s: Seq<u8>, a: int, b: int, c: int, d: int)
    requires
        spec_trimmed(s, a, b),
        spec_trimmed(s, c, d),
    ensures
        a == c,
        b == d,
{
    if a < c {
        assert(spec_is_space(s[a]));
    }
    if c < a {
        assert(spec_is_space(s[c]));
    }
    if b < d {
        assert(spec_is_space(s[d - 1]));
    }
    if d < b {
        assert(spec_is_space(s[b - 1]));
    }
}

/// A string without the white space at its two ends.
pub open spec fn spec_trim(s: Seq<u8>) -> Seq<u8> {
    let cut = choose|from: int, to: int| spec_trimmed(s, from, to);
    s.subrange(cut.0, cut.1)
}

/// Cuts the white space off both ends of `line`.
#[verifier::rlimit(40)]
pub fn trim_ascii(line: &[u8]) -> (r: Vec<u8>)
    ensures
        exists|from: int, to: int| spec_trimmed(line@, from, to) && r@ == line@.subrange(from, to),
        r@ == spec_trim(line@),
{
    let mut from: usize = 0;
    while from < line.len() && (line[from] == 32 || (9 <= line[from] && line[from] <= 13))
        invariant
            from <= line@.len(),
            forall|i: int| 0 <= i < from ==> spec_is_space(#[trigger] line@[i]),
        decreases line@.len() - from,
    {
        from += 1;
    }
    let mut to: usize = line.len();
    while to > from && (line[to - 1] == 32 || (9 <= line[to - 1] && line[to - 1] <= 13))
        invariant
            from <= to <= line@.len(),
            forall|i: int| to <= i < line@.len() ==> spec_is_space(#[trigger] line@[i]),
        decreases to,
    {
        to -= 1;
    }
    let r = copy_range(line, from, to);
    assert(spec_trimmed(line@, from as int, to as int));
    proof {
        let cut = choose|a: int, b: int| spec_trimmed(line@, a, b);
        lemma_trim_unique(line@, from as int, to as int, cut.0, cut.1);
    }
    r
}

/// Whether `i` is the first place in `s` that holds `needle`.
pub open spec fn spec_first_at(s: Seq<u8>, needle: u8, i: int) -> bool {
    &&& 0 <= i < s.len()
    &&& s[i] == needle
    &&& forall|j: int| 0 <= j < i ==> s[j] != needle
}

/// Whether `s` holds `needle` anywhere.
pub open spec fn spec_occurs(s: Seq<u8>, needle: u8) -> bool {
    exists|i: int| 0 <= i < s.len() && s[i] == needle
}

/// `memchr::memchr` returns the index of the first occurrence of the byte in
/// the slice, and `None` where the slice does not hold it.
pub assume_specification[ memchr::memchr ](needle: u8, haystack: &[u8]) -> (r: Option<usize>)
    ensures
        match r {
            Some(i) => spec_first_at(haystack@, needle, i as int),
            None => !spec_occurs(haystack@, needle),
        },
;

/// Whether `s` holds a first occurrence of `needle`.
pub open spec fn spec_has_first(s: Seq<u8>, needle: u8) -> bool {
    exists|i: int| spec_first_at(s, needle, i)
}

/// The place of the first occurrence of `needle` in `s`.
pub open spec fn spec_first_index(s: Seq<u8>, needle: u8) -> int {
    choose|i: int| spec_first_at(s, needle, i)
}

/// A string that holds a byte holds it somewhere first.
pub proof fn lemma_no_first_no_occurrence(s: Seq<u8>, needle: u8)
    requires
        !spec_has_first(s, needle),
    ensures
        !spec_occurs(s, needle),
    decreases s.len(),
{
    if spec_occurs(s, needle) {
        let i = choose|i: int| 0 <= i < s.len() && s[i] == needle;
        lemma_first_before(s, needle, i);
    }
}

/// The byte at `i` has a first occurrence at or before `i`.
proof fn lemma_first_before(s: Seq<u8>, needle: u8, i: int)
    requires
        0 <= i < s.len(),
        s[i] == needle,
    ensures
        spec_has_first(s, needle),
    decreases i,
{
    if exists|j: int| 0 <= j < i && s[j] == needle {
        let j = choose|j: int| 0 <= j < i && s[j] == needle;
        lemma_first_before(s, needle, j);
    } else {
        assert(spec_first_at(s, needle, i));
    }
}

/// Finds the first place of `needle` in `s`.
pub fn find_first(s: &[u8], needle: u8) -> (r: Option<usize>)
    ensures
        r is Some <==> spec_has_first(s@, needle),
        r is Some ==> r->0 as int == spec_first_index(s@, needle) && spec_first_at(s@, needle, r->0 as int),
{
    let found = memchr::memchr(needle, s);
    proof {
        match found {
            Some(at) => {
                let chosen = spec_first_index(s@, needle);
                assert(spec_first_at(s@, needle, chosen));
                if chosen < at {
                    assert(s@[chosen] != needle);
                } else if at < chosen {
                    assert(s@[at as int] != needle);
                }
            },
            None => {
                assert forall|i: int| !spec_first_at(s@, needle, i) by {
                    if spec_first_at(s@, needle, i) {
                        assert(spec_occurs(s@, needle));
                    }
                }
            },
        }
    }
    found
}

} // verus!
