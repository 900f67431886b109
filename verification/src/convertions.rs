//! CP850/PT-BR → ASCII conversion tables.
//!
//! Two tables drive the single-pass byte rewriter:
//! * the byte map: an identity table with 33 single-byte substitutions
//!   (e.g. CP850 `á` (0xA0) → ASCII `a`), consulted once per input byte;
//! * the multibyte table: substitutions whose input pattern is longer than
//!   one byte (CRLF → LF, the literal text `chr(251)` → `chr(42)`, ...),
//!   tried in order before the byte map.
use vstd::prelude::*;

verus! {

/// The byte that replaces `b` when it does not start a multibyte pattern:
/// the identity but for the 33 overrides listed in [`build_byte_map`].
pub open spec fn spec_byte_map(b: u8) -> u8 {
    if b == 26 { 32 }
    else if b == 30 { 94 }
    else if b == 31 { 86 }
    else if b == 128 { 67 }
    else if b == 142 || b == 181 || b == 183 || b == 199 { 65 }
    else if b == 144 { 69 }
    else if b == 153 { 79 }
    else if b == 129 || b == 163 { 117 }
    else if b == 130 || b == 136 || b == 137 { 101 }
    else if b == 131 || b == 132 || b == 133 || b == 160 || b == 198 || b == 225 { 97 }
    else if b == 135 { 99 }
    else if b == 147 || b == 148 || b == 162 { 111 }
    else if b == 161 { 105 }
    else if b == 166 || b == 167 { 46 }
    else if b == 180 || b == 195 { 179 }
    else if b == 193 || b == 194 { 196 }
    else if b == 251 { 42 }
    else { b }
}

/// Builds the per-byte translation table: entry `b` is the byte that
/// replaces `b` when `b` does not start a multibyte pattern.
pub fn build_byte_map() -> (map: [u8; 256])
    ensures
        forall|i: int| 0 <= i < 256 ==> map@[i] == spec_byte_map(i as u8),
{
    let mut map = [0u8; 256];
    let mut i: usize = 0;
    while i < 256
        invariant
            i <= 256,
            forall|j: int| 0 <= j < i ==> map@[j] == j,
        decreases 256 - i,
    {
        map[i] = i as u8;
        i += 1;
    }
    map[26] = 32;
    map[30] = 94;
    map[31] = 86;
    map[128] = 67; // 'C'
    map[142] = 65; // 'A'
    map[144] = 69; // 'E'
    map[153] = 79; // 'O'
    map[181] = 65; // 'A'
    map[183] = 65; // 'A'
    map[199] = 65; // 'A'
    map[129] = 117; // 'u'
    map[130] = 101; // 'e'
    map[131] = 97; // 'a'
    map[132] = 97; // 'a'
    map[133] = 97; // 'a'
    map[135] = 99; // 'c'
    map[136] = 101; // 'e'
    map[137] = 101; // 'e'
    map[147] = 111; // 'o'
    map[148] = 111; // 'o'
    map[160] = 97; // 'a'
    map[161] = 105; // 'i'
    map[162] = 111; // 'o'
    map[163] = 117; // 'u'
    map[198] = 97; // 'a'
    map[225] = 97; // 'a'
    map[166] = 46; // '.'
    map[167] = 46; // '.'
    map[180] = 179;
    map[193] = 196;
    map[194] = 196;
    map[195] = 179;
    map[251] = 42;
    assert forall|j: int| 0 <= j < 256 implies map@[j] == spec_byte_map(j as u8) by {}
    map
}

} // verus!

verus! {

/// A table holds, at every index, what [`spec_byte_map`] gives for it.
pub open spec fn is_byte_map(map: [u8; 256]) -> bool {
    forall|i: int| 0 <= i < 256 ==> #[trigger] map@[i] == spec_byte_map(i as u8)
}

/// Number of entries of the multibyte table.
pub const MULTIBYTE_COUNT: usize = 5;

/// Length of the longest multibyte pattern.
pub const MAX_PATTERN_LEN: usize = 8;

/// Input pattern `k` of the multibyte table:
/// `\r\n`, `chr(251)`, `chr(24)`, `chr(30)`, `chr(31)`.
pub open spec fn spec_pattern(k: int) -> Seq<u8> {
    if k == 0 {
        seq![13u8, 10]
    } else if k == 1 {
        seq![99u8, 104, 114, 40, 50, 53, 49, 41]
    } else if k == 2 {
        seq![99u8, 104, 114, 40, 50, 52, 41]
    } else if k == 3 {
        seq![99u8, 104, 114, 40, 51, 48, 41]
    } else {
        seq![99u8, 104, 114, 40, 51, 49, 41]
    }
}

/// Replacement of pattern `k`: `\n`, `chr(42)`, `chr(94)`, `chr(94)`, `chr(86)`.
pub open spec fn spec_replacement(k: int) -> Seq<u8> {
    if k == 0 {
        seq![10u8]
    } else if k == 1 {
        seq![99u8, 104, 114, 40, 52, 50, 41]
    } else if k == 2 || k == 3 {
        seq![99u8, 104, 114, 40, 57, 52, 41]
    } else {
        seq![99u8, 104, 114, 40, 56, 54, 41]
    }
}

/// `s` begins with `p`.
pub open spec fn starts_with(s: Seq<u8>, p: Seq<u8>) -> bool {
    p.len() <= s.len() && s.subrange(0, p.len() as int) == p
}

/// Every multibyte pattern has between 2 and [`MAX_PATTERN_LEN`] bytes and
/// starts with `\r` (13) or `c` (99).
pub proof fn lemma_pattern_shape(k: int)
    requires
        0 <= k < MULTIBYTE_COUNT,
    ensures
        2 <= spec_pattern(k).len() <= MAX_PATTERN_LEN,
        spec_pattern(k)[0] == 13 || spec_pattern(k)[0] == 99,
{
}

/// Length of pattern `k`.
pub fn pattern_len(k: usize) -> (n: usize)
    requires
        k < MULTIBYTE_COUNT,
    ensures
        n == spec_pattern(k as int).len(),
{
    if k == 0 {
        2
    } else if k == 1 {
        8
    } else {
        7
    }
}

/// Whether `input[i..]` begins with `pattern`.
fn starts_with_at(input: &[u8], i: usize, pattern: &[u8]) -> (r: bool)
    requires
        i <= input@.len(),
    ensures
        r == starts_with(input@.skip(i as int), pattern@),
{
    if pattern.len() > input.len() - i {
        return false;
    }
    let mut j: usize = 0;
    while j < pattern.len()
        invariant
            j <= pattern@.len(),
            i + pattern@.len() <= input@.len(),
            input@.len() <= usize::MAX,
            forall|m: int| 0 <= m < j ==> input@[i + m] == pattern@[m],
        decreases pattern@.len() - j,
    {
        if input[i + j] != pattern[j] {
            assert(input@.skip(i as int).subrange(0, pattern@.len() as int)[j as int] != pattern@[j as int]);
            return false;
        }
        j += 1;
    }
    assert(input@.skip(i as int).subrange(0, pattern@.len() as int) =~= pattern@);
    true
}

/// Whether `input[i..]` begins with pattern `k`.
pub fn pattern_matches_at(input: &[u8], i: usize, k: usize) -> (r: bool)
    requires
        i <= input@.len(),
        k < MULTIBYTE_COUNT,
    ensures
        r == starts_with(input@.skip(i as int), spec_pattern(k as int)),
{
    if k == 0 {
        let p: [u8; 2] = [13, 10];
        starts_with_at(input, i, p.as_slice())
    } else if k == 1 {
        let p: [u8; 8] = [99, 104, 114, 40, 50, 53, 49, 41];
        starts_with_at(input, i, p.as_slice())
    } else if k == 2 {
        let p: [u8; 7] = [99, 104, 114, 40, 50, 52, 41];
        starts_with_at(input, i, p.as_slice())
    } else if k == 3 {
        let p: [u8; 7] = [99, 104, 114, 40, 51, 48, 41];
        starts_with_at(input, i, p.as_slice())
    } else {
        let p: [u8; 7] = [99, 104, 114, 40, 51, 49, 41];
        starts_with_at(input, i, p.as_slice())
    }
}

/// Appends the replacement of pattern `k` to `out`.
pub fn push_replacement(out: &mut Vec<u8>, k: usize)
    requires
        k < MULTIBYTE_COUNT,
    ensures
        final(out)@ == old(out)@ + spec_replacement(k as int),
{
    if k == 0 {
        out.push(10);
    } else {
        let digits: [u8; 2] = if k == 1 {
            [52, 50]
        } else if k == 4 {
            [56, 54]
        } else {
            [57, 52]
        };
        out.push(99);
        out.push(104);
        out.push(114);
        out.push(40);
        out.push(digits[0]);
        out.push(digits[1]);
        out.push(41);
    }
    assert(final(out)@ =~= old(out)@ + spec_replacement(k as int));
}

} // verus!
