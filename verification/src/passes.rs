//! The conversion as a list of full passes over the buffer, one per
//! substitution, and the proof that the single pass gives the same bytes.

use vstd::prelude::*;

use crate::convert_file::{first_match_from, spec_convert};
use crate::convertions::{spec_byte_map, spec_pattern, spec_replacement, starts_with};

verus! {

/// One full pass: every occurrence of `from`, found scanning left to right
/// and never overlapping the previous one, replaced by `to`.
pub open spec fn replace_all(s: Seq<u8>, from: Seq<u8>, to: Seq<u8>) -> Seq<u8>
    decreases s.len(),
{
    if s.len() == 0 {
        Seq::empty()
    } else if from.len() > 0 && starts_with(s, from) {
        to + replace_all(s.skip(from.len() as int), from, to)
    } else {
        seq![s[0]] + replace_all(s.skip(1), from, to)
    }
}

/// The byte substituted by single-byte pass `k` (for `k` among 1, 3 and
/// 7 to 37) and the byte put in its place.
pub open spec fn pass_byte(k: int) -> (u8, u8) {
    if k == 1 { (26, 32) }
    else if k == 3 { (251, 42) }
    else if k == 7 { (30, 94) }
    else if k == 8 { (31, 86) }
    else if k == 9 { (193, 196) }
    else if k == 10 { (194, 196) }
    else if k == 11 { (180, 179) }
    else if k == 12 { (195, 179) }
    else if k == 13 { (183, 65) }
    else if k == 14 { (181, 65) }
    else if k == 15 { (142, 65) }
    else if k == 16 { (199, 65) }
    else if k == 17 { (144, 69) }
    else if k == 18 { (153, 79) }
    else if k == 19 { (128, 67) }
    else if k == 20 { (132, 97) }
    else if k == 21 { (133, 97) }
    else if k == 22 { (131, 97) }
    else if k == 23 { (160, 97) }
    else if k == 24 { (225, 97) }
    else if k == 25 { (198, 97) }
    else if k == 26 { (130, 101) }
    else if k == 27 { (136, 101) }
    else if k == 28 { (137, 101) }
    else if k == 29 { (161, 105) }
    else if k == 30 { (147, 111) }
    else if k == 31 { (162, 111) }
    else if k == 32 { (148, 111) }
    else if k == 33 { (163, 117) }
    else if k == 34 { (129, 117) }
    else if k == 35 { (135, 99) }
    else if k == 36 { (166, 46) }
    else { (167, 46) }
}

/// The pattern searched by pass `k` of the 38 passes: `\r\n`, byte 26,
/// `chr(251)`, byte 251, `chr(24)`, `chr(30)`, `chr(31)`, then single bytes.
pub open spec fn pass_from(k: int) -> Seq<u8> {
    if k == 0 { spec_pattern(0) }
    else if k == 2 { spec_pattern(1) }
    else if k == 4 { spec_pattern(2) }
    else if k == 5 { spec_pattern(3) }
    else if k == 6 { spec_pattern(4) }
    else { seq![pass_byte(k).0] }
}

/// What pass `k` puts in place of each occurrence of [`pass_from`]`(k)`.
pub open spec fn pass_to(k: int) -> Seq<u8> {
    if k == 0 { spec_replacement(0) }
    else if k == 2 { spec_replacement(1) }
    else if k == 4 { spec_replacement(2) }
    else if k == 5 { spec_replacement(3) }
    else if k == 6 { spec_replacement(4) }
    else { seq![pass_byte(k).1] }
}

/// Passes `k` to 37 applied in order to `s`.
pub open spec fn passes_from(s: Seq<u8>, k: int) -> Seq<u8>
    decreases 38 - k,
{
    if k < 0 || k >= 38 {
        s
    } else {
        passes_from(replace_all(s, pass_from(k), pass_to(k)), k + 1)
    }
}

/// The conversion done pass by pass: each substitution in order, over the
/// whole buffer.
pub open spec fn spec_convert_by_passes(s: Seq<u8>) -> Seq<u8> {
    passes_from(s, 0)
}

/// `y`, or `t` when it is `b`.
pub open spec fn sub_byte(y: u8, b: u8, t: u8) -> u8 {
    if y == b {
        t
    } else {
        y
    }
}

/// `x` with every byte `b` replaced by `t`.
pub open spec fn sub_bytes(x: Seq<u8>, b: u8, t: u8) -> Seq<u8> {
    x.map_values(|y: u8| sub_byte(y, b, t))
}

/// A byte that occurs in the multibyte patterns or their replacements:
/// `\n`, `\r`, `c`, `h`, `r`, parentheses and digits.
pub open spec fn pattern_byte(c: u8) -> bool {
    c == 10 || c == 13 || c == 99 || c == 104 || c == 114 || c == 40 || c == 41 || (48 <= c
        && c <= 57)
}

/// Every byte of `s` is a [`pattern_byte`].
pub open spec fn all_pattern_bytes(s: Seq<u8>) -> bool {
    forall|i: int| 0 <= i < s.len() ==> #[trigger] pattern_byte(s[i])
}

/// The bytes of the multibyte patterns and replacements.
pub proof fn lemma_tables_bytes(k: int)
    ensures
        all_pattern_bytes(spec_pattern(k)),
        all_pattern_bytes(spec_replacement(k)),
        spec_pattern(k).len() >= 2,
        spec_replacement(k).len() >= 1,
        spec_replacement(k)[0] == 10 || spec_replacement(k)[0] == 99,
        spec_pattern(k)[0] == 13 || spec_pattern(k)[0] == 99,
        forall|j: int|
            1 <= j < spec_pattern(k).len() ==> #[trigger] spec_pattern(k)[j] != 13
                && spec_pattern(k)[j] != 99,
        forall|j: int|
            1 <= j < spec_replacement(k).len() ==> #[trigger] spec_replacement(k)[j] != 13
                && spec_replacement(k)[j] != 99,
        k != 0 ==> forall|j: int|
            1 <= j < spec_pattern(k).len() ==> #[trigger] spec_pattern(k)[j] != 10,
{
}

/// A pass that substitutes one byte by one byte maps every byte.
proof fn lemma_byte_pass(x: Seq<u8>, b: u8, t: u8)
    ensures
        replace_all(x, seq![b], seq![t]) == sub_bytes(x, b, t),
    decreases x.len(),
{
    if x.len() == 0 {
        assert(sub_bytes(x, b, t) =~= Seq::<u8>::empty());
    } else {
        lemma_byte_pass(x.skip(1), b, t);
        assert(starts_with(x, seq![b]) <==> x[0] == b) by {
            if x[0] == b {
                assert(x.subrange(0, 1) =~= seq![b]);
            }
            if starts_with(x, seq![b]) {
                assert(x.subrange(0, 1)[0] == x[0]);
            }
        }
        assert(sub_bytes(x, b, t) =~= seq![sub_byte(x[0], b, t)] + sub_bytes(x.skip(1), b, t));
    }
}

/// A byte substitution that touches no byte of `p` or `r` commutes with the
/// pass replacing `p` by `r`.
proof fn lemma_commute(x: Seq<u8>, b: u8, t: u8, p: Seq<u8>, r: Seq<u8>)
    requires
        p.len() > 0,
        all_pattern_bytes(p),
        all_pattern_bytes(r),
        !pattern_byte(b),
        !pattern_byte(t),
    ensures
        replace_all(sub_bytes(x, b, t), p, r) == sub_bytes(replace_all(x, p, r), b, t),
    decreases x.len(),
{
    let hx = sub_bytes(x, b, t);
    if x.len() > 0 {
        assert(starts_with(hx, p) <==> starts_with(x, p)) by {
            if starts_with(x, p) {
                assert forall|j: int| 0 <= j < p.len() implies hx.subrange(0, p.len() as int)[j]
                    == p[j] by {
                    assert(x.subrange(0, p.len() as int)[j] == x[j]);
                    assert(pattern_byte(p[j]));
                }
                assert(hx.subrange(0, p.len() as int) =~= p);
            }
            if starts_with(hx, p) {
                assert forall|j: int| 0 <= j < p.len() implies x.subrange(0, p.len() as int)[j]
                    == p[j] by {
                    assert(hx.subrange(0, p.len() as int)[j] == hx[j]);
                    assert(pattern_byte(p[j]));
                }
                assert(x.subrange(0, p.len() as int) =~= p);
            }
        }
        assert(sub_bytes(r, b, t) =~= r) by {
            assert forall|j: int| 0 <= j < r.len() implies sub_bytes(r, b, t)[j] == r[j] by {
                assert(pattern_byte(r[j]));
            }
        }
        if starts_with(x, p) {
            let n = p.len() as int;
            lemma_commute(x.skip(n), b, t, p, r);
            assert(hx.skip(n) =~= sub_bytes(x.skip(n), b, t));
            assert(sub_bytes(r + replace_all(x.skip(n), p, r), b, t) =~= sub_bytes(r, b, t)
                + sub_bytes(replace_all(x.skip(n), p, r), b, t));
        } else {
            lemma_commute(x.skip(1), b, t, p, r);
            assert(hx.skip(1) =~= sub_bytes(x.skip(1), b, t));
            assert(sub_bytes(seq![x[0]] + replace_all(x.skip(1), p, r), b, t) =~= seq![hx[0]]
                + sub_bytes(replace_all(x.skip(1), p, r), b, t));
        }
    } else {
        assert(hx =~= Seq::<u8>::empty());
        assert(sub_bytes(Seq::<u8>::empty(), b, t) =~= Seq::<u8>::empty());
    }
}

/// What the single-byte passes `k` to 37 make of the byte `y`.
pub open spec fn tail_map(y: u8, k: int) -> u8
    decreases 38 - k,
{
    if k < 0 || k >= 38 {
        y
    } else {
        tail_map(sub_byte(y, pass_byte(k).0, pass_byte(k).1), k + 1)
    }
}

/// Passes 7 to 37 each substitute one byte.
proof fn lemma_tail(x: Seq<u8>, k: int)
    requires
        7 <= k <= 38,
    ensures
        passes_from(x, k) == x.map_values(|y: u8| tail_map(y, k)),
    decreases 38 - k,
{
    if k < 38 {
        let (b, t) = pass_byte(k);
        lemma_byte_pass(x, b, t);
        lemma_tail(sub_bytes(x, b, t), k + 1);
        assert(sub_bytes(x, b, t).map_values(|y: u8| tail_map(y, k + 1)) =~= x.map_values(
            |y: u8| tail_map(y, k),
        ));
    } else {
        assert(x.map_values(|y: u8| tail_map(y, k)) =~= x);
    }
}

/// The byte passes, in their order, make of each byte what the byte map does.
proof fn lemma_byte_passes_are_the_byte_map(y: u8)
    ensures
        tail_map(sub_byte(sub_byte(y, 26, 32), 251, 42), 7) == spec_byte_map(y),
{
    reveal_with_fuel(tail_map, 32);
}

/// Index of the first of patterns `k` to `n - 1` with which `s` begins.
pub open spec fn first_match_in(s: Seq<u8>, k: int, n: int) -> Option<int>
    decreases n - k,
{
    if k < 0 || k >= n {
        None
    } else if starts_with(s, spec_pattern(k)) {
        Some(k)
    } else {
        first_match_in(s, k + 1, n)
    }
}

/// A pattern found by [`first_match_in`] is one of those searched, begins
/// `s`, and is at least two bytes long.
pub proof fn lemma_first_match_in(s: Seq<u8>, k: int, n: int)
    ensures
        first_match_in(s, k, n) matches Some(i) ==> {
            &&& 0 <= k <= i < n
            &&& starts_with(s, spec_pattern(i))
            &&& 2 <= spec_pattern(i).len() <= s.len()
        },
    decreases n - k,
{
    if 0 <= k < n {
        lemma_tables_bytes(k);
        if !starts_with(s, spec_pattern(k)) {
            lemma_first_match_in(s, k + 1, n);
        }
    }
}

/// One pass that, at each position, replaces the first of the multibyte
/// patterns `0` to `n - 1` that begins there, and keeps any other byte.
pub open spec fn multi_pass(s: Seq<u8>, n: int) -> Seq<u8>
    decreases s.len(),
{
    if s.len() == 0 {
        Seq::empty()
    } else {
        proof {
            lemma_first_match_in(s, 0, n);
        }
        match first_match_in(s, 0, n) {
            Some(i) => spec_replacement(i) + multi_pass(s.skip(spec_pattern(i).len() as int), n),
            None => seq![s[0]] + multi_pass(s.skip(1), n),
        }
    }
}

proof fn lemma_first_match_in_is_first_match(s: Seq<u8>, k: int)
    requires
        0 <= k,
    ensures
        first_match_in(s, k, 5) == first_match_from(s, k),
    decreases 5 - k,
{
    if k < 5 {
        lemma_first_match_in_is_first_match(s, k + 1);
    }
}

proof fn lemma_first_match_in_extend(s: Seq<u8>, j: int, n: int)
    requires
        0 <= j <= n,
    ensures
        first_match_in(s, j, n + 1) == match first_match_in(s, j, n) {
            Some(i) => Some(i),
            None => if starts_with(s, spec_pattern(n)) {
                Some(n)
            } else {
                None
            },
        },
    decreases n - j,
{
    if j < n && !starts_with(s, spec_pattern(j)) {
        lemma_first_match_in_extend(s, j + 1, n);
    }
    if j == n {
        assert(first_match_in(s, n + 1, n + 1) is None);
        assert(first_match_in(s, n, n) is None);
    }
}

proof fn lemma_no_lead_no_match_in(s: Seq<u8>, k: int, n: int)
    requires
        s.len() > 0,
        s[0] != 13,
        s[0] != 99,
    ensures
        first_match_in(s, k, n) is None,
    decreases n - k,
{
    if 0 <= k < n {
        lemma_tables_bytes(k);
        if starts_with(s, spec_pattern(k)) {
            assert(s.subrange(0, spec_pattern(k).len() as int)[0] == s[0]);
        }
        lemma_no_lead_no_match_in(s, k + 1, n);
    }
}

/// With no pattern, the pass keeps every byte.
proof fn lemma_multi_pass_none(s: Seq<u8>)
    ensures
        multi_pass(s, 0) == s,
    decreases s.len(),
{
    if s.len() > 0 {
        lemma_multi_pass_none(s.skip(1));
        assert(s =~= seq![s[0]] + s.skip(1));
    }
}

/// Where no pattern begins at any of the first `l` positions, the pass
/// copies them.
proof fn lemma_copy_prefix(s: Seq<u8>, n: int, l: int)
    requires
        0 <= l <= s.len(),
        forall|j: int| 0 <= j < l ==> #[trigger] first_match_in(s.skip(j), 0, n) is None,
    ensures
        multi_pass(s, n) == s.take(l) + multi_pass(s.skip(l), n),
    decreases l,
{
    if l == 0 {
        assert(s.skip(0) =~= s);
        assert(s.take(0) + multi_pass(s, n) =~= multi_pass(s, n));
    } else {
        assert(s.skip(0) =~= s);
        assert(first_match_in(s.skip(0), 0, n) is None);
        let t = s.skip(1);
        assert forall|j: int| 0 <= j < l - 1 implies #[trigger] first_match_in(t.skip(j), 0, n)
            is None by {
            assert(t.skip(j) =~= s.skip(j + 1));
            assert(first_match_in(s.skip(j + 1), 0, n) is None);
        }
        lemma_copy_prefix(t, n, l - 1);
        assert(t.skip(l - 1) =~= s.skip(l));
        assert(s.take(l) =~= seq![s[0]] + t.take(l - 1));
    }
}

/// What the pass produces begins with `w` only where its input does, when
/// `w` holds no byte that begins a replacement.
proof fn lemma_output_prefix(x: Seq<u8>, n: int, w: Seq<u8>)
    requires
        starts_with(multi_pass(x, n), w),
        forall|j: int| 0 <= j < w.len() ==> #[trigger] w[j] != 10 && w[j] != 99,
    ensures
        starts_with(x, w),
    decreases w.len(),
{
    if w.len() == 0 {
        assert(x.subrange(0, 0) =~= w);
    } else {
        let m = multi_pass(x, n);
        assert(m.subrange(0, w.len() as int)[0] == m[0]);
        if x.len() == 0 {
            assert(m.len() == 0);
        } else {
            lemma_first_match_in(x, 0, n);
            match first_match_in(x, 0, n) {
                Some(i) => {
                    lemma_tables_bytes(i);
                    assert(m[0] == spec_replacement(i)[0]);
                },
                None => {
                    let rest = multi_pass(x.skip(1), n);
                    assert(m == seq![x[0]] + rest);
                    assert(rest.subrange(0, w.len() - 1) =~= m.subrange(1, w.len() as int));
                    assert(m.subrange(1, w.len() as int) =~= w.skip(1));
                    assert forall|j: int| 0 <= j < w.skip(1).len() implies #[trigger] w.skip(
                        1,
                    )[j] != 10 && w.skip(1)[j] != 99 by {
                        assert(w.skip(1)[j] == w[j + 1]);
                    }
                    lemma_output_prefix(x.skip(1), n, w.skip(1));
                    assert(x.subrange(0, w.len() as int) =~= seq![x[0]] + x.skip(1).subrange(
                        0,
                        w.len() - 1,
                    ));
                    assert(w =~= seq![w[0]] + w.skip(1));
                },
            }
        }
    }
}

/// A pass does not touch a prefix of its input where its pattern begins
/// nowhere.
proof fn lemma_replace_skip_prefix(q: Seq<u8>, y: Seq<u8>, p: Seq<u8>, r: Seq<u8>)
    requires
        p.len() > 0,
        forall|j: int| 0 <= j < q.len() ==> !#[trigger] starts_with((q + y).skip(j), p),
    ensures
        replace_all(q + y, p, r) == q + replace_all(y, p, r),
    decreases q.len(),
{
    if q.len() == 0 {
        assert(q + y =~= y);
        assert(q + replace_all(y, p, r) =~= replace_all(y, p, r));
    } else {
        assert((q + y).skip(0) =~= q + y);
        assert(!starts_with((q + y).skip(0), p));
        let q1 = q.skip(1);
        assert forall|j: int| 0 <= j < q1.len() implies !#[trigger] starts_with(
            (q1 + y).skip(j),
            p,
        ) by {
            assert((q1 + y).skip(j) =~= (q + y).skip(j + 1));
            assert(!starts_with((q + y).skip(j + 1), p));
        }
        lemma_replace_skip_prefix(q1, y, p, r);
        assert((q + y).skip(1) =~= q1 + y);
        assert(q =~= seq![q[0]] + q1);
        assert(seq![(q + y)[0]] + (q1 + replace_all(y, p, r)) =~= q + replace_all(y, p, r));
    }
}

/// No pattern searched after pattern `i` begins inside the replacement of
/// pattern `i`.
proof fn lemma_replacement_blocks(i: int, k: int, y: Seq<u8>)
    requires
        0 <= i < k < 5,
    ensures
        forall|j: int|
            0 <= j < spec_replacement(i).len() ==> !#[trigger] starts_with(
                (spec_replacement(i) + y).skip(j),
                spec_pattern(k),
            ),
{
    let q = spec_replacement(i);
    let p = spec_pattern(k);
    lemma_tables_bytes(i);
    lemma_tables_bytes(k);
    assert forall|j: int| 0 <= j < q.len() implies !#[trigger] starts_with((q + y).skip(j), p) by {
        let z = (q + y).skip(j);
        if starts_with(z, p) {
            assert(z.subrange(0, p.len() as int)[0] == z[0]);
            assert(z[0] == q[j]);
            if j == 0 && i >= 1 {
                assert(z.subrange(0, p.len() as int)[4] == z[4]);
                assert(z[4] == q[4]);
            }
        }
    }
}

/// Running the pass for pattern `k` over the output of the pass for the
/// patterns before it is the pass for patterns `0` to `k`.
proof fn lemma_multi_step(s: Seq<u8>, k: int)
    requires
        0 <= k < 5,
    ensures
        replace_all(multi_pass(s, k), spec_pattern(k), spec_replacement(k)) == multi_pass(s, k + 1),
    decreases s.len(),
{
    let p = spec_pattern(k);
    let r = spec_replacement(k);
    lemma_tables_bytes(k);
    if s.len() > 0 {
        lemma_first_match_in(s, 0, k);
        lemma_first_match_in_extend(s, 0, k);
        lemma_first_match_in(s, 0, k + 1);
        match first_match_in(s, 0, k) {
            Some(i) => {
                let n = spec_pattern(i).len() as int;
                let y = multi_pass(s.skip(n), k);
                lemma_replacement_blocks(i, k, y);
                lemma_replace_skip_prefix(spec_replacement(i), y, p, r);
                lemma_multi_step(s.skip(n), k);
            },
            None => {
                if starts_with(s, p) {
                    let n = p.len() as int;
                    assert forall|j: int| 0 <= j < n implies #[trigger] first_match_in(
                        s.skip(j),
                        0,
                        k,
                    ) is None by {
                        if j == 0 {
                            assert(s.skip(0) =~= s);
                        } else {
                            assert(s.skip(j)[0] == s[j]);
                            assert(s.subrange(0, n)[j] == s[j]);
                            lemma_no_lead_no_match_in(s.skip(j), 0, k);
                        }
                    }
                    lemma_copy_prefix(s, k, n);
                    assert(s.take(n) =~= p);
                    let y = multi_pass(s.skip(n), k);
                    assert((p + y).subrange(0, n) =~= p);
                    assert((p + y).skip(n) =~= y);
                    lemma_multi_step(s.skip(n), k);
                } else {
                    let m = multi_pass(s, k);
                    let y = multi_pass(s.skip(1), k);
                    assert(m == seq![s[0]] + y);
                    if starts_with(m, p) {
                        if k == 0 {
                            lemma_multi_pass_none(s);
                        } else {
                            let w = p.skip(1);
                            assert(m.subrange(0, p.len() as int)[0] == m[0]);
                            assert(y.subrange(0, p.len() - 1) =~= m.subrange(1, p.len() as int));
                            assert(m.subrange(1, p.len() as int) =~= w);
                            assert forall|j: int| 0 <= j < w.len() implies #[trigger] w[j] != 10
                                && w[j] != 99 by {
                                assert(w[j] == p[j + 1]);
                            }
                            lemma_output_prefix(s.skip(1), k, w);
                            assert(s.subrange(0, p.len() as int) =~= seq![s[0]] + s.skip(1).subrange(
                                0,
                                p.len() - 1,
                            ));
                            assert(p =~= seq![p[0]] + w);
                        }
                    }
                    assert(m.skip(1) =~= y);
                    lemma_multi_step(s.skip(1), k);
                }
            },
        }
    }
}

/// `x` with every byte put through the byte map.
pub open spec fn map_bytes(x: Seq<u8>) -> Seq<u8> {
    x.map_values(|y: u8| spec_byte_map(y))
}

/// The single pass is the pass over all multibyte patterns followed by the
/// byte map: the byte map keeps the bytes of every replacement.
proof fn lemma_convert_is_multi_pass(s: Seq<u8>)
    ensures
        spec_convert(s) == map_bytes(multi_pass(s, 5)),
    decreases s.len(),
{
    if s.len() == 0 {
        assert(map_bytes(Seq::<u8>::empty()) =~= Seq::<u8>::empty());
    } else {
        lemma_first_match_in_is_first_match(s, 0);
        lemma_first_match_in(s, 0, 5);
        match first_match_in(s, 0, 5) {
            Some(i) => {
                let n = spec_pattern(i).len() as int;
                let q = spec_replacement(i);
                lemma_tables_bytes(i);
                lemma_convert_is_multi_pass(s.skip(n));
                assert(map_bytes(q) =~= q) by {
                    assert forall|j: int| 0 <= j < q.len() implies map_bytes(q)[j] == q[j] by {
                        assert(pattern_byte(q[j]));
                    }
                }
                assert(map_bytes(q + multi_pass(s.skip(n), 5)) =~= map_bytes(q) + map_bytes(
                    multi_pass(s.skip(n), 5),
                ));
            },
            None => {
                lemma_convert_is_multi_pass(s.skip(1));
                assert(map_bytes(seq![s[0]] + multi_pass(s.skip(1), 5)) =~= seq![spec_byte_map(s[0])]
                    + map_bytes(multi_pass(s.skip(1), 5)));
            },
        }
    }
}

/// Converting in one pass gives the same bytes as applying the 38
/// substitutions one after the other, each in a full pass over the buffer
/// that replaces every occurrence, scanning left to right without overlap:
/// `\r\n` → `\n`, byte 26 → space, `chr(251)` → `chr(42)`, byte 251 → `*`,
/// `chr(24)` → `chr(94)`, `chr(30)` → `chr(94)`, `chr(31)` → `chr(86)`, then
/// the single CP850 bytes.
pub proof fn law_single_pass_equals_passes(s: Seq<u8>)
    ensures
        spec_convert(s) == spec_convert_by_passes(s),
{
    let p0 = spec_pattern(0);
    let r0 = spec_replacement(0);
    lemma_multi_pass_none(s);
    lemma_multi_step(s, 0);
    let m1 = multi_pass(s, 1);
    let m2 = multi_pass(s, 2);
    let m3 = multi_pass(s, 3);
    let m4 = multi_pass(s, 4);
    let m5 = multi_pass(s, 5);
    lemma_multi_step(s, 1);
    lemma_multi_step(s, 2);
    lemma_multi_step(s, 3);
    lemma_multi_step(s, 4);
    lemma_tables_bytes(1);
    lemma_tables_bytes(2);
    lemma_tables_bytes(3);
    lemma_tables_bytes(4);
    // pass 1: byte 26
    lemma_byte_pass(m1, 26, 32);
    let a1 = sub_bytes(m1, 26, 32);
    // pass 2: chr(251)
    lemma_commute(m1, 26, 32, spec_pattern(1), spec_replacement(1));
    let a2 = sub_bytes(m2, 26, 32);
    // pass 3: byte 251
    lemma_byte_pass(a2, 251, 42);
    let a3 = sub_bytes(a2, 251, 42);
    // passes 4 to 6: chr(24), chr(30), chr(31)
    lemma_commute(a2, 251, 42, spec_pattern(2), spec_replacement(2));
    lemma_commute(m2, 26, 32, spec_pattern(2), spec_replacement(2));
    let a4 = sub_bytes(sub_bytes(m3, 26, 32), 251, 42);
    lemma_commute(sub_bytes(m3, 26, 32), 251, 42, spec_pattern(3), spec_replacement(3));
    lemma_commute(m3, 26, 32, spec_pattern(3), spec_replacement(3));
    let a5 = sub_bytes(sub_bytes(m4, 26, 32), 251, 42);
    lemma_commute(sub_bytes(m4, 26, 32), 251, 42, spec_pattern(4), spec_replacement(4));
    lemma_commute(m4, 26, 32, spec_pattern(4), spec_replacement(4));
    let a6 = sub_bytes(sub_bytes(m5, 26, 32), 251, 42);
    assert(passes_from(s, 0) == passes_from(m1, 1));
    assert(passes_from(m1, 1) == passes_from(a1, 2));
    assert(passes_from(a1, 2) == passes_from(a2, 3));
    assert(passes_from(a2, 3) == passes_from(a3, 4));
    assert(passes_from(a3, 4) == passes_from(a4, 5));
    assert(passes_from(a4, 5) == passes_from(a5, 6));
    assert(passes_from(a5, 6) == passes_from(a6, 7));
    lemma_tail(a6, 7);
    assert forall|j: int| 0 <= j < m5.len() implies a6.map_values(|y: u8| tail_map(y, 7))[j]
        == map_bytes(m5)[j] by {
        lemma_byte_passes_are_the_byte_map(m5[j]);
    }
    assert(a6.map_values(|y: u8| tail_map(y, 7)) =~= map_bytes(m5));
    lemma_convert_is_multi_pass(s);
}

} // verus!
