//! The CP850 → ASCII conversion engine: a single left-to-right pass that,
//! at each position, replaces the first multibyte pattern that begins there
//! or else translates the byte through the byte map.

use vstd::prelude::*;

use crate::convertions::{
    build_byte_map, is_byte_map, lemma_pattern_shape, pattern_len, pattern_matches_at, push_replacement,
    spec_byte_map, spec_pattern, spec_replacement, starts_with, MAX_PATTERN_LEN, MULTIBYTE_COUNT,
};

verus! {

/// Index of the first pattern, from `k` on, with which `s` begins.
pub open spec fn first_match_from(s: Seq<u8>, k: int) -> Option<int>
    decreases MULTIBYTE_COUNT - k,
{
    if k < 0 || k >= MULTIBYTE_COUNT {
        None
    } else if starts_with(s, spec_pattern(k)) {
        Some(k)
    } else {
        first_match_from(s, k + 1)
    }
}

/// Index of the first multibyte pattern with which `s` begins, if any.
pub open spec fn spec_match_multibyte(s: Seq<u8>) -> Option<int> {
    first_match_from(s, 0)
}

/// Number of input bytes consumed by one step of the conversion at the
/// start of `s`.
pub open spec fn step_len(s: Seq<u8>) -> int {
    match spec_match_multibyte(s) {
        Some(k) => spec_pattern(k).len() as int,
        None => 1,
    }
}

/// Bytes emitted by one step of the conversion at the start of `s`.
pub open spec fn step_out(s: Seq<u8>) -> Seq<u8> {
    match spec_match_multibyte(s) {
        Some(k) => spec_replacement(k),
        None => seq![spec_byte_map(s[0])],
    }
}

/// The conversion of a whole buffer.
pub open spec fn spec_convert(s: Seq<u8>) -> Seq<u8>
    decreases s.len(),
{
    if s.len() == 0 {
        seq![]
    } else {
        proof {
            lemma_step_len(s);
        }
        step_out(s) + spec_convert(s.skip(step_len(s)))
    }
}

proof fn lemma_first_match_from(s: Seq<u8>, k: int)
    ensures
        first_match_from(s, k) matches Some(m) ==> {
            &&& 0 <= m < MULTIBYTE_COUNT
            &&& starts_with(s, spec_pattern(m))
        },
    decreases MULTIBYTE_COUNT - k,
{
    if 0 <= k < MULTIBYTE_COUNT && !starts_with(s, spec_pattern(k)) {
        lemma_first_match_from(s, k + 1);
    }
}

/// A step consumes at least one byte and no more than `s` holds.
pub proof fn lemma_step_len(s: Seq<u8>)
    requires
        s.len() > 0,
    ensures
        1 <= step_len(s) <= s.len(),
        step_len(s) <= MAX_PATTERN_LEN,
        spec_match_multibyte(s) matches Some(k) ==> 0 <= k < MULTIBYTE_COUNT && starts_with(
            s,
            spec_pattern(k),
        ),
{
    lemma_first_match_from(s, 0);
    if let Some(k) = spec_match_multibyte(s) {
        lemma_pattern_shape(k);
    }
}

proof fn lemma_first_match_stable(s: Seq<u8>, t: Seq<u8>, k: int)
    requires
        s.len() >= MAX_PATTERN_LEN,
    ensures
        first_match_from(s + t, k) == first_match_from(s, k),
    decreases MULTIBYTE_COUNT - k,
{
    if 0 <= k < MULTIBYTE_COUNT {
        lemma_pattern_shape(k);
        let n = spec_pattern(k).len() as int;
        assert((s + t).subrange(0, n) =~= s.subrange(0, n));
        lemma_first_match_stable(s, t, k + 1);
    }
}

/// Once at least [`MAX_PATTERN_LEN`] bytes are visible, bytes that arrive
/// later do not change the next step.
pub proof fn lemma_step_stable(s: Seq<u8>, t: Seq<u8>)
    requires
        s.len() >= MAX_PATTERN_LEN,
    ensures
        spec_match_multibyte(s + t) == spec_match_multibyte(s),
        step_len(s + t) == step_len(s),
        step_out(s + t) == step_out(s),
{
    lemma_first_match_stable(s, t, 0);
    assert((s + t)[0] == s[0]);
}

/// One step of the conversion at position `i` of `input`, seen with the
/// rest of the input cut off or with any bytes `t` appended after it.
proof fn lemma_advance(input: Seq<u8>, i: int, t: Seq<u8>)
    requires
        0 <= i,
        i + MAX_PATTERN_LEN <= input.len(),
    ensures
        spec_convert(input.skip(i) + t) == step_out(input.skip(i)) + spec_convert(
            input.skip(i + step_len(input.skip(i))) + t,
        ),
{
    let s = input.skip(i);
    lemma_step_stable(s, t);
    lemma_step_len(s);
    lemma_step_len(s + t);
    let n = step_len(s);
    assert((s + t).skip(n) =~= input.skip(i + n) + t);
}

proof fn lemma_no_lead_no_match(s: Seq<u8>, k: int)
    requires
        s.len() > 0,
        s[0] != 13,
        s[0] != 99,
    ensures
        first_match_from(s, k) is None,
    decreases MULTIBYTE_COUNT - k,
{
    if 0 <= k < MULTIBYTE_COUNT {
        lemma_pattern_shape(k);
        if starts_with(s, spec_pattern(k)) {
            assert(s.subrange(0, spec_pattern(k).len() as int)[0] == s[0]);
        }
        lemma_no_lead_no_match(s, k + 1);
    }
}

/// Index of the first multibyte pattern with which `input[i..]` begins.
/// Only `\r` and `c` begin a pattern, so every other byte is dismissed at
/// once.
pub fn match_multibyte(input: &[u8], i: usize) -> (r: Option<usize>)
    requires
        i < input@.len(),
    ensures
        match r {
            Some(k) => spec_match_multibyte(input@.skip(i as int)) == Some(k as int),
            None => spec_match_multibyte(input@.skip(i as int)) is None,
        },
{
    let ghost s = input@.skip(i as int);
    let first = input[i];
    if first != 13 && first != 99 {
        proof {
            lemma_no_lead_no_match(s, 0);
        }
        return None;
    }
    let mut k: usize = 0;
    while k < MULTIBYTE_COUNT
        invariant
            k <= MULTIBYTE_COUNT,
            i < input@.len(),
            s == input@.skip(i as int),
            first_match_from(s, 0) == first_match_from(s, k as int),
        decreases MULTIBYTE_COUNT - k,
    {
        if pattern_matches_at(input, i, k) {
            return Some(k);
        }
        k += 1;
    }
    None
}

/// `c` is where a step of the conversion of `s` ends: it is reached by
/// stepping through `s` from its start.
pub open spec fn is_step_boundary(s: Seq<u8>, c: int) -> bool
    decreases s.len(),
{
    if c == 0 {
        true
    } else if s.len() == 0 {
        false
    } else {
        proof {
            lemma_step_len(s);
        }
        c >= step_len(s) && is_step_boundary(s.skip(step_len(s)), c - step_len(s))
    }
}

proof fn lemma_first_match_take(s: Seq<u8>, c: int, k: int)
    requires
        1 <= c <= s.len(),
    ensures
        (first_match_from(s, k) matches Some(m) && spec_pattern(m).len() <= c) ==> first_match_from(
            s.take(c),
            k,
        ) == first_match_from(s, k),
        first_match_from(s, k) is None ==> first_match_from(s.take(c), k) is None,
    decreases MULTIBYTE_COUNT - k,
{
    if 0 <= k < MULTIBYTE_COUNT {
        let p = spec_pattern(k);
        let t = s.take(c);
        if starts_with(s, p) {
            if p.len() <= c {
                assert(t.subrange(0, p.len() as int) =~= s.subrange(0, p.len() as int));
            }
        } else {
            if starts_with(t, p) {
                assert(t.subrange(0, p.len() as int) =~= s.subrange(0, p.len() as int));
            }
            lemma_first_match_take(s, c, k + 1);
        }
    }
}

/// Converting up to a step boundary and then the rest is converting the
/// whole.
proof fn lemma_convert_take(s: Seq<u8>, c: int)
    requires
        0 <= c <= s.len(),
        is_step_boundary(s, c),
    ensures
        spec_convert(s) == spec_convert(s.take(c)) + spec_convert(s.skip(c)),
    decreases s.len(),
{
    if c == 0 {
        assert(s.take(0) =~= Seq::<u8>::empty());
        assert(s.skip(0) =~= s);
        assert(spec_convert(Seq::<u8>::empty()) + spec_convert(s) =~= spec_convert(s));
    } else {
        lemma_step_len(s);
        let n = step_len(s);
        let t = s.take(c);
        lemma_first_match_take(s, c, 0);
        lemma_first_match_from(s, 0);
        assert(t[0] == s[0]);
        assert(step_len(t) == n);
        assert(step_out(t) == step_out(s));
        lemma_step_len(t);
        assert(t.skip(n) =~= s.skip(n).take(c - n));
        lemma_convert_take(s.skip(n), c - n);
        assert(s.skip(n).skip(c - n) =~= s.skip(c));
        assert(spec_convert(s) =~= spec_convert(t) + spec_convert(s.skip(c)));
    }
}

/// One more step from a step boundary reaches a step boundary.
proof fn lemma_boundary_extend(s: Seq<u8>, c: int)
    requires
        0 <= c < s.len(),
        is_step_boundary(s, c),
    ensures
        is_step_boundary(s, c + step_len(s.skip(c))),
    decreases s.len(),
{
    lemma_step_len(s);
    let n = step_len(s);
    if c == 0 {
        assert(s.skip(0) =~= s);
        assert(is_step_boundary(s.skip(n), 0));
    } else {
        lemma_boundary_extend(s.skip(n), c - n);
        assert(s.skip(n).skip(c - n) =~= s.skip(c));
    }
}

/// Converts `input[..end]` and appends the result to `out`. A multibyte
/// pattern that begins before `end` may run past it: the whole of `input`
/// is visible. Returns the number of input bytes consumed (`>= end`).
///
/// When at least `MAX_PATTERN_LEN - 1` bytes follow `end`, every step was
/// taken with its whole pattern in sight, so the result is also the start of
/// the conversion of `input` followed by any further bytes.
fn convert_prefix(map: &[u8; 256], input: &[u8], end: usize, out: &mut Vec<u8>) -> (consumed: usize)
    requires
        is_byte_map(*map),
        end <= input@.len(),
    ensures
        end <= consumed <= input@.len(),
        consumed <= end + MAX_PATTERN_LEN - 1,
        final(out)@ == old(out)@ + spec_convert(input@.take(consumed as int)),
        old(out)@.len() <= final(out)@.len(),
        final(out)@.subrange(0, old(out)@.len() as int) == old(out)@,
        spec_convert(input@) == final(out)@.skip(old(out)@.len() as int) + spec_convert(
            input@.skip(consumed as int),
        ),
        end + MAX_PATTERN_LEN - 1 <= input@.len() ==> forall|t: Seq<u8>|
            #[trigger] spec_convert(input@ + t) == final(out)@.skip(old(out)@.len() as int)
                + spec_convert(input@.skip(consumed as int) + t),
{
    let ghost old_out = out@;
    let ghost old_len = out@.len() as int;
    let mut i: usize = 0;
    proof {
        assert(input@.skip(0) =~= input@);
        assert(out@.skip(old_len) =~= Seq::<u8>::empty());
        assert forall|t: Seq<u8>| #[trigger]
            spec_convert(input@ + t) == out@.skip(old_len) + spec_convert(input@.skip(0) + t) by {
            assert(out@.skip(old_len) + spec_convert(input@.skip(0) + t) =~= spec_convert(input@ + t));
        }
        assert(out@.subrange(0, old_len) =~= old_out);
    }
    while i < end
        invariant
            i <= input@.len(),
            end <= input@.len(),
            i <= end + MAX_PATTERN_LEN - 1,
            is_step_boundary(input@, i as int),
            is_byte_map(*map),
            0 <= old_len <= out@.len(),
            out@.subrange(0, old_len) == old_out,
            spec_convert(input@) == out@.skip(old_len) + spec_convert(input@.skip(i as int)),
            end + MAX_PATTERN_LEN - 1 <= input@.len() ==> forall|t: Seq<u8>|
                #[trigger] spec_convert(input@ + t) == out@.skip(old_len) + spec_convert(
                    input@.skip(i as int) + t,
                ),
        decreases input@.len() - i,
    {
        let ghost s = input@.skip(i as int);
        let ghost prev = out@;
        proof {
            lemma_step_len(s);
            lemma_boundary_extend(input@, i as int);
        }
        match match_multibyte(input, i) {
            Some(k) => {
                assert(s.len() == input@.len() - i);
                assert(starts_with(s, spec_pattern(k as int)));
                assert(i + spec_pattern(k as int).len() <= input.len());
                push_replacement(out, k);
                i += pattern_len(k);
            },
            None => {
                out.push(map[input[i] as usize]);
                i += 1;
            },
        }
        proof {
            let n = step_len(s);
            assert(s.skip(n) =~= input@.skip(i as int));
            assert(out@ =~= prev + step_out(s));
            assert(out@.skip(old_len) =~= prev.skip(old_len) + step_out(s));
            assert(out@.subrange(0, old_len) =~= prev.subrange(0, old_len));
            assert(spec_convert(input@) =~= out@.skip(old_len) + spec_convert(input@.skip(i as int)));
            if end + MAX_PATTERN_LEN - 1 <= input@.len() {
                assert forall|t: Seq<u8>| #[trigger]
                    spec_convert(input@ + t) == out@.skip(old_len) + spec_convert(
                        input@.skip(i as int) + t,
                    ) by {
                    lemma_advance(input@, i - n, t);
                    assert(spec_convert(input@ + t) == prev.skip(old_len) + spec_convert(s + t));
                    assert(prev.skip(old_len) + (step_out(s) + spec_convert(input@.skip(i as int) + t))
                        =~= out@.skip(old_len) + spec_convert(input@.skip(i as int) + t));
                }
            }
        }
    }
    proof {
        let produced = out@.skip(old_len);
        lemma_convert_take(input@, i as int);
        let rest = spec_convert(input@.skip(i as int));
        let whole = spec_convert(input@.take(i as int));
        assert(produced + rest == whole + rest);
        assert(produced.len() == whole.len());
        assert(produced =~= (produced + rest).subrange(0, produced.len() as int));
        assert(whole =~= (whole + rest).subrange(0, whole.len() as int));
        assert(out@ =~= old_out + produced);
    }
    i
}

/// Converts a whole buffer.
pub fn convert_buffer(buffer: &[u8]) -> (out: Vec<u8>)
    ensures
        out@ == spec_convert(buffer@),
{
    let map = build_byte_map();
    let mut out: Vec<u8> = Vec::with_capacity(buffer.len());
    let consumed = convert_prefix(&map, buffer, buffer.len(), &mut out);
    proof {
        assert(buffer@.skip(consumed as int) =~= Seq::<u8>::empty());
        assert(out@.skip(0) =~= out@);
        assert(spec_convert(Seq::<u8>::empty()) =~= Seq::<u8>::empty());
    }
    out
}

/// A conversion fed in chunks, as they are read. It holds back the last
/// `MAX_PATTERN_LEN - 1` bytes seen until more input (or the end of the input)
/// shows whether they begin a multibyte pattern that straddles a chunk
/// boundary.
pub struct StreamConverter {
    map: [u8; 256],
    pending: Vec<u8>,
    input: Ghost<Seq<u8>>,
    output: Ghost<Seq<u8>>,
}

impl StreamConverter {
    /// All bytes fed so far.
    pub closed spec fn input(&self) -> Seq<u8> {
        self.input@
    }

    /// All bytes handed back so far.
    pub closed spec fn output(&self) -> Seq<u8> {
        self.output@
    }

    /// Bytes fed but not yet converted.
    pub closed spec fn pending(&self) -> Seq<u8> {
        self.pending@
    }

    /// What has been handed back, followed by the conversion of what is
    /// held back, is the conversion of everything fed, whatever follows.
    pub closed spec fn wf(&self) -> bool {
        &&& is_byte_map(self.map)
        &&& self.pending@.len() < MAX_PATTERN_LEN
        &&& forall|t: Seq<u8>|
            #[trigger] spec_convert(self.input@ + t) == self.output@ + spec_convert(
                self.pending@ + t,
            )
    }

    /// A converter that has seen no input.
    pub fn new() -> (s: Self)
        ensures
            s.wf(),
            s.input() == Seq::<u8>::empty(),
            s.output() == Seq::<u8>::empty(),
    {
        let s = StreamConverter {
            map: build_byte_map(),
            pending: Vec::new(),
            input: Ghost(Seq::empty()),
            output: Ghost(Seq::empty()),
        };
        assert forall|t: Seq<u8>| #[trigger]
            spec_convert(s.input@ + t) == s.output@ + spec_convert(s.pending@ + t) by {
            assert(s.input@ + t =~= t);
            assert(s.pending@ + t =~= t);
            assert(s.output@ + spec_convert(t) =~= spec_convert(t));
        }
        s
    }

    /// Feeds the next chunk of input; returns the bytes whose conversion is
    /// settled by it.
    pub fn feed(&mut self, chunk: &[u8]) -> (out: Vec<u8>)
        requires
            old(self).wf(),
        ensures
            final(self).wf(),
            final(self).input() == old(self).input() + chunk@,
            final(self).output() == old(self).output() + out@,
    {
        let ghost old_input = self.input@;
        let ghost old_output = self.output@;
        let ghost old_pending = self.pending@;
        self.pending.extend_from_slice(chunk);
        let ghost buf = self.pending@;
        proof {
            assert(buf =~= old_pending + chunk@);
            assert forall|t: Seq<u8>| #[trigger]
                spec_convert((old_input + chunk@) + t) == old_output + spec_convert(buf + t) by {
                assert((old_input + chunk@) + t =~= old_input + (chunk@ + t));
                assert(buf + t =~= old_pending + (chunk@ + t));
            }
        }
        self.input = Ghost(old_input + chunk@);
        if self.pending.len() < MAX_PATTERN_LEN {
            let out: Vec<u8> = Vec::new();
            proof {
                assert(old_output + out@ =~= old_output);
            }
            return out;
        }
        let safe_end = self.pending.len() - (MAX_PATTERN_LEN - 1);
        let mut out: Vec<u8> = Vec::new();
        let consumed = convert_prefix(&self.map, self.pending.as_slice(), safe_end, &mut out);
        let rest = self.pending.split_off(consumed);
        self.pending = rest;
        self.output = Ghost(old_output + out@);
        proof {
            assert(out@.skip(0) =~= out@);
            assert(self.pending@ =~= buf.skip(consumed as int));
            assert forall|t: Seq<u8>| #[trigger]
                spec_convert(self.input@ + t) == self.output@ + spec_convert(self.pending@ + t) by {
                assert(spec_convert(buf + t) == out@ + spec_convert(buf.skip(consumed as int) + t));
                assert(old_output + (out@ + spec_convert(self.pending@ + t)) =~= self.output@
                    + spec_convert(self.pending@ + t));
            }
        }
        out
    }

    /// Ends the input; returns the conversion of the bytes still held back.
    pub fn finish(self) -> (out: Vec<u8>)
        requires
            self.wf(),
        ensures
            self.output() + out@ == spec_convert(self.input()),
    {
        let mut out: Vec<u8> = Vec::new();
        let consumed = convert_prefix(&self.map, self.pending.as_slice(), self.pending.len(), &mut out);
        proof {
            assert(self.input@ + Seq::<u8>::empty() =~= self.input@);
            assert(self.pending@ + Seq::<u8>::empty() =~= self.pending@);
            assert(spec_convert(self.input@ + Seq::<u8>::empty()) == self.output@ + spec_convert(
                self.pending@ + Seq::<u8>::empty(),
            ));
            assert(self.pending@.skip(consumed as int) =~= Seq::<u8>::empty());
            assert(out@.skip(0) =~= out@);
            assert(out@ + Seq::<u8>::empty() =~= out@);
        }
        out
    }
}

/// Whatever a stream conversion has handed back stays put: it is the start
/// of the conversion of everything fed so far followed by any further input.
pub proof fn law_stream_output_is_settled(s: &StreamConverter, rest: Seq<u8>)
    requires
        s.wf(),
    ensures
        s.output().is_prefix_of(spec_convert(s.input() + rest)),
{
    assert(spec_convert(s.input() + rest) == s.output() + spec_convert(s.pending() + rest));
    assert(spec_convert(s.input() + rest).subrange(0, s.output().len() as int) =~= s.output());
}

/// The bytes of a sequence of reads, one after the other.
pub open spec fn concat_reads(reads: Seq<Vec<u8>>) -> Seq<u8> {
    reads.map_values(|r: Vec<u8>| r@).flatten()
}

/// Converts input that arrives as the given sequence of reads, feeding each
/// read to a [`StreamConverter`] as it comes. The result does not depend on
/// how the input was cut into reads: it is the conversion of their
/// concatenation.
pub fn convert_stream(reads: &[Vec<u8>]) -> (out: Vec<u8>)
    ensures
        out@ == spec_convert(concat_reads(reads@)),
{
    let mut converter = StreamConverter::new();
    let mut out: Vec<u8> = Vec::new();
    let mut i: usize = 0;
    while i < reads.len()
        invariant
            i <= reads@.len(),
            converter.wf(),
            converter.input() == concat_reads(reads@.subrange(0, i as int)),
            converter.output() == out@,
        decreases reads@.len() - i,
    {
        let settled = converter.feed(reads[i].as_slice());
        out.extend_from_slice(settled.as_slice());
        proof {
            let prefix = reads@.subrange(0, i as int).map_values(|r: Vec<u8>| r@);
            assert(reads@.subrange(0, i + 1).map_values(|r: Vec<u8>| r@) =~= prefix.push(reads@[i as int]@));
            prefix.lemma_flatten_push(reads@[i as int]@);
            assert(out@ =~= converter.output());
        }
        i += 1;
    }
    let rest = converter.finish();
    out.extend_from_slice(rest.as_slice());
    proof {
        assert(reads@.subrange(0, reads@.len() as int) =~= reads@);
    }
    out
}

} // verus!
