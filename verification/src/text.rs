//! Small text utilities: moving between `String` and characters, and the
//! decimal rendering and reading of unsigned integers.

use vstd::prelude::*;

verus! {

/// Appends one character to a string.
///
/// Calls `String::push`, which the standard library documents as appending
/// the given `char` to the end of the string.
#[verifier::external_body]
pub(crate) fn push_char(s: &mut String, c: char)
    ensures
        final(s)@ == old(s)@.push(c),
{
    s.push(c);
}

/// The lowercase form of `s` that `str::to_lowercase` returns: each
/// character mapped by the Unicode `Lowercase` mapping, some of them to more
/// than one character.
pub uninterp spec fn lowercase(s: Seq<char>) -> Seq<char>;

/// Calls `str::to_lowercase`. Its result depends on the characters of `s`
/// alone (through the Unicode tables of the standard library); what it is
/// for given characters is left to the name [`lowercase`].
#[verifier::external_body]
pub(crate) fn to_lowercase(s: &str) -> (r: String)
    ensures
        r@ == lowercase(s@),
{
    s.to_lowercase()
}

/// The characters of `s`.
pub fn chars_of(s: &str) -> (v: Vec<char>)
    ensures
        v@ == s@,
{
    let mut v: Vec<char> = Vec::new();
    for c in it: s.chars()
        invariant
            v@ == it.seq().take(it.index() as int),
    {
        v.push(c);
    }
    v
}

/// The string made of `chars[from..to]`.
pub fn string_of(chars: &[char], from: usize, to: usize) -> (s: String)
    requires
        from <= to <= chars@.len(),
    ensures
        s@ == chars@.subrange(from as int, to as int),
{
    let mut s = String::new();
    let mut i = from;
    while i < to
        invariant
            from <= i <= to <= chars@.len(),
            s@ == chars@.subrange(from as int, i as int),
        decreases to - i,
    {
        push_char(&mut s, chars[i]);
        i += 1;
        assert(s@ =~= chars@.subrange(from as int, i as int));
    }
    s
}

/// The decimal digit character for `d < 10`.
pub open spec fn digit_char(d: nat) -> char {
    (48 + d) as char
}

/// The value of a decimal digit character.
pub open spec fn digit_value(c: char) -> int {
    c as int - 48
}

/// `c` is one of `0`..=`9`.
pub open spec fn is_digit(c: char) -> bool {
    '0' <= c && c <= '9'
}

/// The decimal rendering of `n`, without sign or leading zeros.
pub open spec fn spec_decimal(n: nat) -> Seq<char>
    decreases n,
{
    if n < 10 {
        seq![digit_char(n)]
    } else {
        spec_decimal(n / 10).push(digit_char(n % 10))
    }
}

/// The number written by a string of decimal digits (0 for the empty string).
pub open spec fn digits_value(s: Seq<char>) -> nat
    decreases s.len(),
{
    if s.len() == 0 {
        0
    } else {
        (digits_value(s.drop_last()) * 10 + digit_value(s.last())) as nat
    }
}

/// A non-empty string of decimal digits.
pub open spec fn all_digits(s: Seq<char>) -> bool {
    s.len() > 0 && forall|i: int| 0 <= i < s.len() ==> #[trigger] is_digit(s[i])
}

/// What `str::parse::<u128>` accepts and gives: an optional `+` followed by
/// one or more decimal digits whose value fits in a `u128`.
pub open spec fn spec_parse_u128(s: Seq<char>) -> Option<u128> {
    let d = if s.len() > 0 && s[0] == '+' {
        s.drop_first()
    } else {
        s
    };
    if all_digits(d) && digits_value(d) <= u128::MAX {
        Some(digits_value(d) as u128)
    } else {
        None
    }
}

/// Appends the decimal rendering of `n` to `s`.
pub fn push_decimal(s: &mut String, n: u128)
    ensures
        final(s)@ == old(s)@ + spec_decimal(n as nat),
    decreases n,
{
    if n >= 10 {
        push_decimal(s, n / 10);
    }
    let d = (n % 10) as u8;
    push_char(s, (48 + d) as char);
    proof {
        assert(final(s)@ =~= old(s)@ + spec_decimal(n as nat));
    }
}

/// The decimal rendering of `n` is a digit string that reads back as `n`.
pub proof fn lemma_decimal_reads_back(n: nat)
    ensures
        all_digits(spec_decimal(n)),
        digits_value(spec_decimal(n)) == n,
        spec_decimal(n)[0] != '+',
    decreases n,
{
    assert(digit_value(digit_char(n % 10)) == n % 10);
    if n < 10 {
        let s = spec_decimal(n);
        assert(s.drop_last() =~= Seq::<char>::empty());
        assert(digits_value(Seq::<char>::empty()) == 0);
        assert(digits_value(s) == digits_value(s.drop_last()) * 10 + digit_value(s.last()));
    } else {
        lemma_decimal_reads_back(n / 10);
        let s = spec_decimal(n);
        assert(s.drop_last() =~= spec_decimal(n / 10));
        assert(s.last() == digit_char(n % 10));
        assert(digits_value(s) == digits_value(s.drop_last()) * 10 + digit_value(s.last()));
        assert((n / 10) * 10 + n % 10 == n);
        assert forall|i: int| 0 <= i < s.len() implies #[trigger] is_digit(s[i]) by {
            if i < s.len() - 1 {
                assert(s[i] == spec_decimal(n / 10)[i]);
            }
        }
    }
}

/// A digit string reads as at least what any of its prefixes reads as.
proof fn lemma_digits_value_prefix(s: Seq<char>, j: int)
    requires
        0 <= j <= s.len(),
        forall|i: int| 0 <= i < s.len() ==> #[trigger] is_digit(s[i]),
    ensures
        digits_value(s.take(j)) <= digits_value(s),
    decreases s.len(),
{
    if j < s.len() {
        assert(s.drop_last().take(j) =~= s.take(j));
        assert forall|i: int| 0 <= i < s.drop_last().len() implies #[trigger] is_digit(
            s.drop_last()[i],
        ) by {
            assert(is_digit(s[i]));
        }
        lemma_digits_value_prefix(s.drop_last(), j);
        assert(is_digit(s[s.len() - 1]));
    } else {
        assert(s.take(j) =~= s);
    }
}

/// Reads `chars[from..to]` as `str::parse::<u128>` does.
pub fn parse_u128(chars: &[char], from: usize, to: usize) -> (r: Option<u128>)
    requires
        from <= to <= chars@.len(),
    ensures
        r == spec_parse_u128(chars@.subrange(from as int, to as int)),
{
    let ghost s = chars@.subrange(from as int, to as int);
    let mut i = from;
    if i < to && chars[i] == '+' {
        i += 1;
    }
    let ghost d = chars@.subrange(i as int, to as int);
    proof {
        if s.len() > 0 && s[0] == '+' {
            assert(d =~= s.drop_first());
        } else {
            assert(d =~= s);
        }
    }
    if i == to {
        return None;
    }
    let start = i;
    let mut acc: u128 = 0;
    while i < to
        invariant
            start <= i <= to <= chars@.len(),
            start < to,
            d == chars@.subrange(start as int, to as int),
            s == chars@.subrange(from as int, to as int),
            d == (if s.len() > 0 && s[0] == '+' {
                s.drop_first()
            } else {
                s
            }),
            acc == digits_value(d.take(i - start)),
            forall|m: int| 0 <= m < i - start ==> #[trigger] is_digit(d[m]),
        decreases to - i,
    {
        let c = chars[i];
        if c < '0' || c > '9' {
            assert(!is_digit(d[i - start]));
            return None;
        }
        let v = (c as u32 - 48) as u128;
        let ghost k = (i - start) as int;
        assert(d.take(k + 1).drop_last() =~= d.take(k));
        assert(d.take(k + 1).last() == c);
        proof {
            if forall|m: int| 0 <= m < d.len() ==> #[trigger] is_digit(d[m]) {
                lemma_digits_value_prefix(d, k + 1);
            }
        }
        match acc.checked_mul(10) {
            Some(a) => match a.checked_add(v) {
                Some(b) => {
                    acc = b;
                },
                None => {
                    return None;
                },
            },
            None => {
                return None;
            },
        }
        i += 1;
    }
    proof {
        assert(d.take(d.len() as int) =~= d);
    }
    Some(acc)
}

/// Splits `s` at every `sep`; the last piece is what follows the last `sep`
/// (empty when `s` ends with one). There is always at least one piece.
pub open spec fn split_on(s: Seq<char>, sep: char) -> Seq<Seq<char>>
    decreases s.len(),
{
    if s.len() == 0 {
        seq![Seq::<char>::empty()]
    } else {
        let p = split_on(s.drop_last(), sep);
        if s.last() == sep {
            p.push(Seq::<char>::empty())
        } else {
            p.update(p.len() - 1, p.last().push(s.last()))
        }
    }
}

/// Splitting always yields at least one piece.
pub proof fn lemma_split_on_nonempty(s: Seq<char>, sep: char)
    ensures
        split_on(s, sep).len() > 0,
    decreases s.len(),
{
    if s.len() > 0 {
        lemma_split_on_nonempty(s.drop_last(), sep);
    }
}

/// Appending text without `sep` extends the last piece.
pub proof fn lemma_split_append_no_sep(s: Seq<char>, t: Seq<char>, sep: char)
    requires
        !t.contains(sep),
    ensures
        split_on(s + t, sep) == split_on(s, sep).update(
            split_on(s, sep).len() - 1,
            split_on(s, sep).last() + t,
        ),
        split_on(s, sep).len() > 0,
    decreases t.len(),
{
    lemma_split_on_nonempty(s, sep);
    if t.len() == 0 {
        assert(s + t =~= s);
        assert(split_on(s, sep).last() + t =~= split_on(s, sep).last());
        assert(split_on(s, sep).update(split_on(s, sep).len() - 1, split_on(s, sep).last())
            =~= split_on(s, sep));
    } else {
        let t0 = t.drop_last();
        assert(!t0.contains(sep)) by {
            if t0.contains(sep) {
                let i = choose|i: int| 0 <= i < t0.len() && t0[i] == sep;
                assert(t[i] == sep);
            }
        }
        lemma_split_append_no_sep(s, t0, sep);
        assert((s + t).drop_last() =~= s + t0);
        assert((s + t).last() == t.last());
        assert(t.last() != sep) by {
            assert(t[t.len() - 1] == t.last());
        }
        lemma_split_on_nonempty(s + t0, sep);
        let p = split_on(s, sep);
        assert((p.last() + t0).push(t.last()) =~= p.last() + t);
        assert(split_on(s + t, sep) =~= p.update(p.len() - 1, p.last() + t));
    }
}

} // verus!
