//! Text primitives.
//!
//! Everything the manager reads or writes is text: limit strings typed by an
//! operator, kernel control files, directory names. This module fixes the
//! meaning of the handful of text operations the rest of the crate relies on
//! (trimming, splitting into lines and words, decimal numbers) as functions
//! on sequences of characters, and provides executable versions proved
//! against them.

use vstd::prelude::*;
use vstd::slice::slice_subrange;

verus! {

/// `String::push` of the standard library: the string afterwards is the
/// string before with `c` appended. Not proved here.
pub assume_specification[ String::push ](s: &mut String, c: char)
    ensures
        final(s)@ == old(s)@.push(c),
;

// ---------------------------------------------------------------------------
// Conversions between strings and character vectors
// ---------------------------------------------------------------------------

/// The characters of `s`, in order.
pub fn chars_of(s: &str) -> (out: Vec<char>)
    ensures
        out@ == s@,
{
    let mut out: Vec<char> = Vec::new();
    for c in it: s.chars()
        invariant
            out@ == it.history(),
    {
        out.push(c);
    }
    out
}

/// A string holding exactly the characters of `s`.
pub fn string_of(s: &[char]) -> (out: String)
    ensures
        out@ == s@,
{
    let mut out = String::new();
    let mut i: usize = 0;
    while i < s.len()
        invariant
            i <= s@.len(),
            out@ == s@.subrange(0, i as int),
        decreases s@.len() - i,
    {
        out.push(s[i]);
        i += 1;
        assert(s@.subrange(0, i as int) == s@.subrange(0, i - 1).push(s@[i - 1]));
    }
    assert(s@.subrange(0, s@.len() as int) == s@);
    out
}

/// Appends the characters of `tail` to `out`.
pub fn push_chars(out: &mut Vec<char>, tail: &[char])
    ensures
        final(out)@ == old(out)@ + tail@,
{
    let ghost before = out@;
    let mut i: usize = 0;
    while i < tail.len()
        invariant
            i <= tail@.len(),
            out@ == before + tail@.subrange(0, i as int),
        decreases tail@.len() - i,
    {
        out.push(tail[i]);
        i += 1;
        assert(tail@.subrange(0, i as int) == tail@.subrange(0, i - 1).push(tail@[i - 1]));
    }
    assert(tail@.subrange(0, tail@.len() as int) == tail@);
}

/// Appends the characters of the string `tail` to `out`.
pub fn push_str(out: &mut Vec<char>, tail: &str)
    ensures
        final(out)@ == old(out)@ + tail@,
{
    let chars = chars_of(tail);
    push_chars(out, chars.as_slice());
}

/// Whether two character slices hold the same text.
pub fn same_chars(a: &[char], b: &[char]) -> (r: bool)
    ensures
        r == (a@ == b@),
{
    if a.len() != b.len() {
        return false;
    }
    let mut i: usize = 0;
    while i < a.len()
        invariant
            i <= a@.len(),
            a@.len() == b@.len(),
            forall|k: int| 0 <= k < i ==> a@[k] == b@[k],
        decreases a@.len() - i,
    {
        if a[i] != b[i] {
            return false;
        }
        i += 1;
    }
    assert(a@ =~= b@);
    true
}

/// Whether the slice `a` spells the string `b`.
pub fn is_str(a: &[char], b: &str) -> (r: bool)
    ensures
        r == (a@ == b@),
{
    let chars = chars_of(b);
    same_chars(a, chars.as_slice())
}

/// Whether two strings hold the same text.
pub fn same_text(a: &str, b: &str) -> (r: bool)
    ensures
        r == (a@ == b@),
{
    let x = chars_of(a);
    let y = chars_of(b);
    same_chars(x.as_slice(), y.as_slice())
}

// ---------------------------------------------------------------------------
// Prefixes
// ---------------------------------------------------------------------------

/// `p` is a prefix of `s`.
pub open spec fn has_prefix(s: Seq<char>, p: Seq<char>) -> bool {
    p.len() <= s.len() && s.subrange(0, p.len() as int) == p
}

/// What is left of `s` once the prefix `p` is removed, if `s` starts with `p`.
pub open spec fn without_prefix(s: Seq<char>, p: Seq<char>) -> Option<Seq<char>> {
    if has_prefix(s, p) {
        Some(s.subrange(p.len() as int, s.len() as int))
    } else {
        None
    }
}

/// Whether `s` starts with `p`.
pub fn starts_with(s: &[char], p: &[char]) -> (r: bool)
    ensures
        r == has_prefix(s@, p@),
{
    if p.len() > s.len() {
        return false;
    }
    same_chars(slice_subrange(s, 0, p.len()), p)
}

/// Whether `s` starts with the string `p`.
pub fn starts_with_str(s: &[char], p: &str) -> (r: bool)
    ensures
        r == has_prefix(s@, p@),
{
    let chars = chars_of(p);
    starts_with(s, chars.as_slice())
}

/// Removes the string `p` from the front of `s`, if `s` starts with it.
pub fn strip_prefix_str<'a>(s: &'a [char], p: &str) -> (r: Option<&'a [char]>)
    ensures
        match r {
            Some(rest) => without_prefix(s@, p@) == Some(rest@),
            None => without_prefix(s@, p@).is_none(),
        },
{
    let chars = chars_of(p);
    if starts_with(s, chars.as_slice()) {
        Some(slice_subrange(s, chars.len(), s.len()))
    } else {
        None
    }
}

/// `s` holds the character `c` somewhere.
pub open spec fn has_char(s: Seq<char>, c: char) -> bool {
    exists|i: int| 0 <= i < s.len() && s[i] == c
}

/// Whether `c` occurs in `s`.
pub fn contains_char(s: &[char], c: char) -> (r: bool)
    ensures
        r == has_char(s@, c),
{
    let mut i: usize = 0;
    while i < s.len()
        invariant
            i <= s@.len(),
            forall|k: int| 0 <= k < i ==> s@[k] != c,
        decreases s@.len() - i,
    {
        if s[i] == c {
            return true;
        }
        i += 1;
    }
    false
}

// ---------------------------------------------------------------------------
// White space and trimming
// ---------------------------------------------------------------------------

/// The white-space characters: the code points that carry the Unicode
/// `White_Space` property.
pub open spec fn is_whitespace(c: char) -> bool {
    let n = c as u32;
    ||| 0x09 <= n <= 0x0D
    ||| n == 0x20
    ||| n == 0x85
    ||| n == 0xA0
    ||| n == 0x1680
    ||| 0x2000 <= n <= 0x200A
    ||| n == 0x2028
    ||| n == 0x2029
    ||| n == 0x202F
    ||| n == 0x205F
    ||| n == 0x3000
}

/// Whether `c` is white space.
pub fn char_is_whitespace(c: char) -> (r: bool)
    ensures
        r == is_whitespace(c),
{
    let n: u32 = c as u32;
    (0x09 <= n && n <= 0x0D) || n == 0x20 || n == 0x85 || n == 0xA0 || n == 0x1680 || (0x2000 <= n
        && n <= 0x200A) || n == 0x2028 || n == 0x2029 || n == 0x202F || n == 0x205F || n == 0x3000
}

/// `s` without its leading white space.
pub open spec fn trim_start(s: Seq<char>) -> Seq<char>
    decreases s.len(),
{
    if s.len() > 0 && is_whitespace(s[0]) {
        trim_start(s.drop_first())
    } else {
        s
    }
}

/// `s` without its trailing white space.
pub open spec fn trim_end(s: Seq<char>) -> Seq<char>
    decreases s.len(),
{
    if s.len() > 0 && is_whitespace(s.last()) {
        trim_end(s.drop_last())
    } else {
        s
    }
}

/// `s` without leading and trailing white space.
pub open spec fn trim(s: Seq<char>) -> Seq<char> {
    trim_end(trim_start(s))
}

/// Dropping `k` white-space characters from the front does not change what
/// `trim_start` yields.
pub proof fn lemma_trim_start_skip(s: Seq<char>, k: int)
    requires
        0 <= k <= s.len(),
        forall|i: int| 0 <= i < k ==> is_whitespace(s[i]),
    ensures
        trim_start(s) == trim_start(s.subrange(k, s.len() as int)),
    decreases k,
{
    if k == 0 {
        assert(s.subrange(0, s.len() as int) == s);
    } else {
        lemma_trim_start_skip(s.drop_first(), k - 1);
        assert(s.drop_first().subrange(k - 1, s.drop_first().len() as int) == s.subrange(
            k,
            s.len() as int,
        ));
    }
}

/// Dropping white-space characters from the back, down to length `k`, does
/// not change what `trim_end` yields.
pub proof fn lemma_trim_end_take(s: Seq<char>, k: int)
    requires
        0 <= k <= s.len(),
        forall|i: int| k <= i < s.len() ==> is_whitespace(s[i]),
    ensures
        trim_end(s) == trim_end(s.subrange(0, k)),
    decreases s.len() - k,
{
    if k == s.len() {
        assert(s.subrange(0, k) == s);
    } else {
        lemma_trim_end_take(s.drop_last(), k);
        assert(s.drop_last().subrange(0, k) == s.subrange(0, k));
    }
}

/// A text that neither starts nor ends with white space is its own trim.
pub proof fn lemma_trim_fixed(s: Seq<char>)
    requires
        s.len() > 0 ==> !is_whitespace(s[0]) && !is_whitespace(s.last()),
    ensures
        trim(s) == s,
{
}

/// Trimming is insensitive to white space added around a text.
pub proof fn lemma_trim_padding(left: Seq<char>, s: Seq<char>, right: Seq<char>)
    requires
        forall|i: int| 0 <= i < left.len() ==> is_whitespace(left[i]),
        forall|i: int| 0 <= i < right.len() ==> is_whitespace(right[i]),
    ensures
        trim(left + s + right) == trim(s),
{
    let whole = left + s + right;
    let tail = s + right;
    lemma_trim_start_skip(whole, left.len() as int);
    assert(whole.subrange(left.len() as int, whole.len() as int) == tail);
    // The leading white space of `s` is leading white space of `tail`; what
    // follows depends on whether `s` is white space altogether.
    lemma_trim_start_append(s, right);
}

/// How `trim` treats white space appended to a text.
proof fn lemma_trim_start_append(s: Seq<char>, right: Seq<char>)
    requires
        forall|i: int| 0 <= i < right.len() ==> is_whitespace(right[i]),
    ensures
        trim_end(trim_start(s + right)) == trim_end(trim_start(s)),
    decreases s.len(),
{
    if s.len() > 0 && is_whitespace(s[0]) {
        assert((s + right).drop_first() == s.drop_first() + right);
        lemma_trim_start_append(s.drop_first(), right);
    } else if s.len() == 0 {
        assert(s + right == right);
        lemma_trim_start_skip(right, right.len() as int);
        assert(right.subrange(right.len() as int, right.len() as int) == Seq::<char>::empty());
        assert(trim_start(right) == Seq::<char>::empty());
    } else {
        assert((s + right)[0] == s[0]);
        lemma_trim_end_take(s + right, s.len() as int);
        assert((s + right).subrange(0, s.len() as int) == s);
    }
}

/// The part of `s` that is left after trimming white space at both ends.
pub fn trimmed<'a>(s: &'a [char]) -> (r: &'a [char])
    ensures
        r@ == trim(s@),
{
    let mut lo: usize = 0;
    while lo < s.len() && char_is_whitespace(s[lo])
        invariant
            lo <= s@.len(),
            forall|i: int| 0 <= i < lo ==> is_whitespace(s@[i]),
        decreases s@.len() - lo,
    {
        lo += 1;
    }
    let rest = slice_subrange(s, lo, s.len());
    proof {
        lemma_trim_start_skip(s@, lo as int);
    }
    let mut hi: usize = rest.len();
    while hi > 0 && char_is_whitespace(rest[hi - 1])
        invariant
            hi <= rest@.len(),
            forall|i: int| hi <= i < rest@.len() ==> is_whitespace(rest@[i]),
        decreases hi,
    {
        hi -= 1;
    }
    proof {
        lemma_trim_end_take(rest@, hi as int);
    }
    slice_subrange(rest, 0, hi)
}

// ---------------------------------------------------------------------------
// Decimal numbers
// ---------------------------------------------------------------------------

/// The ASCII decimal digits.
pub open spec fn is_digit(c: char) -> bool {
    '0' <= c && c <= '9'
}

/// The value of a decimal digit.
pub open spec fn digit_value(c: char) -> nat
    recommends
        is_digit(c),
{
    (c as u32 - '0' as u32) as nat
}

/// The digit that stands for `d`.
pub open spec fn digit_char(d: nat) -> char
    recommends
        d < 10,
{
    ('0' as u32 + d) as char
}

/// Every character of `s` is a decimal digit.
pub open spec fn all_digits(s: Seq<char>) -> bool {
    forall|i: int| 0 <= i < s.len() ==> is_digit(#[trigger] s[i])
}

/// `s` is a decimal numeral: one or more decimal digits and nothing else.
pub open spec fn is_decimal(s: Seq<char>) -> bool {
    s.len() > 0 && all_digits(s)
}

/// The number that a sequence of decimal digits denotes (zero for the empty
/// sequence).
pub open spec fn decimal_value(s: Seq<char>) -> nat
    decreases s.len(),
{
    if s.len() == 0 {
        0
    } else {
        10 * decimal_value(s.drop_last()) + digit_value(s.last())
    }
}

/// The shortest decimal numeral of `n`.
pub open spec fn decimal_digits(n: nat) -> Seq<char>
    decreases n,
{
    if n < 10 {
        seq![digit_char(n)]
    } else {
        decimal_digits(n / 10).push(digit_char(n % 10))
    }
}

/// Reading back the numeral of `n` gives `n`.
pub proof fn lemma_decimal_roundtrip(n: nat)
    ensures
        is_decimal(decimal_digits(n)),
        decimal_value(decimal_digits(n)) == n,
    decreases n,
{
    let s = decimal_digits(n);
    if n < 10 {
        assert(s.drop_last() == Seq::<char>::empty());
        assert(digit_value(digit_char(n)) == n);
        assert(decimal_value(s.drop_last()) == 0);
    } else {
        lemma_decimal_roundtrip(n / 10);
        assert(s.drop_last() == decimal_digits(n / 10));
        assert(s.last() == digit_char(n % 10));
        assert(digit_value(digit_char(n % 10)) == n % 10);
        assert forall|i: int| 0 <= i < s.len() implies is_digit(#[trigger] s[i]) by {
            if i < s.len() - 1 {
                assert(s[i] == decimal_digits(n / 10)[i]);
            }
        }
    }
}

/// The unsigned 64-bit number that `s` denotes, if `s` is a decimal numeral
/// whose value fits.
pub open spec fn parse_u64_spec(s: Seq<char>) -> Option<u64> {
    if is_decimal(s) && decimal_value(s) <= u64::MAX {
        Some(decimal_value(s) as u64)
    } else {
        None
    }
}

/// The unsigned 32-bit number that `s` denotes, if `s` is a decimal numeral
/// whose value fits.
pub open spec fn parse_u32_spec(s: Seq<char>) -> Option<u32> {
    if is_decimal(s) && decimal_value(s) <= u32::MAX {
        Some(decimal_value(s) as u32)
    } else {
        None
    }
}

/// The value of a numeral does not shrink when digits are appended.
pub proof fn lemma_decimal_value_prefix(s: Seq<char>, k: int)
    requires
        0 <= k <= s.len(),
    ensures
        decimal_value(s.subrange(0, k)) <= decimal_value(s),
    decreases s.len() - k,
{
    if k == s.len() {
        assert(s.subrange(0, k) == s);
    } else {
        lemma_decimal_value_prefix(s.drop_last(), k);
        assert(s.drop_last().subrange(0, k) == s.subrange(0, k));
    }
}

/// Reads a decimal numeral as an unsigned 64-bit number.
///
/// Succeeds exactly on a non-empty run of decimal digits whose value is at
/// most `u64::MAX`; leading zeros are allowed, signs are not.
pub fn parse_u64(s: &[char]) -> (r: Option<u64>)
    ensures
        r == parse_u64_spec(s@),
{
    if s.len() == 0 {
        return None;
    }
    let mut acc: u64 = 0;
    let mut i: usize = 0;
    while i < s.len()
        invariant
            i <= s@.len(),
            all_digits(s@.subrange(0, i as int)),
            acc == decimal_value(s@.subrange(0, i as int)),
        decreases s@.len() - i,
    {
        let c = s[i];
        let ghost next = s@.subrange(0, i + 1);
        proof {
            assert(next.drop_last() == s@.subrange(0, i as int));
            assert(next.last() == c);
        }
        if !('0' <= c && c <= '9') {
            assert(!is_digit(s@[i as int]));
            return None;
        }
        let d: u64 = (c as u32 - '0' as u32) as u64;
        let scaled = match acc.checked_mul(10) {
            Some(v) => v,
            None => {
                proof {
                    lemma_decimal_value_prefix(s@, i + 1);
                }
                return None;
            },
        };
        acc = match scaled.checked_add(d) {
            Some(v) => v,
            None => {
                proof {
                    lemma_decimal_value_prefix(s@, i + 1);
                }
                return None;
            },
        };
        i += 1;
        assert forall|k: int| 0 <= k < next.len() implies is_digit(#[trigger] next[k]) by {
            if k < i - 1 {
                assert(next[k] == s@.subrange(0, i - 1)[k]);
            }
        }
    }
    assert(s@.subrange(0, s@.len() as int) == s@);
    Some(acc)
}

/// Reads a decimal numeral as an unsigned 32-bit number.
///
/// Succeeds exactly on a non-empty run of decimal digits whose value is at
/// most `u32::MAX`.
pub fn parse_u32(s: &[char]) -> (r: Option<u32>)
    ensures
        r == parse_u32_spec(s@),
{
    match parse_u64(s) {
        Some(v) => if v <= 0xFFFF_FFFF {
            Some(v as u32)
        } else {
            proof {
                lemma_decimal_fits_u64(s@);
            }
            None
        },
        None => {
            None
        },
    }
}

/// A numeral whose value exceeds the 64-bit range also exceeds the 32-bit
/// range (stated for the use of `parse_u32`).
proof fn lemma_decimal_fits_u64(s: Seq<char>)
    ensures
        decimal_value(s) <= u32::MAX ==> decimal_value(s) <= u64::MAX,
{
}

/// Writes `n` as its shortest decimal numeral.
pub fn decimal_chars(n: u64) -> (out: Vec<char>)
    ensures
        out@ == decimal_digits(n as nat),
    decreases n,
{
    let d: u8 = (n % 10) as u8;
    let c: char = (48u8 + d) as char;
    assert(c == digit_char((n % 10) as nat));
    if n < 10 {
        let mut out: Vec<char> = Vec::new();
        out.push(c);
        assert(out@ == seq![c]);
        out
    } else {
        let mut out = decimal_chars(n / 10);
        out.push(c);
        out
    }
}

// ---------------------------------------------------------------------------
// Lines and words
// ---------------------------------------------------------------------------

/// The length of the longest prefix of `s` that holds no character on which
/// `stop` holds.
pub open spec fn span(s: Seq<char>, stop: spec_fn(char) -> bool) -> nat
    decreases s.len(),
{
    if s.len() == 0 || stop(s[0]) {
        0
    } else {
        1 + span(s.drop_first(), stop)
    }
}

/// `span` is the first position at which `stop` holds, or the length of the
/// text if there is none.
pub proof fn lemma_span(s: Seq<char>, stop: spec_fn(char) -> bool, k: int)
    requires
        0 <= k <= s.len(),
        forall|i: int| 0 <= i < k ==> !stop(s[i]),
        k < s.len() ==> stop(s[k]),
    ensures
        span(s, stop) == k,
    decreases k,
{
    if k > 0 {
        lemma_span(s.drop_first(), stop, k - 1);
    }
}

/// `span` never exceeds the length of the text.
pub proof fn lemma_span_bound(s: Seq<char>, stop: spec_fn(char) -> bool)
    ensures
        span(s, stop) <= s.len(),
        forall|i: int| 0 <= i < span(s, stop) ==> !stop(s[i]),
        span(s, stop) < s.len() ==> stop(s[span(s, stop) as int]),
    decreases s.len(),
{
    if !(s.len() == 0 || stop(s[0])) {
        lemma_span_bound(s.drop_first(), stop);
        assert forall|i: int| 0 <= i < span(s, stop) implies !stop(s[i]) by {
            if i > 0 {
                assert(s[i] == s.drop_first()[i - 1]);
            }
        }
    }
}

/// The line feed character.
pub open spec fn is_line_feed(c: char) -> bool {
    c == '\n'
}

/// A line as it is handed out: a carriage return just before the line feed
/// belongs to the line ending.
pub open spec fn without_carriage_return(line: Seq<char>) -> Seq<char> {
    if line.len() > 0 && line.last() == '\r' {
        line.drop_last()
    } else {
        line
    }
}

/// The lines of a text.
///
/// A line ends at a line feed, or at a carriage return directly followed by a
/// line feed; the ending is not part of the line. What follows the last line
/// feed is a line of its own unless it is empty, and is handed out unchanged.
pub open spec fn lines(s: Seq<char>) -> Seq<Seq<char>>
    decreases s.len(),
{
    let n = span(s, |c: char| is_line_feed(c));
    if s.len() == 0 {
        Seq::empty()
    } else if n < s.len() {
        seq![without_carriage_return(s.subrange(0, n as int))] + lines(
            s.subrange(n as int + 1, s.len() as int),
        )
    } else {
        seq![s]
    }
}

/// The words of a text: its maximal runs of characters that are not white
/// space, in order.
pub open spec fn words(s: Seq<char>) -> Seq<Seq<char>>
    decreases s.len(),
    via words_terminates
{
    let n = span(s, |c: char| is_whitespace(c));
    if s.len() == 0 {
        Seq::empty()
    } else if n == 0 {
        words(s.drop_first())
    } else {
        seq![s.subrange(0, n as int)] + words(s.subrange(n as int, s.len() as int))
    }
}

#[via_fn]
proof fn words_terminates(s: Seq<char>) {
    lemma_span_bound(s, |c: char| is_whitespace(c));
}

/// The texts that a sequence of slices holds.
pub open spec fn texts(parts: Seq<&[char]>) -> Seq<Seq<char>> {
    Seq::new(parts.len(), |i: int| parts[i]@)
}

/// Position of the first character of `s` at or after `from` that is a line
/// feed, or the length of `s`.
fn find_line_feed(s: &[char], from: usize) -> (r: usize)
    requires
        from <= s@.len(),
    ensures
        from <= r <= s@.len(),
        r - from == span(s@.subrange(from as int, s@.len() as int), |c: char| is_line_feed(c)),
{
    let mut j: usize = from;
    while j < s.len() && s[j] != '\n'
        invariant
            from <= j <= s@.len(),
            forall|i: int| from <= i < j ==> !is_line_feed(s@[i]),
        decreases s@.len() - j,
    {
        j += 1;
    }
    proof {
        lemma_span(s@.subrange(from as int, s@.len() as int), |c: char| is_line_feed(c), j - from);
    }
    j
}

/// Position of the first character of `s` at or after `from` that is white
/// space, or the length of `s`.
fn find_whitespace(s: &[char], from: usize) -> (r: usize)
    requires
        from <= s@.len(),
    ensures
        from <= r <= s@.len(),
        r - from == span(s@.subrange(from as int, s@.len() as int), |c: char| is_whitespace(c)),
{
    let mut j: usize = from;
    while j < s.len() && !char_is_whitespace(s[j])
        invariant
            from <= j <= s@.len(),
            forall|i: int| from <= i < j ==> !is_whitespace(s@[i]),
        decreases s@.len() - j,
    {
        j += 1;
    }
    proof {
        lemma_span(s@.subrange(from as int, s@.len() as int), |c: char| is_whitespace(c), j - from);
    }
    j
}

/// Splits a text into its lines.
pub fn split_lines<'a>(s: &'a [char]) -> (out: Vec<&'a [char]>)
    ensures
        texts(out@) == lines(s@),
{
    let mut out: Vec<&'a [char]> = Vec::new();
    let mut pos: usize = 0;
    assert(s@.subrange(0, s@.len() as int) == s@);
    assert(texts(out@) =~= Seq::<Seq<char>>::empty());
    while pos < s.len()
        invariant
            pos <= s@.len(),
            lines(s@) == texts(out@) + lines(s@.subrange(pos as int, s@.len() as int)),
        decreases s@.len() - pos,
    {
        let ghost rest = s@.subrange(pos as int, s@.len() as int);
        let ghost before = texts(out@);
        let end = find_line_feed(s, pos);
        if end < s.len() {
            let raw = slice_subrange(s, pos, end);
            let line = if raw.len() > 0 && raw[raw.len() - 1] == '\r' {
                slice_subrange(raw, 0, raw.len() - 1)
            } else {
                raw
            };
            out.push(line);
            proof {
                assert(rest.subrange(0, end - pos) == raw@);
                assert(rest.subrange(end - pos + 1, rest.len() as int) == s@.subrange(
                    end + 1,
                    s@.len() as int,
                ));
                assert(line@ == without_carriage_return(raw@));
                assert(texts(out@) =~= before + seq![line@]);
            }
            pos = end + 1;
        } else {
            let line = slice_subrange(s, pos, end);
            out.push(line);
            proof {
                assert(line@ == rest);
                assert(texts(out@) =~= before + seq![rest]);
                assert(s@.subrange(end as int, s@.len() as int).len() == 0);
            }
            pos = end;
        }
    }
    assert(s@.subrange(pos as int, s@.len() as int).len() == 0);
    out
}

/// Splits a text into its words.
pub fn split_words<'a>(s: &'a [char]) -> (out: Vec<&'a [char]>)
    ensures
        texts(out@) == words(s@),
{
    let mut out: Vec<&'a [char]> = Vec::new();
    let mut pos: usize = 0;
    assert(s@.subrange(0, s@.len() as int) == s@);
    assert(texts(out@) =~= Seq::<Seq<char>>::empty());
    while pos < s.len()
        invariant
            pos <= s@.len(),
            words(s@) == texts(out@) + words(s@.subrange(pos as int, s@.len() as int)),
        decreases s@.len() - pos,
    {
        let ghost rest = s@.subrange(pos as int, s@.len() as int);
        let ghost before = texts(out@);
        let end = find_whitespace(s, pos);
        if end == pos {
            proof {
                assert(rest.drop_first() == s@.subrange(pos + 1, s@.len() as int));
            }
            pos = pos + 1;
        } else {
            let word = slice_subrange(s, pos, end);
            out.push(word);
            proof {
                assert(rest.subrange(0, end - pos) == word@);
                assert(rest.subrange(end - pos, rest.len() as int) == s@.subrange(
                    end as int,
                    s@.len() as int,
                ));
                assert(texts(out@) =~= before + seq![word@]);
            }
            pos = end;
        }
    }
    assert(s@.subrange(pos as int, s@.len() as int).len() == 0);
    out
}

/// No word holds white space, and no word is empty.
pub proof fn lemma_words_are_plain(s: Seq<char>, k: int)
    requires
        0 <= k < words(s).len(),
    ensures
        words(s)[k].len() > 0,
        forall|i: int| 0 <= i < words(s)[k].len() ==> !is_whitespace(#[trigger] words(s)[k][i]),
    decreases s.len(),
{
    let stop = |c: char| is_whitespace(c);
    let n = span(s, stop);
    lemma_span_bound(s, stop);
    if s.len() == 0 {
    } else if n == 0 {
        lemma_words_are_plain(s.drop_first(), k);
    } else {
        if k > 0 {
            lemma_words_are_plain(s.subrange(n as int, s.len() as int), k - 1);
        }
    }
}

// ---------------------------------------------------------------------------
// Lines and words of texts that are put together
// ---------------------------------------------------------------------------

/// No character of `s` is white space.
pub open spec fn no_whitespace(s: Seq<char>) -> bool {
    forall|i: int| 0 <= i < s.len() ==> !is_whitespace(#[trigger] s[i])
}

/// No character of `s` is a line feed.
pub open spec fn no_line_feed(s: Seq<char>) -> bool {
    forall|i: int| 0 <= i < s.len() ==> !is_line_feed(#[trigger] s[i])
}

/// A text without white space that is not empty is one word.
pub proof fn lemma_words_of_one(word: Seq<char>)
    requires
        word.len() > 0,
        no_whitespace(word),
    ensures
        words(word) == seq![word],
{
    let stop = |c: char| is_whitespace(c);
    lemma_span(word, stop, word.len() as int);
    assert(word.subrange(0, word.len() as int) == word);
    assert(word.subrange(word.len() as int, word.len() as int).len() == 0);
    assert(words(word.subrange(word.len() as int, word.len() as int)) == Seq::<
        Seq<char>,
    >::empty());
    assert(seq![word] + Seq::<Seq<char>>::empty() =~= seq![word]);
}

/// A word followed by white space and more text is the first word of the
/// whole.
pub proof fn lemma_words_after_word(word: Seq<char>, rest: Seq<char>)
    requires
        word.len() > 0,
        no_whitespace(word),
        rest.len() > 0,
        is_whitespace(rest[0]),
    ensures
        words(word + rest) == seq![word] + words(rest),
{
    let whole = word + rest;
    let stop = |c: char| is_whitespace(c);
    assert forall|i: int| 0 <= i < word.len() implies !stop(whole[i]) by {
        assert(whole[i] == word[i]);
    }
    assert(whole[word.len() as int] == rest[0]);
    lemma_span(whole, stop, word.len() as int);
    assert(whole.subrange(0, word.len() as int) == word);
    assert(whole.subrange(word.len() as int, whole.len() as int) == rest);
}

/// White space before a text does not change its words.
pub proof fn lemma_words_after_space(space: char, rest: Seq<char>)
    requires
        is_whitespace(space),
    ensures
        words(seq![space] + rest) == words(rest),
{
    let whole = seq![space] + rest;
    assert(whole.drop_first() == rest);
}

/// The position of the first line feed of a text does not change when text
/// is put behind the line feed.
pub proof fn lemma_span_before_more(a: Seq<char>, more: Seq<char>, stop: spec_fn(char) -> bool)
    requires
        span(a, stop) < a.len(),
    ensures
        span(a + more, stop) == span(a, stop),
{
    lemma_span_bound(a, stop);
    let k = span(a, stop) as int;
    let whole = a + more;
    assert forall|i: int| 0 <= i < k implies !stop(whole[i]) by {
        assert(whole[i] == a[i]);
    }
    assert(whole[k] == a[k]);
    lemma_span(whole, stop, k);
}

/// A line put behind a text that is empty or ends a line is the last line
/// of the whole.
pub proof fn lemma_lines_with_one_more(a: Seq<char>, line: Seq<char>)
    requires
        a.len() == 0 || a.last() == '\n',
        no_line_feed(line),
    ensures
        lines(a + line + seq!['\n']) == lines(a).push(without_carriage_return(line)),
    decreases a.len(),
{
    let stop = |c: char| is_line_feed(c);
    let tail = line + seq!['\n'];
    let whole = a + line + seq!['\n'];
    assert(whole == a + tail);
    if a.len() == 0 {
        assert(whole == tail);
        assert forall|i: int| 0 <= i < line.len() implies !stop(tail[i]) by {
            assert(tail[i] == line[i]);
        }
        assert(tail[line.len() as int] == '\n');
        lemma_span(tail, stop, line.len() as int);
        assert(tail.subrange(0, line.len() as int) == line);
        assert(tail.subrange(line.len() as int + 1, tail.len() as int).len() == 0);
        assert(lines(tail.subrange(line.len() as int + 1, tail.len() as int)) == Seq::<
            Seq<char>,
        >::empty());
        assert(lines(a) == Seq::<Seq<char>>::empty());
        assert(seq![without_carriage_return(line)] + Seq::<Seq<char>>::empty() =~= Seq::<
            Seq<char>,
        >::empty().push(without_carriage_return(line)));
    } else {
        lemma_span_bound(a, stop);
        let n = span(a, stop) as int;
        if n >= a.len() {
            assert(!stop(a[a.len() - 1]));
        }
        lemma_span_before_more(a, tail, stop);
        let rest = a.subrange(n + 1, a.len() as int);
        if rest.len() > 0 {
            assert(rest.last() == a.last());
        }
        lemma_lines_with_one_more(rest, line);
        assert((a + tail).subrange(0, n) == a.subrange(0, n));
        assert((a + tail).subrange(n + 1, (a + tail).len() as int) == rest + tail);
        assert(rest + tail == rest + line + seq!['\n']);
        assert(seq![without_carriage_return(a.subrange(0, n))] + lines(rest).push(
            without_carriage_return(line),
        ) =~= (seq![without_carriage_return(a.subrange(0, n))] + lines(rest)).push(
            without_carriage_return(line),
        ));
    }
}

} // verus!
