//! Building a limit from what an operator typed, and showing a byte count to
//! an operator.

use crate::error::{Error, ErrorView};
use crate::limit::{
    parse_cpu, parse_memory, unit_factor, memory_numeral, CpuLimit, IoLimit, Limit, LimitView,
    MemoryLimit,
};
use crate::text::{
    decimal_chars, decimal_digits, digit_char, is_digit, lemma_decimal_roundtrip,
    lemma_trim_fixed, string_of,
};
use vstd::prelude::*;

verus! {

/// The bytes in a kibibyte.
pub const KB: u64 = 1024;

/// The bytes in a mebibyte.
pub const MB: u64 = 1024 * 1024;

/// The bytes in a gibibyte.
pub const GB: u64 = 1024 * 1024 * 1024;

/// The bytes in a tebibyte.
pub const TB: u64 = 1024 * 1024 * 1024 * 1024;

// ---------------------------------------------------------------------------
// Building a limit
// ---------------------------------------------------------------------------

/// The text of an optional string.
pub open spec fn text_of(s: Option<&str>) -> Option<Seq<char>> {
    match s {
        Some(t) => Some(t@),
        None => None,
    }
}

/// A field counts as given if it is present and not empty.
pub open spec fn given(s: Option<Seq<char>>) -> bool {
    s matches Some(t) && t.len() > 0
}

/// What an optional memory or bandwidth string means: nothing if it is not
/// given, else what the string means.
pub open spec fn optional_memory(s: Option<Seq<char>>) -> Result<Option<u64>, ErrorView> {
    if given(s) {
        match parse_memory(s.unwrap()) {
            Ok(v) => Ok(Some(v)),
            Err(text) => Err(ErrorView::InvalidMemory(text)),
        }
    } else {
        Ok(None)
    }
}

/// What an optional CPU string means: nothing if it is not given, else what
/// the string means.
pub open spec fn optional_cpu(s: Option<Seq<char>>) -> Result<Option<u32>, ErrorView> {
    if given(s) {
        match parse_cpu(s.unwrap()) {
            Ok(v) => Ok(Some(v)),
            Err(text) => Err(ErrorView::InvalidCpu(text)),
        }
    } else {
        Ok(None)
    }
}

/// The I/O part of a limit: present if at least one bandwidth is.
pub open spec fn io_part(read_bps: Option<u64>, write_bps: Option<u64>) -> Option<IoLimit> {
    if read_bps.is_some() || write_bps.is_some() {
        Some(IoLimit { read_bps, write_bps })
    } else {
        None
    }
}

/// The limit that four optional strings describe.
///
/// Fields that are absent or empty are left out. The others are read in the
/// order memory, CPU, read bandwidth, write bandwidth, and the first one that
/// is malformed decides the error.
pub open spec fn build_limit_spec(
    memory: Option<Seq<char>>,
    cpu: Option<Seq<char>>,
    io_read: Option<Seq<char>>,
    io_write: Option<Seq<char>>,
) -> Result<LimitView, ErrorView> {
    match optional_memory(memory) {
        Err(e) => Err(e),
        Ok(m) => match optional_cpu(cpu) {
            Err(e) => Err(e),
            Ok(c) => match optional_memory(io_read) {
                Err(e) => Err(e),
                Ok(r) => match optional_memory(io_write) {
                    Err(e) => Err(e),
                    Ok(w) => Ok(LimitView { memory: m, cpu: c, io: io_part(r, w) }),
                },
            },
        },
    }
}

/// Reads an optional bandwidth string; absent and empty strings give none.
fn optional_bps(s: Option<&str>) -> (r: Result<Option<u64>, Error>)
    ensures
        match r {
            Ok(v) => optional_memory(text_of(s)) == Ok::<Option<u64>, ErrorView>(v),
            Err(e) => optional_memory(text_of(s)) == Err::<Option<u64>, ErrorView>(e@),
        },
{
    match s {
        Some(t) => if t.unicode_len() == 0 {
            Ok(None)
        } else {
            match IoLimit::parse_bps(t) {
                Ok(v) => Ok(Some(v)),
                Err(e) => Err(e),
            }
        },
        None => Ok(None),
    }
}

/// Builds a limit from optional strings, as an operator types them.
pub fn build_limit(
    memory: Option<&str>,
    cpu: Option<&str>,
    io_read: Option<&str>,
    io_write: Option<&str>,
) -> (r: Result<Limit, Error>)
    ensures
        match r {
            Ok(limit) => build_limit_spec(
                text_of(memory),
                text_of(cpu),
                text_of(io_read),
                text_of(io_write),
            ) == Ok::<LimitView, ErrorView>(limit@),
            Err(e) => build_limit_spec(
                text_of(memory),
                text_of(cpu),
                text_of(io_read),
                text_of(io_write),
            ) == Err::<LimitView, ErrorView>(e@),
        },
{
    let memory_limit = match memory {
        Some(t) => if t.unicode_len() == 0 {
            None
        } else {
            match MemoryLimit::parse(t) {
                Ok(m) => Some(m),
                Err(e) => {
                    return Err(e);
                },
            }
        },
        None => None,
    };
    let cpu_limit = match cpu {
        Some(t) => if t.unicode_len() == 0 {
            None
        } else {
            match CpuLimit::parse(t) {
                Ok(c) => Some(c),
                Err(e) => {
                    return Err(e);
                },
            }
        },
        None => None,
    };
    let read_bps = match optional_bps(io_read) {
        Ok(v) => v,
        Err(e) => {
            return Err(e);
        },
    };
    let write_bps = match optional_bps(io_write) {
        Ok(v) => v,
        Err(e) => {
            return Err(e);
        },
    };
    let io = if read_bps.is_some() || write_bps.is_some() {
        Some(IoLimit { read_bps, write_bps })
    } else {
        None
    };
    Ok(Limit { memory: memory_limit, cpu: cpu_limit, io })
}

// ---------------------------------------------------------------------------
// Showing a byte count
// ---------------------------------------------------------------------------

/// The first count that a double-precision number cannot always hold exactly.
pub const DOUBLE_EXACT: u64 = 0x20_0000_0000_0000;

/// `num / den`, rounded to the nearest whole number; a tie goes to the even
/// neighbour.
pub open spec fn round_half_even(num: nat, den: nat) -> nat
    recommends
        den > 0,
{
    let q = num / den;
    let r = num % den;
    if 2 * r > den || (2 * r == den && q % 2 == 1) {
        q + 1
    } else {
        q
    }
}

/// The distance between neighbouring double-precision numbers around `n`:
/// one below 2^53, and twice as much with every further bit.
pub open spec fn double_spacing(n: nat) -> nat
    decreases n,
{
    if n < DOUBLE_EXACT {
        1
    } else {
        2 * double_spacing(n / 2)
    }
}

/// The double-precision number nearest to `n`, as a whole number.
pub open spec fn nearest_double(n: nat) -> nat {
    round_half_even(n, double_spacing(n)) * double_spacing(n)
}

/// A byte count in tenths of `unit`: the count is taken as the nearest
/// double-precision number, divided by the unit and rounded to one decimal,
/// ties to even.
pub open spec fn tenths(bytes: nat, unit: nat) -> nat
    recommends
        unit > 0,
{
    round_half_even(10 * nearest_double(bytes), unit)
}

/// A byte count shown in `unit` with one decimal and the unit's letter.
pub open spec fn shown_in_unit(bytes: nat, unit: nat, letter: char) -> Seq<char> {
    decimal_digits(tenths(bytes, unit) / 10).push('.').push(
        digit_char(tenths(bytes, unit) % 10),
    ).push(letter)
}

/// A byte count as shown to an operator: in the largest of the units T, G, M
/// and K in which it is at least one, with one decimal; below 1024, as plain
/// bytes with the letter B.
pub open spec fn format_bytes_spec(bytes: u64) -> Seq<char> {
    if bytes >= TB {
        shown_in_unit(bytes as nat, TB as nat, 'T')
    } else if bytes >= GB {
        shown_in_unit(bytes as nat, GB as nat, 'G')
    } else if bytes >= MB {
        shown_in_unit(bytes as nat, MB as nat, 'M')
    } else if bytes >= KB {
        shown_in_unit(bytes as nat, KB as nat, 'K')
    } else {
        decimal_digits(bytes as nat).push('B')
    }
}

/// `num / den` rounded to the nearest whole number, ties to even.
fn rounded_quotient(num: u128, den: u128) -> (r: u128)
    requires
        den > 0,
        num <= 0xFFFF_FFFF_FFFF_FFFF_FFFF,
        den <= 0xFFFF_FFFF_FFFF_FFFF,
    ensures
        r == round_half_even(num as nat, den as nat),
        r <= num / den + 1,
{
    let q: u128 = num / den;
    let r: u128 = num % den;
    if 2 * r > den || (2 * r == den && q % 2 == 1) {
        q + 1
    } else {
        q
    }
}

/// The distance between neighbouring double-precision numbers around `n`.
fn spacing_of(n: u64) -> (d: u64)
    ensures
        d == double_spacing(n as nat),
        1 <= d <= 4096,
        n < DOUBLE_EXACT ==> d == 1,
{
    let mut m: u64 = n;
    let mut d: u64 = 1;
    while m >= DOUBLE_EXACT
        invariant
            1 <= d,
            d * m <= n,
            double_spacing(n as nat) == d * double_spacing(m as nat),
            n < DOUBLE_EXACT ==> d == 1 && m == n,
            n >= DOUBLE_EXACT ==> m >= DOUBLE_EXACT / 2,
        decreases m,
    {
        assert(d * DOUBLE_EXACT <= n) by (nonlinear_arith)
            requires
                d * m <= n,
                m >= DOUBLE_EXACT,
                d >= 1,
        ;
        assert((d * 2) * (m / 2) <= d * m) by (nonlinear_arith)
            requires
                d >= 1,
                m >= 0,
        ;
        assert(d * (2 * double_spacing((m / 2) as nat)) == (d * 2) * double_spacing(
            (m / 2) as nat,
        )) by (nonlinear_arith);
        m = m / 2;
        d = d * 2;
    }
    assert(double_spacing(m as nat) == 1);
    assert(d * 1 == d);
    assert(d <= 4096) by (nonlinear_arith)
        requires
            d * m <= n,
            n <= 0xFFFF_FFFF_FFFF_FFFF,
            d >= 1,
            m >= 0,
            n >= DOUBLE_EXACT ==> m >= DOUBLE_EXACT / 2,
            n < DOUBLE_EXACT ==> d == 1,
    ;
    d
}

/// Shows `bytes` in `unit` with one decimal.
fn show_in_unit(bytes: u64, unit: u64, letter: char) -> (out: Vec<char>)
    requires
        unit == KB || unit == MB || unit == GB || unit == TB,
    ensures
        out@ == shown_in_unit(bytes as nat, unit as nat, letter),
{
    let spacing = spacing_of(bytes);
    let significand = rounded_quotient(bytes as u128, spacing as u128);
    assert(significand * spacing <= 0x1_0000_0000_0000_1000) by (nonlinear_arith)
        requires
            significand <= bytes as u128 / spacing as u128 + 1,
            1 <= spacing <= 4096,
            bytes <= 0xFFFF_FFFF_FFFF_FFFF,
    ;
    let held: u128 = significand * (spacing as u128);
    assert(held == nearest_double(bytes as nat));
    let t = rounded_quotient(10 * held, unit as u128);
    let whole: u128 = t / 10;
    let tenth: u128 = t % 10;
    let mut out = decimal_chars(whole as u64);
    out.push('.');
    out.push((48u8 + tenth as u8) as char);
    out.push(letter);
    assert((48u8 + tenth as u8) as char == digit_char(tenth as nat));
    out
}

/// Shows a byte count to an operator, for instance `"1.5K"`, `"2.0G"` or
/// `"512B"`.
pub fn format_bytes(bytes: u64) -> (r: String)
    ensures
        r@ == format_bytes_spec(bytes),
{
    let out = if bytes >= TB {
        show_in_unit(bytes, TB, 'T')
    } else if bytes >= GB {
        show_in_unit(bytes, GB, 'G')
    } else if bytes >= MB {
        show_in_unit(bytes, MB, 'M')
    } else if bytes >= KB {
        show_in_unit(bytes, KB, 'K')
    } else {
        let mut digits = decimal_chars(bytes);
        digits.push('B');
        digits
    };
    string_of(out.as_slice())
}

/// What `format_bytes` shows is for reading, not for typing back: it holds a
/// decimal point or the letter B, and no memory string does. So reading a
/// shown byte count as a memory string always fails.
pub proof fn lemma_shown_bytes_are_no_memory_string(bytes: u64)
    ensures
        parse_memory(format_bytes_spec(bytes)).is_err(),
{
    let shown = format_bytes_spec(bytes);
    if bytes >= KB {
        let (unit, letter) = if bytes >= TB {
            (TB as nat, 'T')
        } else if bytes >= GB {
            (GB as nat, 'G')
        } else if bytes >= MB {
            (MB as nat, 'M')
        } else {
            (KB as nat, 'K')
        };
        let whole = decimal_digits(tenths(bytes as nat, unit) / 10);
        lemma_decimal_roundtrip(tenths(bytes as nat, unit) / 10);
        assert(shown == whole.push('.').push(digit_char(tenths(bytes as nat, unit) % 10)).push(
            letter,
        ));
        assert(is_digit(whole[0]));
        assert(shown[0] == whole[0]);
        assert(shown.last() == letter);
        lemma_trim_fixed(shown);
        assert(unit_factor(letter).is_some());
        let numeral = memory_numeral(shown);
        assert(numeral == shown.drop_last());
        assert(numeral[whole.len() as int] == '.');
        assert(!is_digit(numeral[whole.len() as int]));
    } else {
        let whole = decimal_digits(bytes as nat);
        lemma_decimal_roundtrip(bytes as nat);
        assert(is_digit(whole[0]));
        assert(shown[0] == whole[0]);
        assert(shown.last() == 'B');
        lemma_trim_fixed(shown);
        assert(unit_factor('B').is_none());
        let numeral = memory_numeral(shown);
        assert(numeral == shown);
        assert(!is_digit(numeral[whole.len() as int]));
    }
}

} // verus!
