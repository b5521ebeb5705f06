//! The limit model: typed memory, CPU and I/O ceilings and the grammar of the
//! strings they are written in.

use crate::error::{Error, ErrorView};
use crate::text::{
    chars_of, decimal_value, is_decimal, is_digit, is_whitespace, lemma_decimal_roundtrip,
    lemma_trim_fixed, lemma_trim_padding, decimal_digits, parse_u32, parse_u32_spec, parse_u64,
    parse_u64_spec, string_of, trim, trimmed,
};
use vstd::prelude::*;
use vstd::slice::slice_subrange;

verus! {

/// The largest CPU share that can be asked for, in percent of one core.
pub const MAX_CPU_PERCENT: u32 = 10000;

// ---------------------------------------------------------------------------
// Grammar
// ---------------------------------------------------------------------------

/// The factor that a unit letter stands for: powers of 1024, in either case.
pub open spec fn unit_factor(c: char) -> Option<nat> {
    if c == 'K' || c == 'k' {
        Some(1024)
    } else if c == 'M' || c == 'm' {
        Some(1024 * 1024)
    } else if c == 'G' || c == 'g' {
        Some(1024 * 1024 * 1024)
    } else if c == 'T' || c == 't' {
        Some(1024 * 1024 * 1024 * 1024)
    } else {
        None
    }
}

/// The numeral of a trimmed memory string: all of it, or all but the unit
/// letter that ends it.
pub open spec fn memory_numeral(t: Seq<char>) -> Seq<char> {
    if t.len() > 0 && unit_factor(t.last()).is_some() {
        t.drop_last()
    } else {
        t
    }
}

/// The factor of a trimmed memory string: that of the unit letter that ends
/// it, or one.
pub open spec fn memory_factor(t: Seq<char>) -> nat {
    if t.len() > 0 && unit_factor(t.last()).is_some() {
        unit_factor(t.last()).unwrap()
    } else {
        1
    }
}

/// What a memory string means: a positive number of bytes, or the reason why
/// it is rejected.
///
/// White space around the string is ignored. What is left is a decimal
/// numeral, optionally followed by one of the unit letters K, M, G and T in
/// either case; its value is the numeral times the unit's factor. The empty
/// string, anything that is not such a numeral, a numeral beyond the 64-bit
/// range, zero and a product beyond the 64-bit range are rejected.
pub open spec fn parse_memory(s: Seq<char>) -> Result<u64, Seq<char>> {
    let t = trim(s);
    if t.len() == 0 {
        Err("empty value"@)
    } else {
        match parse_u64_spec(memory_numeral(t)) {
            None => Err(t),
            Some(n) => if n == 0 {
                Err("value cannot be zero"@)
            } else if n * memory_factor(t) > u64::MAX {
                Err("value too large (overflow)"@)
            } else {
                Ok((n * memory_factor(t)) as u64)
            },
        }
    }
}

/// The numeral of a CPU string: the string without the white space around it
/// and without one percent sign at its end.
pub open spec fn cpu_numeral(s: Seq<char>) -> Seq<char> {
    let t = trim(s);
    if t.len() > 0 && t.last() == '%' {
        t.drop_last()
    } else {
        t
    }
}

/// What a CPU string means: a percentage between 1 and 10000, where 100 is
/// one full core, or the reason why it is rejected.
pub open spec fn parse_cpu(s: Seq<char>) -> Result<u32, Seq<char>> {
    match parse_u32_spec(cpu_numeral(s)) {
        None => Err(cpu_numeral(s)),
        Some(p) => if p == 0 {
            Err("value cannot be zero"@)
        } else if p > MAX_CPU_PERCENT {
            Err("value too large (max 10000% = 100 cores)"@)
        } else {
            Ok(p)
        },
    }
}

// ---------------------------------------------------------------------------
// Memory
// ---------------------------------------------------------------------------

/// A memory ceiling: a positive number of bytes.
#[derive(Clone, Copy, Debug)]
pub struct MemoryLimit(u64);

impl View for MemoryLimit {
    type V = u64;

    closed spec fn view(&self) -> u64 {
        self.0
    }
}

impl MemoryLimit {
    #[verifier::type_invariant]
    spec fn positive(self) -> bool {
        self.0 > 0
    }

    /// The ceiling in bytes.
    pub fn bytes(self) -> (r: u64)
        ensures
            r == self@,
            r > 0,
    {
        proof {
            use_type_invariant(&self);
        }
        self.0
    }

    /// Reads a memory string such as `"2G"`, `"512M"` or `"1024"`.
    pub fn parse(s: &str) -> (r: Result<MemoryLimit, Error>)
        ensures
            match r {
                Ok(m) => parse_memory(s@) == Ok::<u64, Seq<char>>(m@),
                Err(e) => parse_memory(s@).is_err() && e@ == ErrorView::InvalidMemory(
                    parse_memory(s@).unwrap_err(),
                ),
            },
    {
        let chars = chars_of(s);
        let t = trimmed(chars.as_slice());
        if t.len() == 0 {
            return Err(Error::InvalidMemory("empty value".to_string()));
        }
        let last = t[t.len() - 1];
        let factor: u64 = if last == 'K' || last == 'k' {
            1024
        } else if last == 'M' || last == 'm' {
            1024 * 1024
        } else if last == 'G' || last == 'g' {
            1024 * 1024 * 1024
        } else if last == 'T' || last == 't' {
            1024 * 1024 * 1024 * 1024
        } else {
            1
        };
        let numeral = if factor == 1 {
            t
        } else {
            slice_subrange(t, 0, t.len() - 1)
        };
        assert(numeral@ == memory_numeral(t@));
        assert(factor == memory_factor(t@));
        let n = match parse_u64(numeral) {
            Some(n) => n,
            None => {
                return Err(Error::InvalidMemory(string_of(t)));
            },
        };
        if n == 0 {
            return Err(Error::InvalidMemory("value cannot be zero".to_string()));
        }
        match n.checked_mul(factor) {
            Some(bytes) => {
                assert(bytes > 0) by (nonlinear_arith)
                    requires
                        bytes == n * factor,
                        n > 0,
                        factor > 0,
                ;
                Ok(MemoryLimit(bytes))
            },
            None => Err(Error::InvalidMemory("value too large (overflow)".to_string())),
        }
    }
}

// ---------------------------------------------------------------------------
// CPU
// ---------------------------------------------------------------------------

/// A CPU ceiling in percent of one core, between 1 and 10000.
#[derive(Clone, Copy, Debug)]
pub struct CpuLimit(u32);

impl View for CpuLimit {
    type V = u32;

    closed spec fn view(&self) -> u32 {
        self.0
    }
}

impl CpuLimit {
    #[verifier::type_invariant]
    spec fn in_range(self) -> bool {
        1 <= self.0 <= MAX_CPU_PERCENT
    }

    /// The ceiling in percent of one core.
    pub fn percent(self) -> (r: u32)
        ensures
            r == self@,
            1 <= r <= MAX_CPU_PERCENT,
    {
        proof {
            use_type_invariant(&self);
        }
        self.0
    }

    /// Reads a CPU string such as `"50%"` or `"150"`.
    pub fn parse(s: &str) -> (r: Result<CpuLimit, Error>)
        ensures
            match r {
                Ok(c) => parse_cpu(s@) == Ok::<u32, Seq<char>>(c@),
                Err(e) => parse_cpu(s@).is_err() && e@ == ErrorView::InvalidCpu(
                    parse_cpu(s@).unwrap_err(),
                ),
            },
    {
        let chars = chars_of(s);
        let t = trimmed(chars.as_slice());
        let numeral = if t.len() > 0 && t[t.len() - 1] == '%' {
            slice_subrange(t, 0, t.len() - 1)
        } else {
            t
        };
        assert(numeral@ == cpu_numeral(s@));
        let percent = match parse_u32(numeral) {
            Some(p) => p,
            None => {
                return Err(Error::InvalidCpu(string_of(numeral)));
            },
        };
        if percent == 0 {
            return Err(Error::InvalidCpu("value cannot be zero".to_string()));
        }
        if percent > MAX_CPU_PERCENT {
            return Err(
                Error::InvalidCpu("value too large (max 10000% = 100 cores)".to_string()),
            );
        }
        Ok(CpuLimit(percent))
    }
}

// ---------------------------------------------------------------------------
// I/O
// ---------------------------------------------------------------------------

/// An I/O bandwidth ceiling in bytes per second, for reading, writing or both.
#[derive(Clone, Copy, Debug)]
pub struct IoLimit {
    /// Ceiling on reads, in bytes per second.
    pub read_bps: Option<u64>,
    /// Ceiling on writes, in bytes per second.
    pub write_bps: Option<u64>,
}

impl Default for IoLimit {
    fn default() -> (r: Self)
        ensures
            r.read_bps.is_none(),
            r.write_bps.is_none(),
    {
        IoLimit { read_bps: None, write_bps: None }
    }
}

impl IoLimit {
    /// Reads a bandwidth string. Bandwidths are written as memory sizes are.
    pub fn parse_bps(s: &str) -> (r: Result<u64, Error>)
        ensures
            match r {
                Ok(bps) => parse_memory(s@) == Ok::<u64, Seq<char>>(bps),
                Err(e) => parse_memory(s@).is_err() && e@ == ErrorView::InvalidMemory(
                    parse_memory(s@).unwrap_err(),
                ),
            },
    {
        match MemoryLimit::parse(s) {
            Ok(m) => Ok(m.bytes()),
            Err(e) => Err(e),
        }
    }

    /// The limit constrains nothing: neither direction has a ceiling.
    pub fn is_empty(&self) -> (r: bool)
        ensures
            r == (self.read_bps.is_none() && self.write_bps.is_none()),
    {
        self.read_bps.is_none() && self.write_bps.is_none()
    }
}

// ---------------------------------------------------------------------------
// The triple
// ---------------------------------------------------------------------------

/// The ceilings to put on a process. An absent field leaves that resource
/// alone.
#[derive(Debug)]
pub struct Limit {
    pub memory: Option<MemoryLimit>,
    pub cpu: Option<CpuLimit>,
    pub io: Option<IoLimit>,
}

/// The mathematical content of a [`Limit`].
pub struct LimitView {
    /// Memory ceiling in bytes.
    pub memory: Option<u64>,
    /// CPU ceiling in percent of one core.
    pub cpu: Option<u32>,
    /// I/O ceilings in bytes per second.
    pub io: Option<IoLimit>,
}

impl View for Limit {
    type V = LimitView;

    open spec fn view(&self) -> LimitView {
        LimitView {
            memory: match self.memory {
                Some(m) => Some(m@),
                None => None,
            },
            cpu: match self.cpu {
                Some(c) => Some(c@),
                None => None,
            },
            io: self.io,
        }
    }
}

impl Clone for Limit {
    fn clone(&self) -> (r: Self)
        ensures
            r == *self,
    {
        Limit { memory: self.memory, cpu: self.cpu, io: self.io }
    }
}

impl Default for Limit {
    fn default() -> (r: Self)
        ensures
            r@ == (LimitView { memory: None, cpu: None, io: None }),
    {
        Limit { memory: None, cpu: None, io: None }
    }
}

// ---------------------------------------------------------------------------
// Laws of the grammar
// ---------------------------------------------------------------------------

/// Every character of `s` is white space.
pub open spec fn all_whitespace(s: Seq<char>) -> bool {
    forall|i: int| 0 <= i < s.len() ==> is_whitespace(#[trigger] s[i])
}

/// A numeral with an optional unit letter, as a text.
pub open spec fn memory_text(digits: Seq<char>, unit: Option<char>) -> Seq<char> {
    match unit {
        Some(u) => digits.push(u),
        None => digits,
    }
}

/// The factor of an optional unit letter.
pub open spec fn factor_of(unit: Option<char>) -> nat {
    match unit {
        Some(u) => unit_factor(u).unwrap(),
        None => 1,
    }
}

/// A memory string made of a decimal numeral and an optional unit letter,
/// with any white space around it, means the numeral's value times the
/// unit's factor. It is accepted exactly if that product is positive and the
/// numeral and the product lie within the 64-bit range.
pub proof fn lemma_memory_string_value(
    left: Seq<char>,
    digits: Seq<char>,
    unit: Option<char>,
    right: Seq<char>,
)
    requires
        all_whitespace(left),
        all_whitespace(right),
        is_decimal(digits),
        unit matches Some(u) ==> unit_factor(u).is_some(),
    ensures
        ({
            let s = left + memory_text(digits, unit) + right;
            let product = decimal_value(digits) * factor_of(unit);
            if 0 < product <= u64::MAX {
                parse_memory(s) == Ok::<u64, Seq<char>>(product as u64)
            } else {
                parse_memory(s).is_err()
            }
        }),
{
    let t = memory_text(digits, unit);
    let n = decimal_value(digits);
    let f = factor_of(unit);
    lemma_trim_padding(left, t, right);
    assert(is_digit(digits[0]));
    assert(is_digit(digits.last()));
    lemma_trim_fixed(t);
    assert(trim(t) == t);
    match unit {
        Some(u) => {
            assert(t.last() == u);
            assert(t.drop_last() == digits);
        },
        None => {
            assert(unit_factor(t.last()).is_none());
        },
    }
    assert(memory_numeral(t) == digits);
    assert(memory_factor(t) == f);
    assert(n * f >= n) by (nonlinear_arith)
        requires
            f >= 1,
            n >= 0,
    ;
    if n > 0 {
        assert(n * f > 0) by (nonlinear_arith)
            requires
                f >= 1,
                n > 0,
        ;
    } else {
        assert(n * f == 0) by (nonlinear_arith)
            requires
                n == 0,
        ;
    }
}

/// The empty string and the numeral zero, with or without a unit, are not
/// memory strings.
pub proof fn lemma_memory_string_rejects()
    ensures
        parse_memory(""@).is_err(),
        parse_memory("0"@).is_err(),
{
    reveal_strlit("");
    reveal_strlit("0");
    let zero = "0"@;
    assert(trim(""@) == ""@);
    assert(is_digit(zero[0]));
    lemma_trim_fixed(zero);
    assert(memory_numeral(zero) == zero);
    assert(zero.drop_last() == Seq::<char>::empty());
    assert(decimal_value(zero.drop_last()) == 0);
    assert(decimal_value(zero) == 0);
}

/// A memory string that holds a character other than white space, decimal
/// digits and one final unit letter is rejected.
pub proof fn lemma_memory_string_non_numeric(s: Seq<char>, i: int)
    requires
        0 <= i < trim(s).len(),
        !is_digit(trim(s)[i]),
        i < trim(s).len() - 1 || unit_factor(trim(s)[i]).is_none(),
    ensures
        parse_memory(s).is_err(),
{
    let t = trim(s);
    let numeral = memory_numeral(t);
    assert(i < numeral.len());
    assert(numeral[i] == t[i]);
}

/// Every percentage from 1 to 10000, written as a numeral with or without a
/// percent sign and with any white space around it, reads back as itself.
pub proof fn lemma_cpu_roundtrip(percent: u32, sign: bool, left: Seq<char>, right: Seq<char>)
    requires
        1 <= percent <= MAX_CPU_PERCENT,
        all_whitespace(left),
        all_whitespace(right),
    ensures
        ({
            let numeral = decimal_digits(percent as nat);
            let body = if sign {
                numeral.push('%')
            } else {
                numeral
            };
            parse_cpu(left + body + right) == Ok::<u32, Seq<char>>(percent)
        }),
{
    let numeral = decimal_digits(percent as nat);
    let body = if sign {
        numeral.push('%')
    } else {
        numeral
    };
    lemma_decimal_roundtrip(percent as nat);
    lemma_trim_padding(left, body, right);
    assert(is_digit(numeral[0]));
    assert(is_digit(numeral.last()));
    lemma_trim_fixed(body);
    if sign {
        assert(body.drop_last() == numeral);
    }
    assert(cpu_numeral(left + body + right) == numeral);
}

/// Percentages outside 1 to 10000 are rejected, however they are written.
pub proof fn lemma_cpu_out_of_range(s: Seq<char>)
    requires
        is_decimal(cpu_numeral(s)),
        decimal_value(cpu_numeral(s)) == 0 || decimal_value(cpu_numeral(s)) > MAX_CPU_PERCENT,
    ensures
        parse_cpu(s).is_err(),
{
}

} // verus!
