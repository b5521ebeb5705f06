//! The status of the managed processes, read back from the kernel's files.
//!
//! Nothing is stored: every query walks the groups under the base, decodes
//! their limit files and takes down the groups whose process is gone.

use crate::host::{ProgressView, ReplyView, RequestView};
use crate::kernel::{
    cpu_max_text, cpu_quota, device_numbers, io_line, io_max_text, join, memory_max_text,
    CPU_PERIOD,
};
use crate::writer::{physical_names, LimitWriterView, WriterStage};
use crate::limit::{all_whitespace, IoLimit};
use crate::text::{
    chars_of, decimal_chars, decimal_digits, has_prefix, is_digit, is_line_feed, is_str,
    is_whitespace, lemma_decimal_roundtrip, lemma_lines_with_one_more, lemma_trim_fixed,
    lemma_trim_padding, lemma_words_after_space, lemma_words_after_word, lemma_words_of_one, lines,
    no_line_feed, no_whitespace, parse_u64, parse_u64_spec, push_chars, push_str, split_lines,
    split_words, starts_with_str, string_of, strip_prefix_str, texts, trim, trimmed,
    without_prefix, words,
};
use vstd::prelude::*;

verus! {

// ---------------------------------------------------------------------------
// Decoding the limit files
// ---------------------------------------------------------------------------

/// The memory ceiling that a memory ceiling file holds: none for `max`, the
/// number otherwise.
pub open spec fn memory_max_of(content: Seq<char>) -> Option<u64> {
    if trim(content) == "max"@ {
        None
    } else {
        parse_u64_spec(trim(content))
    }
}

/// Reads the memory ceiling from the content of a memory ceiling file.
pub fn parse_memory_max(content: &str) -> (r: Option<u64>)
    ensures
        r == memory_max_of(content@),
{
    let chars = chars_of(content);
    let t = trimmed(chars.as_slice());
    if is_str(t, "max") {
        None
    } else {
        parse_u64(t)
    }
}

/// `a * b`, or the largest 64-bit number if the product is larger.
pub open spec fn saturating_product(a: u64, b: u64) -> u64 {
    if a * b > u64::MAX {
        u64::MAX
    } else {
        (a * b) as u64
    }
}

/// The percentage that a quota and a period amount to: quota times hundred
/// by period, the product saturating, the quotient cut to 32 bits.
pub open spec fn percent_of(quota: u64, period: u64) -> u32
    recommends
        period > 0,
{
    ((saturating_product(quota, 100) / period) % 0x1_0000_0000) as u32
}

/// The CPU ceiling that a CPU quota file holds, in percent of one core: none
/// for `max`, for a file without two numbers and for a period of zero.
pub open spec fn cpu_quota_of(content: Seq<char>) -> Option<u32> {
    let t = trim(content);
    if t == "max"@ || has_prefix(t, "max "@) || words(t).len() < 2 {
        None
    } else {
        match (parse_u64_spec(words(t)[0]), parse_u64_spec(words(t)[1])) {
            (Some(quota), Some(period)) => if period == 0 {
                None
            } else {
                Some(percent_of(quota, period))
            },
            _ => None,
        }
    }
}

/// Reads the CPU ceiling from the content of a CPU quota file.
pub fn parse_cpu_quota(content: &str) -> (r: Option<u32>)
    ensures
        r == cpu_quota_of(content@),
{
    let chars = chars_of(content);
    let t = trimmed(chars.as_slice());
    if is_str(t, "max") || starts_with_str(t, "max ") {
        return None;
    }
    let ws = split_words(t);
    if ws.len() < 2 {
        return None;
    }
    assert(texts(ws@)[0] == ws@[0]@);
    assert(texts(ws@)[1] == ws@[1]@);
    let quota = match parse_u64(ws[0]) {
        Some(q) => q,
        None => {
            return None;
        },
    };
    let period = match parse_u64(ws[1]) {
        Some(p) => p,
        None => {
            return None;
        },
    };
    if period == 0 {
        return None;
    }
    let scaled = match quota.checked_mul(100) {
        Some(v) => v,
        None => 0xFFFF_FFFF_FFFF_FFFF,
    };
    Some(((scaled / period) % 0x1_0000_0000) as u32)
}

/// The bandwidth that a value of the I/O limit file stands for: none for
/// `max` and for what is no number.
pub open spec fn bandwidth_of(value: Seq<char>) -> Option<u64> {
    if value == "max"@ {
        None
    } else {
        parse_u64_spec(value)
    }
}

/// The first of two optional values that is present.
pub open spec fn or_else(first: Option<u64>, second: Option<u64>) -> Option<u64> {
    if first.is_some() {
        first
    } else {
        second
    }
}

/// The I/O ceilings known after one more word of the I/O limit file: a word
/// `rbps=…` or `wbps=…` sets the ceiling of its direction unless that is
/// known already.
pub open spec fn after_word(known: (Option<u64>, Option<u64>), word: Seq<char>) -> (
    Option<u64>,
    Option<u64>,
) {
    match without_prefix(word, "rbps="@) {
        Some(value) => (or_else(known.0, bandwidth_of(value)), known.1),
        None => match without_prefix(word, "wbps="@) {
            Some(value) => (known.0, or_else(known.1, bandwidth_of(value))),
            None => known,
        },
    }
}

/// The I/O ceilings known after the words `ws`.
pub open spec fn after_words(known: (Option<u64>, Option<u64>), ws: Seq<Seq<char>>) -> (
    Option<u64>,
    Option<u64>,
)
    decreases ws.len(),
{
    if ws.len() == 0 {
        known
    } else {
        after_word(after_words(known, ws.drop_last()), ws.last())
    }
}

/// The I/O ceilings known after one more line of the I/O limit file. The
/// first word of a line names the device and is passed over.
pub open spec fn after_line(known: (Option<u64>, Option<u64>), line: Seq<char>) -> (
    Option<u64>,
    Option<u64>,
) {
    if words(line).len() == 0 {
        known
    } else {
        after_words(known, words(line).drop_first())
    }
}

/// The I/O ceilings known after the lines `ls`.
pub open spec fn after_lines(known: (Option<u64>, Option<u64>), ls: Seq<Seq<char>>) -> (
    Option<u64>,
    Option<u64>,
)
    decreases ls.len(),
{
    if ls.len() == 0 {
        known
    } else {
        after_line(after_lines(known, ls.drop_last()), ls.last())
    }
}

/// The I/O ceilings that an I/O limit file holds, for reading and for
/// writing: in each direction the first value over all devices that is a
/// number.
pub open spec fn io_limits_of(content: Seq<char>) -> (Option<u64>, Option<u64>) {
    after_lines((None, None), lines(content))
}

/// Reads a bandwidth value.
fn parse_bandwidth(value: &[char]) -> (r: Option<u64>)
    ensures
        r == bandwidth_of(value@),
{
    if is_str(value, "max") {
        None
    } else {
        parse_u64(value)
    }
}

/// Reads the I/O ceilings from the content of an I/O limit file.
pub fn parse_io_limits(content: &str) -> (r: (Option<u64>, Option<u64>))
    ensures
        r == io_limits_of(content@),
{
    let chars = chars_of(content);
    let ls = split_lines(chars.as_slice());
    let mut read_bps: Option<u64> = None;
    let mut write_bps: Option<u64> = None;
    let mut i: usize = 0;
    while i < ls.len()
        invariant
            i <= ls@.len(),
            texts(ls@) == lines(content@),
            (read_bps, write_bps) == after_lines((None, None), texts(ls@).subrange(0, i as int)),
        decreases ls@.len() - i,
    {
        let ghost done = texts(ls@).subrange(0, i + 1);
        assert(done.drop_last() == texts(ls@).subrange(0, i as int));
        assert(done.last() == ls@[i as int]@);
        let ghost before = (read_bps, write_bps);
        let ws = split_words(ls[i]);
        let mut j: usize = 1;
        if ws.len() > 0 {
            let ghost tail = texts(ws@).drop_first();
            assert(tail.subrange(0, 0) == Seq::<Seq<char>>::empty());
            while j < ws.len()
                invariant
                    1 <= j <= ws@.len(),
                    tail == texts(ws@).drop_first(),
                    (read_bps, write_bps) == after_words(before, tail.subrange(0, j - 1)),
                decreases ws@.len() - j,
            {
                let ghost seen = tail.subrange(0, j as int);
                assert(seen.drop_last() == tail.subrange(0, j - 1));
                assert(seen.last() == ws@[j as int]@);
                let word = ws[j];
                match strip_prefix_str(word, "rbps=") {
                    Some(value) => {
                        if read_bps.is_none() {
                            read_bps = parse_bandwidth(value);
                        }
                    },
                    None => match strip_prefix_str(word, "wbps=") {
                        Some(value) => {
                            if write_bps.is_none() {
                                write_bps = parse_bandwidth(value);
                            }
                        },
                        None => {},
                    },
                }
                j += 1;
            }
            assert(tail.subrange(0, tail.len() as int) == tail);
        }
        i += 1;
    }
    assert(texts(ls@).subrange(0, ls@.len() as int) == texts(ls@));
    (read_bps, write_bps)
}

// ---------------------------------------------------------------------------
// The status of one process
// ---------------------------------------------------------------------------

/// A managed process and the limits that the kernel holds for it.
#[derive(Debug)]
pub struct ProcessStatus {
    pub pid: u32,
    /// The process's short name.
    pub name: String,
    /// Memory ceiling in bytes.
    pub memory_max: Option<u64>,
    /// CPU ceiling in percent of one core.
    pub cpu_quota: Option<u32>,
    /// Read ceiling in bytes per second.
    pub io_read_bps: Option<u64>,
    /// Write ceiling in bytes per second.
    pub io_write_bps: Option<u64>,
}

/// The mathematical content of a [`ProcessStatus`].
pub struct ProcessStatusView {
    pub pid: u32,
    pub name: Seq<char>,
    pub memory_max: Option<u64>,
    pub cpu_quota: Option<u32>,
    pub io_read_bps: Option<u64>,
    pub io_write_bps: Option<u64>,
}

impl DeepView for ProcessStatus {
    type V = ProcessStatusView;

    open spec fn deep_view(&self) -> ProcessStatusView {
        ProcessStatusView {
            pid: self.pid,
            name: self.name@,
            memory_max: self.memory_max,
            cpu_quota: self.cpu_quota,
            io_read_bps: self.io_read_bps,
            io_write_bps: self.io_write_bps,
        }
    }
}

/// Where the host shows the short name of the process `pid`.
pub open spec fn comm_file(pid: u32) -> Seq<char> {
    "/proc/"@ + decimal_digits(pid as nat) + "/comm"@
}

/// Where the host shows the short name of the process `pid`.
pub fn comm_path(pid: u32) -> (r: String)
    ensures
        r@ == comm_file(pid),
{
    let mut out = chars_of("/proc/");
    let digits = decimal_chars(pid as u64);
    push_chars(&mut out, digits.as_slice());
    push_str(&mut out, "/comm");
    string_of(out.as_slice())
}

/// The text of `s` without the white space around it.
pub fn trimmed_string(s: &str) -> (r: String)
    ensures
        r@ == trim(s@),
{
    let chars = chars_of(s);
    string_of(trimmed(chars.as_slice()))
}

// ---------------------------------------------------------------------------
// What is written reads back
// ---------------------------------------------------------------------------

/// No digit is white space or a line feed, so a numeral is one word on one
/// line.
proof fn lemma_numeral_is_plain(n: nat)
    ensures
        decimal_digits(n).len() > 0,
        no_whitespace(decimal_digits(n)),
        no_line_feed(decimal_digits(n)),
        is_digit(decimal_digits(n)[0]),
        is_digit(decimal_digits(n).last()),
        parse_u64_spec(decimal_digits(n)) == (if n <= u64::MAX {
            Some(n as u64)
        } else {
            None
        }),
{
    lemma_decimal_roundtrip(n);
    let d = decimal_digits(n);
    assert forall|i: int| 0 <= i < d.len() implies !is_whitespace(#[trigger] d[i])
        && !is_line_feed(d[i]) by {
        assert(is_digit(d[i]));
    }
}

/// The memory ceiling that was written is the memory ceiling that is read,
/// whatever white space the kernel puts behind it.
pub proof fn lemma_memory_ceiling_reads_back(bytes: u64, padding: Seq<char>)
    requires
        all_whitespace(padding),
    ensures
        memory_max_of(memory_max_text(bytes) + padding) == Some(bytes),
{
    let d = decimal_digits(bytes as nat);
    lemma_numeral_is_plain(bytes as nat);
    lemma_trim_fixed(d);
    lemma_trim_padding(Seq::empty(), d, padding);
    assert(Seq::<char>::empty() + d + padding == d + padding);
    reveal_strlit("max");
    assert("max"@[0] == 'm');
}

/// The CPU ceiling that was written is the CPU ceiling that is read,
/// whatever white space the kernel puts behind it.
pub proof fn lemma_cpu_ceiling_reads_back(percent: u32, padding: Seq<char>)
    requires
        all_whitespace(padding),
    ensures
        cpu_quota_of(cpu_max_text(percent) + padding) == Some(percent),
{
    let quota = cpu_quota(percent);
    let dq = decimal_digits(quota as nat);
    let dp = decimal_digits(CPU_PERIOD as nat);
    let t = cpu_max_text(percent);
    lemma_numeral_is_plain(quota as nat);
    lemma_numeral_is_plain(CPU_PERIOD as nat);
    reveal_strlit(" ");
    reveal_strlit("max");
    reveal_strlit("max ");
    assert(" "@ == seq![' ']);
    assert(t == dq + (seq![' '] + dp));
    assert(t[0] == dq[0]);
    assert(t.last() == dp.last());
    lemma_trim_fixed(t);
    lemma_trim_padding(Seq::empty(), t, padding);
    assert(Seq::<char>::empty() + t + padding == t + padding);
    assert(trim(t + padding) == t);
    assert("max"@[0] == 'm' && "max "@[0] == 'm');
    assert(!has_prefix(t, "max "@)) by {
        if has_prefix(t, "max "@) {
            assert(t.subrange(0, "max "@.len() as int)[0] == t[0]);
        }
    }
    lemma_words_after_word(dq, seq![' '] + dp);
    lemma_words_after_space(' ', dp);
    lemma_words_of_one(dp);
    assert(words(t) == seq![dq] + seq![dp]);
    assert(words(t)[0] == dq && words(t)[1] == dp);
    assert(quota == percent * 1000) by (nonlinear_arith)
        requires
            quota == (percent as u64 * CPU_PERIOD / 100) as u64,
            CPU_PERIOD == 100000,
            0 <= percent <= 0xFFFF_FFFF,
    ;
    assert(saturating_product(quota, 100) == percent * 100000);
    assert((percent * 100000) / 100000 == percent) by (nonlinear_arith);
}

/// The words of the line that is written for one block device.
pub open spec fn io_line_words(device: (u32, u32), io: IoLimit) -> Seq<Seq<char>> {
    seq![decimal_digits(device.0 as nat) + ":"@ + decimal_digits(device.1 as nat)] + (match io.read_bps {
        Some(r) => seq!["rbps="@ + decimal_digits(r as nat)],
        None => Seq::empty(),
    }) + (match io.write_bps {
        Some(w) => seq!["wbps="@ + decimal_digits(w as nat)],
        None => Seq::empty(),
    })
}

/// Putting two texts without white space together gives one.
proof fn lemma_plain_concat(a: Seq<char>, b: Seq<char>)
    requires
        no_whitespace(a),
        no_whitespace(b),
        no_line_feed(a),
        no_line_feed(b),
    ensures
        no_whitespace(a + b),
        no_line_feed(a + b),
{
    assert forall|i: int| 0 <= i < (a + b).len() implies !is_whitespace(#[trigger] (a + b)[i])
        && !is_line_feed((a + b)[i]) by {
        if i < a.len() {
            assert((a + b)[i] == a[i]);
        } else {
            assert((a + b)[i] == b[i - a.len()]);
        }
    }
}

/// The line of a block device holds the words it was made of, and no line
/// feed.
proof fn lemma_io_line_words(device: (u32, u32), io: IoLimit)
    ensures
        words(io_line(device, io)) == io_line_words(device, io),
        no_line_feed(io_line(device, io)),
        io_line(device, io).len() > 0,
        io_line(device, io).last() != '\r',
{
    reveal_strlit(":");
    reveal_strlit(" rbps=");
    reveal_strlit(" wbps=");
    reveal_strlit("rbps=");
    reveal_strlit("wbps=");
    let major = decimal_digits(device.0 as nat);
    let minor = decimal_digits(device.1 as nat);
    lemma_numeral_is_plain(device.0 as nat);
    lemma_numeral_is_plain(device.1 as nat);
    assert(no_whitespace(":"@) && no_line_feed(":"@)) by {
        assert(":"@[0] == ':');
    }
    lemma_plain_concat(major, ":"@);
    lemma_plain_concat(major + ":"@, minor);
    let head = major + ":"@ + minor;
    assert(head.last() == minor.last());
    assert(no_whitespace("rbps="@) && no_line_feed("rbps="@)) by {
        let k = "rbps="@;
        assert(k[0] == 'r' && k[1] == 'b' && k[2] == 'p' && k[3] == 's' && k[4] == '=');
    }
    assert(no_whitespace("wbps="@) && no_line_feed("wbps="@)) by {
        let k = "wbps="@;
        assert(k[0] == 'w' && k[1] == 'b' && k[2] == 'p' && k[3] == 's' && k[4] == '=');
    }
    assert(" rbps="@ =~= seq![' '] + "rbps="@);
    assert(" wbps="@ =~= seq![' '] + "wbps="@);
    let line = io_line(device, io);
    let space = seq![' '];
    assert(no_line_feed(space));
    match (io.read_bps, io.write_bps) {
        (None, None) => {
            assert(line =~= head);
            lemma_words_of_one(head);
            assert(io_line_words(device, io) =~= seq![head]);
        },
        (Some(r), None) => {
            let rd = decimal_digits(r as nat);
            lemma_numeral_is_plain(r as nat);
            lemma_plain_concat("rbps="@, rd);
            let word = "rbps="@ + rd;
            assert(line =~= head + (space + word));
            lemma_words_after_word(head, space + word);
            lemma_words_after_space(' ', word);
            lemma_words_of_one(word);
            assert(io_line_words(device, io) =~= seq![head] + seq![word]);
            assert(line.last() == rd.last());
            assert forall|i: int| 0 <= i < line.len() implies !is_line_feed(#[trigger] line[i]) by {
                if i < head.len() {
                    assert(line[i] == head[i]);
                } else if i == head.len() {
                    assert(line[i] == ' ');
                } else {
                    assert(line[i] == word[i - head.len() - 1]);
                }
            }
        },
        (None, Some(w)) => {
            let wd = decimal_digits(w as nat);
            lemma_numeral_is_plain(w as nat);
            lemma_plain_concat("wbps="@, wd);
            let word = "wbps="@ + wd;
            assert(line =~= head + (space + word));
            lemma_words_after_word(head, space + word);
            lemma_words_after_space(' ', word);
            lemma_words_of_one(word);
            assert(io_line_words(device, io) =~= seq![head] + seq![word]);
            assert(line.last() == wd.last());
            assert forall|i: int| 0 <= i < line.len() implies !is_line_feed(#[trigger] line[i]) by {
                if i < head.len() {
                    assert(line[i] == head[i]);
                } else if i == head.len() {
                    assert(line[i] == ' ');
                } else {
                    assert(line[i] == word[i - head.len() - 1]);
                }
            }
        },
        (Some(r), Some(w)) => {
            let rd = decimal_digits(r as nat);
            let wd = decimal_digits(w as nat);
            lemma_numeral_is_plain(r as nat);
            lemma_numeral_is_plain(w as nat);
            lemma_plain_concat("rbps="@, rd);
            lemma_plain_concat("wbps="@, wd);
            let first = "rbps="@ + rd;
            let second = "wbps="@ + wd;
            assert(line =~= head + (space + (first + (space + second))));
            lemma_words_after_word(head, space + (first + (space + second)));
            lemma_words_after_space(' ', first + (space + second));
            lemma_words_after_word(first, space + second);
            lemma_words_after_space(' ', second);
            lemma_words_of_one(second);
            assert(io_line_words(device, io) =~= seq![head] + (seq![first] + seq![second]));
            assert(line.last() == wd.last());
            assert forall|i: int| 0 <= i < line.len() implies !is_line_feed(#[trigger] line[i]) by {
                if i < head.len() {
                    assert(line[i] == head[i]);
                } else if i == head.len() {
                    assert(line[i] == ' ');
                } else if i < head.len() + 1 + first.len() {
                    assert(line[i] == first[i - head.len() - 1]);
                } else if i == head.len() + 1 + first.len() {
                    assert(line[i] == ' ');
                } else {
                    assert(line[i] == second[i - head.len() - 2 - first.len()]);
                }
            }
        },
    }
}

/// The words of one word are told by that word.
proof fn lemma_after_one_word(known: (Option<u64>, Option<u64>), word: Seq<char>)
    ensures
        after_words(known, seq![word]) == after_word(known, word),
{
    assert(seq![word].drop_last() =~= Seq::<Seq<char>>::empty());
    assert(after_words(known, seq![word].drop_last()) == known);
}

/// A written read ceiling tells the read ceiling.
proof fn lemma_read_word(known: (Option<u64>, Option<u64>), r: u64)
    ensures
        after_word(known, "rbps="@ + decimal_digits(r as nat)) == (
            or_else(known.0, Some(r)),
            known.1,
        ),
{
    reveal_strlit("rbps=");
    reveal_strlit("max");
    let rd = decimal_digits(r as nat);
    lemma_numeral_is_plain(r as nat);
    let word = "rbps="@ + rd;
    assert(word.subrange(0, 5) =~= "rbps="@);
    assert(word.subrange(5, word.len() as int) =~= rd);
    assert("max"@[0] == 'm');
    assert(rd != "max"@);
    assert(without_prefix(word, "rbps="@) == Some(rd));
}

/// A written write ceiling tells the write ceiling.
proof fn lemma_write_word(known: (Option<u64>, Option<u64>), w: u64)
    ensures
        after_word(known, "wbps="@ + decimal_digits(w as nat)) == (
            known.0,
            or_else(known.1, Some(w)),
        ),
{
    reveal_strlit("rbps=");
    reveal_strlit("wbps=");
    reveal_strlit("max");
    let wd = decimal_digits(w as nat);
    lemma_numeral_is_plain(w as nat);
    let word = "wbps="@ + wd;
    assert(word.subrange(0, 5) =~= "wbps="@);
    assert(word.subrange(5, word.len() as int) =~= wd);
    assert(word[0] == 'w');
    assert("rbps="@[0] == 'r');
    assert(!has_prefix(word, "rbps="@)) by {
        if has_prefix(word, "rbps="@) {
            assert(word.subrange(0, 5)[0] == word[0]);
        }
    }
    assert("max"@[0] == 'm');
    assert(wd != "max"@);
    assert(without_prefix(word, "rbps="@).is_none());
    assert(without_prefix(word, "wbps="@) == Some(wd));
}

/// One written line tells the ceilings that were written, in the directions
/// that are not known yet.
proof fn lemma_after_written_line(known: (Option<u64>, Option<u64>), device: (u32, u32), io: IoLimit)
    ensures
        after_line(known, io_line(device, io)) == (
            or_else(known.0, io.read_bps),
            or_else(known.1, io.write_bps),
        ),
{
    lemma_io_line_words(device, io);
    let ws = io_line_words(device, io);
    let tail = ws.drop_first();
    assert(words(io_line(device, io)) == ws);
    assert(ws.len() > 0);
    match (io.read_bps, io.write_bps) {
        (None, None) => {
            assert(tail =~= Seq::<Seq<char>>::empty());
            assert(after_words(known, tail) == known);
        },
        (Some(r), None) => {
            let word = "rbps="@ + decimal_digits(r as nat);
            assert(tail =~= seq![word]);
            lemma_after_one_word(known, word);
            lemma_read_word(known, r);
        },
        (None, Some(w)) => {
            let word = "wbps="@ + decimal_digits(w as nat);
            assert(tail =~= seq![word]);
            lemma_after_one_word(known, word);
            lemma_write_word(known, w);
        },
        (Some(r), Some(w)) => {
            let first = "rbps="@ + decimal_digits(r as nat);
            let second = "wbps="@ + decimal_digits(w as nat);
            assert(tail =~= seq![first, second]);
            assert(tail.drop_last() =~= seq![first]);
            assert(tail.last() == second);
            lemma_after_one_word(known, first);
            lemma_read_word(known, r);
            lemma_write_word(after_word(known, first), w);
            assert(after_words(known, tail) == after_word(after_words(known, seq![first]), second));
        },
    }
}

/// The lines of what is written for the block devices: one for each.
proof fn lemma_written_lines(devices: Seq<(u32, u32)>, io: IoLimit)
    ensures
        lines(io_max_text(devices, io)).len() == devices.len(),
        forall|k: int|
            0 <= k < devices.len() ==> (#[trigger] lines(io_max_text(devices, io))[k]) == io_line(
                devices[k],
                io,
            ),
        devices.len() > 0 ==> io_max_text(devices, io).len() > 0 && io_max_text(
            devices,
            io,
        ).last() == '\n',
        devices.len() == 0 ==> io_max_text(devices, io).len() == 0,
    decreases devices.len(),
{
    reveal_strlit("\n");
    if devices.len() > 0 {
        let front = devices.drop_last();
        lemma_written_lines(front, io);
        lemma_io_line_words(devices.last(), io);
        let line = io_line(devices.last(), io);
        assert("\n"@ =~= seq!['\n']);
        lemma_lines_with_one_more(io_max_text(front, io), line);
        assert(io_max_text(devices, io) == io_max_text(front, io) + line + seq!['\n']);
        assert forall|k: int| 0 <= k < devices.len() implies (#[trigger] lines(
            io_max_text(devices, io),
        )[k]) == io_line(devices[k], io) by {
            if k < front.len() {
                assert(lines(io_max_text(front, io))[k] == io_line(front[k], io));
            }
        }
    }
}

/// The I/O ceilings that were written are the I/O ceilings that are read,
/// if there was a block device to write them for.
pub proof fn lemma_io_ceilings_read_back(devices: Seq<(u32, u32)>, io: IoLimit)
    requires
        devices.len() > 0,
    ensures
        io_limits_of(io_max_text(devices, io)) == (io.read_bps, io.write_bps),
{
    lemma_written_lines(devices, io);
    lemma_after_written_lines(lines(io_max_text(devices, io)), devices, io);
}

/// Lines that were written for block devices tell the ceilings that were
/// written.
proof fn lemma_after_written_lines(ls: Seq<Seq<char>>, devices: Seq<(u32, u32)>, io: IoLimit)
    requires
        ls.len() == devices.len(),
        forall|k: int| 0 <= k < ls.len() ==> (#[trigger] ls[k]) == io_line(devices[k], io),
    ensures
        after_lines((None, None), ls) == (if ls.len() == 0 {
            (None::<u64>, None::<u64>)
        } else {
            (io.read_bps, io.write_bps)
        }),
    decreases ls.len(),
{
    if ls.len() > 0 {
        lemma_after_written_lines(ls.drop_last(), devices.drop_last(), io);
        lemma_after_written_line(after_lines((None, None), ls.drop_last()), devices.last(), io);
        assert(ls.last() == io_line(devices[ls.len() - 1], io));
    }
}

/// What is asked of the host, if it is a write, is a write of a limit file
/// of the group with content that reads back as the limit's own value,
/// whatever white space the kernel puts behind it.
pub open spec fn writes_what_reads_back(
    w: LimitWriterView,
    p: ProgressView<LimitWriterView, ()>,
    padding: Seq<char>,
) -> bool {
    match p {
        ProgressView::Ask(next, RequestView::Write { path, content }) => match next.stage {
            WriterStage::Memory => path == join(w.path, "memory.max"@) && w.limit.memory.is_some()
                && memory_max_of(content + padding) == w.limit.memory,
            WriterStage::Cpu => path == join(w.path, "cpu.max"@) && w.limit.cpu.is_some()
                && cpu_quota_of(content + padding) == w.limit.cpu,
            WriterStage::Io => path == join(w.path, "io.max"@) && io_limits_of(content) == (
                w.io().read_bps,
                w.io().write_bps,
            ),
            _ => false,
        },
        _ => true,
    }
}

/// Whatever limit is written reads back as itself: the status that is told
/// of a group after its limits were written tells those limits.
pub proof fn lemma_written_limits_read_back(
    w: LimitWriterView,
    reply: ReplyView,
    padding: Seq<char>,
)
    requires
        all_whitespace(padding),
    ensures
        writes_what_reads_back(w, w.begin(), padding),
        writes_what_reads_back(w, w.resume(reply), padding),
{
    match w.limit.memory {
        Some(bytes) => {
            lemma_memory_ceiling_reads_back(bytes, padding);
        },
        None => {},
    }
    match w.limit.cpu {
        Some(percent) => {
            lemma_cpu_ceiling_reads_back(percent, padding);
        },
        None => {},
    }
    lemma_io_written_reads_back(w);
    match w.stage {
        WriterStage::ListDevices => {
            match reply.entries() {
                Ok(entries) => {
                    lemma_io_written_reads_back(
                        LimitWriterView {
                            names: physical_names(entries),
                            next: 0,
                            devices: Seq::empty(),
                            ..w
                        },
                    );
                },
                Err(_) => {},
            }
        },
        WriterStage::ReadDevice => {
            let devices = match reply.text() {
                Ok(content) => match device_numbers(content) {
                    Some(d) => w.devices.push(d),
                    None => w.devices,
                },
                Err(_) => w.devices,
            };
            let next = if w.next < w.names.len() {
                w.next + 1
            } else {
                w.next
            };
            lemma_io_written_reads_back(LimitWriterView { next, devices, ..w });
        },
        _ => {},
    }
}

/// The I/O ceilings, when they are written, read back.
proof fn lemma_io_written_reads_back(w: LimitWriterView)
    ensures
        match w.enter_device() {
            ProgressView::Ask(next, RequestView::Write { path, content }) => next.stage
                == WriterStage::Io && path == join(w.path, "io.max"@) && io_limits_of(content)
                == (w.io().read_bps, w.io().write_bps),
            _ => true,
        },
{
    if !(0 <= w.next < w.names.len()) && w.devices.len() > 0 {
        lemma_io_ceilings_read_back(w.devices, w.io());
    }
}

} // verus!
