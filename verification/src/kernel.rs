//! The kernel's side of the contract: how managed control groups are named,
//! where their files lie and what is written into them.

use crate::error::{Error, ErrorView};
use crate::limit::IoLimit;
use crate::text::{
    chars_of, decimal_chars, decimal_digits, has_char, has_prefix, lines, parse_u32,
    parse_u32_spec, push_chars, push_str, split_lines, split_words, starts_with_str, string_of,
    texts, trim, trimmed, words, contains_char, same_chars,
};
use vstd::prelude::*;
use vstd::slice::slice_subrange;

verus! {

// ---------------------------------------------------------------------------
// Names
// ---------------------------------------------------------------------------

/// The characters a control-group name is made of: ASCII letters, digits,
/// the dash and the underscore.
pub open spec fn is_name_char(c: char) -> bool {
    ('a' <= c && c <= 'z') || ('A' <= c && c <= 'Z') || ('0' <= c && c <= '9') || c == '-' || c
        == '_'
}

/// A usable control-group name: not empty, and made of name characters only.
/// Such a name cannot leave the directory it is joined to.
pub open spec fn valid_name(s: Seq<char>) -> bool {
    s.len() > 0 && forall|i: int| 0 <= i < s.len() ==> is_name_char(#[trigger] s[i])
}

/// `s` holds two dots in a row.
pub open spec fn has_dot_dot(s: Seq<char>) -> bool {
    exists|i: int| 0 <= i < s.len() - 1 && #[trigger] s[i] == '.' && s[i + 1] == '.'
}

/// Why a name is refused, if it is.
pub open spec fn name_rejection(s: Seq<char>) -> Option<Seq<char>> {
    if s.len() == 0 {
        Some("cgroup name cannot be empty"@)
    } else if has_char(s, '/') || has_char(s, '\\') || has_dot_dot(s) {
        Some("cgroup name contains invalid characters"@)
    } else if !valid_name(s) {
        Some(
            "cgroup name must contain only alphanumeric characters, dashes, or underscores"@,
        )
    } else {
        None
    }
}

/// A name is refused exactly if it is not valid.
pub proof fn lemma_rejection_iff_invalid(s: Seq<char>)
    ensures
        name_rejection(s).is_none() <==> valid_name(s),
{
    if valid_name(s) {
        assert forall|i: int| 0 <= i < s.len() implies s[i] != '/' && s[i] != '\\' && s[i]
            != '.' by {
            assert(is_name_char(s[i]));
        }
    }
}

/// Whether `c` may stand in a control-group name.
fn name_char(c: char) -> (r: bool)
    ensures
        r == is_name_char(c),
{
    ('a' <= c && c <= 'z') || ('A' <= c && c <= 'Z') || ('0' <= c && c <= '9') || c == '-' || c
        == '_'
}

/// Whether `s` holds two dots in a row.
fn contains_dot_dot(s: &[char]) -> (r: bool)
    ensures
        r == has_dot_dot(s@),
{
    let mut i: usize = 1;
    while i < s.len()
        invariant
            1 <= i,
            forall|k: int|
                0 <= k < i - 1 && k < s@.len() - 1 ==> !(#[trigger] s@[k] == '.' && s@[k + 1]
                    == '.'),
        decreases s@.len() - i,
    {
        if s[i - 1] == '.' && s[i] == '.' {
            return true;
        }
        i += 1;
    }
    false
}

/// Whether every character of `s` may stand in a control-group name.
fn all_name_chars(s: &[char]) -> (r: bool)
    ensures
        r == (forall|i: int| 0 <= i < s@.len() ==> is_name_char(#[trigger] s@[i])),
{
    let mut i: usize = 0;
    while i < s.len()
        invariant
            i <= s@.len(),
            forall|k: int| 0 <= k < i ==> is_name_char(#[trigger] s@[k]),
        decreases s@.len() - i,
    {
        if !name_char(s[i]) {
            return false;
        }
        i += 1;
    }
    true
}

/// Checks a control-group name before any path is built from it.
///
/// Accepts exactly the valid names and hands them back unchanged; every
/// other name is an invalid argument, with the reason as its text.
pub fn sanitize_cgroup_name(name: &str) -> (r: Result<&str, Error>)
    ensures
        match r {
            Ok(same) => same@ == name@ && valid_name(name@),
            Err(e) => name_rejection(name@).is_some() && e@ == ErrorView::InvalidArgs(
                name_rejection(name@).unwrap(),
            ),
        },
{
    let chars = chars_of(name);
    let s = chars.as_slice();
    proof {
        lemma_rejection_iff_invalid(name@);
    }
    if s.len() == 0 {
        return Err(Error::InvalidArgs("cgroup name cannot be empty".to_string()));
    }
    if contains_char(s, '/') || contains_char(s, '\\') || contains_dot_dot(s) {
        return Err(Error::InvalidArgs("cgroup name contains invalid characters".to_string()));
    }
    if !all_name_chars(s) {
        return Err(
            Error::InvalidArgs(
                "cgroup name must contain only alphanumeric characters, dashes, or underscores".to_string(),
            ),
        );
    }
    Ok(name)
}

/// The name of the control group that holds the process `pid` when it is
/// limited directly.
pub open spec fn pid_group_name(pid: u32) -> Seq<char> {
    "pid-"@ + decimal_digits(pid as nat)
}

/// The name of the control group that holds the process `pid` when it is
/// limited directly.
pub fn pid_group(pid: u32) -> (r: String)
    ensures
        r@ == pid_group_name(pid),
{
    let mut out = chars_of("pid-");
    let digits = decimal_chars(pid as u64);
    push_chars(&mut out, digits.as_slice());
    string_of(out.as_slice())
}

/// The name under which a process `pid` is limited directly is valid.
pub proof fn lemma_pid_group_name_valid(pid: u32)
    ensures
        valid_name(pid_group_name(pid)),
{
    reveal_strlit("pid-");
    crate::text::lemma_decimal_roundtrip(pid as nat);
    let digits = decimal_digits(pid as nat);
    let name = pid_group_name(pid);
    assert forall|i: int| 0 <= i < name.len() implies is_name_char(#[trigger] name[i]) by {
        if i >= 4 {
            assert(name[i] == digits[i - 4]);
            assert(crate::text::is_digit(digits[i - 4]));
        }
    }
}

/// How a managed control group came about, as its name tells.
#[derive(Clone, Copy, Debug, PartialEq, Eq, Structural)]
pub enum GroupKind {
    /// Named `pid-<n>`: made for one process, whose identifier the name
    /// gives. The identifier is absent if what follows the dash is no
    /// number.
    PidDirect(Option<u32>),
    /// Named `run-…` or `gtk-…`: made for a process that was launched into
    /// it; the membership file tells which.
    LaunchDerived,
    /// Anything else: not managed here.
    Foreign,
}

/// The kind of a control group by its name.
pub open spec fn group_kind(name: Seq<char>) -> GroupKind {
    if has_prefix(name, "pid-"@) {
        GroupKind::PidDirect(parse_u32_spec(name.subrange(4, name.len() as int)))
    } else if has_prefix(name, "run-"@) || has_prefix(name, "gtk-"@) {
        GroupKind::LaunchDerived
    } else {
        GroupKind::Foreign
    }
}

/// Tells the kind of a control group by its name.
pub fn classify(name: &str) -> (r: GroupKind)
    ensures
        r == group_kind(name@),
{
    let chars = chars_of(name);
    let s = chars.as_slice();
    proof {
        reveal_strlit("pid-");
        reveal_strlit("run-");
        reveal_strlit("gtk-");
    }
    if starts_with_str(s, "pid-") {
        GroupKind::PidDirect(parse_u32(slice_subrange(s, 4, s.len())))
    } else if starts_with_str(s, "run-") || starts_with_str(s, "gtk-") {
        GroupKind::LaunchDerived
    } else {
        GroupKind::Foreign
    }
}

// ---------------------------------------------------------------------------
// Paths
// ---------------------------------------------------------------------------

/// The path of the entry `name` in the directory `dir`.
pub open spec fn join(dir: Seq<char>, name: Seq<char>) -> Seq<char> {
    dir + "/"@ + name
}

/// The path of the entry `name` in the directory `dir`.
pub fn join_path(dir: &str, name: &str) -> (r: String)
    ensures
        r@ == join(dir@, name@),
{
    let mut out = chars_of(dir);
    push_str(&mut out, "/");
    push_str(&mut out, name);
    string_of(out.as_slice())
}

// ---------------------------------------------------------------------------
// What is written into the limit files
// ---------------------------------------------------------------------------

/// The length of the scheduling period that CPU quotas refer to, in
/// microseconds.
pub const CPU_PERIOD: u64 = 100000;

/// The run time per period that `percent` of one core amounts to, in
/// microseconds.
pub open spec fn cpu_quota(percent: u32) -> u64 {
    (percent as u64 * CPU_PERIOD / 100) as u64
}

/// What the memory ceiling file holds for `bytes`: the count in decimal.
pub open spec fn memory_max_text(bytes: u64) -> Seq<char> {
    decimal_digits(bytes as nat)
}

/// What the CPU quota file holds for `percent`: quota and period in
/// microseconds, separated by a space.
pub open spec fn cpu_max_text(percent: u32) -> Seq<char> {
    decimal_digits(cpu_quota(percent) as nat) + " "@ + decimal_digits(CPU_PERIOD as nat)
}

/// The line of the I/O limit file for one block device.
pub open spec fn io_line(device: (u32, u32), io: IoLimit) -> Seq<char> {
    decimal_digits(device.0 as nat) + ":"@ + decimal_digits(device.1 as nat) + (match io.read_bps {
        Some(r) => " rbps="@ + decimal_digits(r as nat),
        None => Seq::empty(),
    }) + (match io.write_bps {
        Some(w) => " wbps="@ + decimal_digits(w as nat),
        None => Seq::empty(),
    })
}

/// What the I/O limit file holds: one line per block device, each ended by
/// a line feed.
pub open spec fn io_max_text(devices: Seq<(u32, u32)>, io: IoLimit) -> Seq<char>
    decreases devices.len(),
{
    if devices.len() == 0 {
        Seq::empty()
    } else {
        io_max_text(devices.drop_last(), io) + io_line(devices.last(), io) + "\n"@
    }
}

/// Writes the content of the memory ceiling file.
pub fn memory_max_content(bytes: u64) -> (r: String)
    ensures
        r@ == memory_max_text(bytes),
{
    let digits = decimal_chars(bytes);
    string_of(digits.as_slice())
}

/// Writes the content of the CPU quota file.
pub fn cpu_max_content(percent: u32) -> (r: String)
    ensures
        r@ == cpu_max_text(percent),
{
    let quota: u64 = percent as u64 * CPU_PERIOD / 100;
    let mut out = decimal_chars(quota);
    push_str(&mut out, " ");
    let period = decimal_chars(CPU_PERIOD);
    push_chars(&mut out, period.as_slice());
    string_of(out.as_slice())
}

/// Appends the line for one block device to `out`.
fn push_io_line(out: &mut Vec<char>, device: (u32, u32), io: &IoLimit)
    ensures
        final(out)@ == old(out)@ + io_line(device, *io),
{
    let ghost before = out@;
    let mut line = decimal_chars(device.0 as u64);
    push_str(&mut line, ":");
    let minor = decimal_chars(device.1 as u64);
    push_chars(&mut line, minor.as_slice());
    match io.read_bps {
        Some(r) => {
            push_str(&mut line, " rbps=");
            let digits = decimal_chars(r);
            push_chars(&mut line, digits.as_slice());
            assert(line@ == decimal_digits(device.0 as nat) + ":"@ + decimal_digits(
                device.1 as nat,
            ) + (" rbps="@ + decimal_digits(r as nat)));
        },
        None => {
            assert(line@ == line@ + Seq::<char>::empty());
        },
    }
    let ghost with_read = line@;
    match io.write_bps {
        Some(w) => {
            push_str(&mut line, " wbps=");
            let digits = decimal_chars(w);
            push_chars(&mut line, digits.as_slice());
            assert(line@ == with_read + (" wbps="@ + decimal_digits(w as nat)));
        },
        None => {
            assert(line@ == with_read + Seq::<char>::empty());
        },
    }
    push_chars(out, line.as_slice());
}

/// Writes the content of the I/O limit file.
pub fn io_max_content(devices: &Vec<(u32, u32)>, io: &IoLimit) -> (r: String)
    ensures
        r@ == io_max_text(devices@, *io),
{
    let mut out: Vec<char> = Vec::new();
    let mut i: usize = 0;
    while i < devices.len()
        invariant
            i <= devices@.len(),
            out@ == io_max_text(devices@.subrange(0, i as int), *io),
        decreases devices@.len() - i,
    {
        let ghost before = out@;
        let ghost next = devices@.subrange(0, i + 1);
        assert(next.drop_last() == devices@.subrange(0, i as int));
        push_io_line(&mut out, devices[i], io);
        push_str(&mut out, "\n");
        i += 1;
    }
    assert(devices@.subrange(0, devices@.len() as int) == devices@);
    string_of(out.as_slice())
}

// ---------------------------------------------------------------------------
// Controllers
// ---------------------------------------------------------------------------

/// `name` is one of the words of `available`.
pub open spec fn advertises(available: Seq<char>, name: Seq<char>) -> bool {
    words(available).contains(name)
}

/// The tokens that enable, of the controllers memory, cpu and io and in
/// that order, those that `available` advertises.
pub open spec fn enable_tokens(available: Seq<char>) -> Seq<Seq<char>> {
    (if advertises(available, "memory"@) {
        seq!["+memory"@]
    } else {
        Seq::empty()
    }) + (if advertises(available, "cpu"@) {
        seq!["+cpu"@]
    } else {
        Seq::empty()
    }) + (if advertises(available, "io"@) {
        seq!["+io"@]
    } else {
        Seq::empty()
    })
}

/// Texts joined by single spaces.
pub open spec fn spaced(parts: Seq<Seq<char>>) -> Seq<char>
    decreases parts.len(),
{
    if parts.len() == 0 {
        Seq::empty()
    } else if parts.len() == 1 {
        parts[0]
    } else {
        spaced(parts.drop_last()) + " "@ + parts.last()
    }
}

/// What is written to the subtree-control file to enable the controllers
/// that `available` advertises; nothing if it advertises none of them.
pub open spec fn subtree_control_text(available: Seq<char>) -> Option<Seq<char>> {
    if enable_tokens(available).len() == 0 {
        None
    } else {
        Some(spaced(enable_tokens(available)))
    }
}

/// Whether `name` is among the words `list`.
fn is_listed(list: &Vec<&[char]>, name: &str) -> (r: bool)
    ensures
        r == texts(list@).contains(name@),
{
    let wanted = chars_of(name);
    let mut i: usize = 0;
    while i < list.len()
        invariant
            i <= list@.len(),
            wanted@ == name@,
            forall|k: int| 0 <= k < i ==> texts(list@)[k] != name@,
        decreases list@.len() - i,
    {
        if same_chars(list[i], wanted.as_slice()) {
            assert(texts(list@)[i as int] == name@);
            return true;
        }
        i += 1;
    }
    false
}

/// Decides what to write to the subtree-control file, given the content of
/// the controller list.
pub fn subtree_control_content(available: &str) -> (r: Option<String>)
    ensures
        match r {
            Some(t) => subtree_control_text(available@) == Some(t@),
            None => subtree_control_text(available@).is_none(),
        },
{
    let chars = chars_of(available);
    let list = split_words(chars.as_slice());
    let mut out: Vec<char> = Vec::new();
    let ghost mut parts: Seq<Seq<char>> = Seq::empty();
    if is_listed(&list, "memory") {
        push_str(&mut out, "+memory");
        proof {
            parts = parts.push("+memory"@);
            assert(parts.drop_last() == Seq::<Seq<char>>::empty());
        }
    }
    assert(out@ == spaced(parts));
    if is_listed(&list, "cpu") {
        if out.len() > 0 {
            push_str(&mut out, " ");
        }
        push_str(&mut out, "+cpu");
        proof {
            let before = parts;
            parts = parts.push("+cpu"@);
            assert(parts.drop_last() == before);
            reveal_strlit("+memory");
        }
    }
    assert(out@ == spaced(parts));
    if is_listed(&list, "io") {
        if out.len() > 0 {
            push_str(&mut out, " ");
        }
        push_str(&mut out, "+io");
        proof {
            let before = parts;
            parts = parts.push("+io"@);
            assert(parts.drop_last() == before);
            reveal_strlit("+memory");
            reveal_strlit("+cpu");
        }
    }
    assert(out@ == spaced(parts));
    assert(parts =~= enable_tokens(available@));
    if out.len() == 0 {
        proof {
            reveal_strlit("+memory");
            reveal_strlit("+cpu");
            reveal_strlit("+io");
        }
        None
    } else {
        Some(string_of(out.as_slice()))
    }
}

// ---------------------------------------------------------------------------
// Block devices
// ---------------------------------------------------------------------------

/// A block device that is no physical device, by its name: loop, RAM,
/// device-mapper, network and compressed-RAM devices.
pub open spec fn is_virtual_device(name: Seq<char>) -> bool {
    has_prefix(name, "loop"@) || has_prefix(name, "ram"@) || has_prefix(name, "dm-"@)
        || has_prefix(name, "nbd"@) || has_prefix(name, "zram"@)
}

/// Whether a block device is virtual, by its name.
pub fn virtual_device(name: &str) -> (r: bool)
    ensures
        r == is_virtual_device(name@),
{
    let chars = chars_of(name);
    let s = chars.as_slice();
    starts_with_str(s, "loop") || starts_with_str(s, "ram") || starts_with_str(s, "dm-")
        || starts_with_str(s, "nbd") || starts_with_str(s, "zram")
}

/// The position of the first colon of `s`, or its length.
pub open spec fn colon_position(s: Seq<char>) -> nat {
    crate::text::span(s, |c: char| c == ':')
}

/// The device numbers that a device file holds: major and minor number
/// around the first colon, with white space allowed around the whole.
pub open spec fn device_numbers(content: Seq<char>) -> Option<(u32, u32)> {
    let t = trim(content);
    let k = colon_position(t) as int;
    if k < t.len() {
        match (parse_u32_spec(t.subrange(0, k)), parse_u32_spec(t.subrange(k + 1, t.len() as int))) {
            (Some(major), Some(minor)) => Some((major, minor)),
            _ => None,
        }
    } else {
        None
    }
}

/// Reads the device numbers from the content of a device file.
pub fn parse_device_numbers(content: &str) -> (r: Option<(u32, u32)>)
    ensures
        r == device_numbers(content@),
{
    let chars = chars_of(content);
    let t = trimmed(chars.as_slice());
    let mut k: usize = 0;
    while k < t.len() && t[k] != ':'
        invariant
            k <= t@.len(),
            forall|i: int| 0 <= i < k ==> t@[i] != ':',
        decreases t@.len() - k,
    {
        k += 1;
    }
    proof {
        crate::text::lemma_span(t@, |c: char| c == ':', k as int);
    }
    if k < t.len() {
        let major = parse_u32(slice_subrange(t, 0, k));
        let minor = parse_u32(slice_subrange(t, k + 1, t.len()));
        match (major, minor) {
            (Some(a), Some(b)) => Some((a, b)),
            _ => None,
        }
    } else {
        None
    }
}

// ---------------------------------------------------------------------------
// Membership
// ---------------------------------------------------------------------------

/// The process identifiers that a membership file lists: one per line, lines
/// that hold no number left out.
pub open spec fn member_pids(content: Seq<char>) -> Seq<u32> {
    pids_of_lines(lines(content))
}

/// The process identifiers that a sequence of lines holds.
pub open spec fn pids_of_lines(ls: Seq<Seq<char>>) -> Seq<u32>
    decreases ls.len(),
{
    if ls.len() == 0 {
        Seq::empty()
    } else {
        match parse_u32_spec(trim(ls.last())) {
            Some(pid) => pids_of_lines(ls.drop_last()).push(pid),
            None => pids_of_lines(ls.drop_last()),
        }
    }
}

/// The first process that a membership file names: the number on its first
/// line, if there is a first line and it holds a number.
pub open spec fn first_member(content: Seq<char>) -> Option<u32> {
    if lines(content).len() == 0 {
        None
    } else {
        parse_u32_spec(trim(lines(content)[0]))
    }
}

/// Reads the process identifiers that a membership file lists.
pub fn parse_members(content: &str) -> (r: Vec<u32>)
    ensures
        r@ == member_pids(content@),
{
    let chars = chars_of(content);
    let ls = split_lines(chars.as_slice());
    let mut out: Vec<u32> = Vec::new();
    let mut i: usize = 0;
    while i < ls.len()
        invariant
            i <= ls@.len(),
            texts(ls@) == lines(content@),
            out@ == pids_of_lines(texts(ls@).subrange(0, i as int)),
        decreases ls@.len() - i,
    {
        let ghost next = texts(ls@).subrange(0, i + 1);
        assert(next.drop_last() == texts(ls@).subrange(0, i as int));
        assert(next.last() == ls@[i as int]@);
        match parse_u32(trimmed(ls[i])) {
            Some(pid) => {
                out.push(pid);
            },
            None => {},
        }
        i += 1;
    }
    assert(texts(ls@).subrange(0, ls@.len() as int) == texts(ls@));
    out
}

/// Reads the first process that a membership file names.
pub fn read_first_pid(content: &str) -> (r: Option<u32>)
    ensures
        r == first_member(content@),
{
    let chars = chars_of(content);
    let ls = split_lines(chars.as_slice());
    if ls.len() == 0 {
        None
    } else {
        assert(texts(ls@)[0] == ls@[0]@);
        parse_u32(trimmed(ls[0]))
    }
}

/// Whether `pid` is among `pids`.
pub fn lists_pid(pids: &Vec<u32>, pid: u32) -> (r: bool)
    ensures
        r == pids@.contains(pid),
{
    let mut i: usize = 0;
    while i < pids.len()
        invariant
            i <= pids@.len(),
            forall|k: int| 0 <= k < i ==> pids@[k] != pid,
        decreases pids@.len() - i,
    {
        if pids[i] == pid {
            return true;
        }
        i += 1;
    }
    false
}

/// What a membership file holds for the members `pids`: one identifier on
/// each line.
pub open spec fn membership_text(pids: Seq<u32>) -> Seq<char>
    decreases pids.len(),
{
    if pids.len() == 0 {
        Seq::empty()
    } else {
        membership_text(pids.drop_last()) + decimal_digits(pids.last() as nat) + seq!['\n']
    }
}

/// A membership file tells its members, in order: what is read from it is
/// what the kernel listed.
pub proof fn lemma_membership_reads_back(pids: Seq<u32>)
    ensures
        member_pids(membership_text(pids)) == pids,
        pids.len() > 0 ==> first_member(membership_text(pids)) == Some(pids[0]),
        pids.len() == 0 ==> first_member(membership_text(pids)).is_none(),
{
    lemma_membership_lines(pids);
    lemma_pids_of_numerals(lines(membership_text(pids)), pids);
    if pids.len() > 0 {
        let d = decimal_digits(pids[0] as nat);
        crate::text::lemma_decimal_roundtrip(pids[0] as nat);
        assert(crate::text::is_digit(d[0]) && crate::text::is_digit(d.last()));
        crate::text::lemma_trim_fixed(d);
    }
}

/// The lines of a membership file are the numerals of its members.
proof fn lemma_membership_lines(pids: Seq<u32>)
    ensures
        lines(membership_text(pids)).len() == pids.len(),
        forall|k: int|
            0 <= k < pids.len() ==> (#[trigger] lines(membership_text(pids))[k]) == decimal_digits(
                pids[k] as nat,
            ),
        pids.len() > 0 ==> membership_text(pids).len() > 0 && membership_text(pids).last()
            == '\n',
        pids.len() == 0 ==> membership_text(pids).len() == 0,
    decreases pids.len(),
{
    if pids.len() > 0 {
        let front = pids.drop_last();
        lemma_membership_lines(front);
        let d = decimal_digits(pids.last() as nat);
        crate::text::lemma_decimal_roundtrip(pids.last() as nat);
        assert forall|i: int| 0 <= i < d.len() implies !crate::text::is_line_feed(
            #[trigger] d[i],
        ) by {
            assert(crate::text::is_digit(d[i]));
        }
        assert(crate::text::is_digit(d.last()));
        crate::text::lemma_lines_with_one_more(membership_text(front), d);
        assert forall|k: int| 0 <= k < pids.len() implies (#[trigger] lines(
            membership_text(pids),
        )[k]) == decimal_digits(pids[k] as nat) by {
            if k < front.len() {
                assert(lines(membership_text(front))[k] == decimal_digits(front[k] as nat));
            }
        }
    }
}

/// Lines that are the numerals of process identifiers tell those
/// identifiers.
proof fn lemma_pids_of_numerals(ls: Seq<Seq<char>>, pids: Seq<u32>)
    requires
        ls.len() == pids.len(),
        forall|k: int| 0 <= k < ls.len() ==> (#[trigger] ls[k]) == decimal_digits(pids[k] as nat),
    ensures
        pids_of_lines(ls) == pids,
    decreases ls.len(),
{
    if ls.len() > 0 {
        lemma_pids_of_numerals(ls.drop_last(), pids.drop_last());
        let d = ls.last();
        assert(d == decimal_digits(pids[ls.len() - 1] as nat));
        crate::text::lemma_decimal_roundtrip(pids.last() as nat);
        assert(crate::text::is_digit(d[0]) && crate::text::is_digit(d.last()));
        crate::text::lemma_trim_fixed(d);
        assert(pids.drop_last().push(pids.last()) =~= pids);
    } else {
        assert(pids =~= Seq::<u32>::empty());
    }
}

} // verus!
