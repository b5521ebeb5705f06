//! Named profiles: limits written down as strings, to be turned into a
//! limit when they are used.

use crate::error::{Error, ErrorView};
use crate::host::string_views;
use crate::limit::{parse_cpu, parse_memory, CpuLimit, IoLimit, Limit, LimitView, MemoryLimit};
use crate::text::{chars_of, push_str, same_text, string_of};
use crate::util::io_part;
use vstd::prelude::*;

verus! {

/// The largest configuration file that is read, in bytes.
pub const MAX_CONFIG_SIZE: u64 = 1_048_576;

/// A set of limits under a name, each written as an operator would type it.
#[derive(Debug)]
pub struct Profile {
    /// The executables that this profile is meant for.
    pub match_exe: Vec<String>,
    /// Memory ceiling, such as `2G`.
    pub memory: Option<String>,
    /// CPU ceiling, such as `50%`.
    pub cpu: Option<String>,
    /// Read bandwidth ceiling, such as `100M`.
    pub io_read: Option<String>,
    /// Write bandwidth ceiling, such as `50M`.
    pub io_write: Option<String>,
}

/// The mathematical content of a [`Profile`].
pub struct ProfileView {
    pub match_exe: Seq<Seq<char>>,
    pub memory: Option<Seq<char>>,
    pub cpu: Option<Seq<char>>,
    pub io_read: Option<Seq<char>>,
    pub io_write: Option<Seq<char>>,
}

/// The text of an optional string.
pub open spec fn opt_text(s: Option<String>) -> Option<Seq<char>> {
    match s {
        Some(t) => Some(t@),
        None => None,
    }
}

impl DeepView for Profile {
    type V = ProfileView;

    open spec fn deep_view(&self) -> ProfileView {
        ProfileView {
            match_exe: string_views(self.match_exe@),
            memory: opt_text(self.memory),
            cpu: opt_text(self.cpu),
            io_read: opt_text(self.io_read),
            io_write: opt_text(self.io_write),
        }
    }
}

/// A copy of an optional string.
fn copy_opt(s: &Option<String>) -> (r: Option<String>)
    ensures
        opt_text(r) == opt_text(*s),
{
    match s {
        Some(t) => Some(t.clone()),
        None => None,
    }
}

/// A copy of a list of strings.
fn copy_strings(v: &Vec<String>) -> (r: Vec<String>)
    ensures
        string_views(r@) == string_views(v@),
{
    let mut out: Vec<String> = Vec::new();
    let mut i: usize = 0;
    while i < v.len()
        invariant
            i <= v@.len(),
            out@.len() == i,
            forall|k: int| 0 <= k < i ==> (#[trigger] out@[k])@ == v@[k]@,
        decreases v@.len() - i,
    {
        out.push(v[i].clone());
        i += 1;
    }
    assert(string_views(out@) =~= string_views(v@));
    out
}

impl Clone for Profile {
    fn clone(&self) -> (r: Self)
        ensures
            r.deep_view() == self.deep_view(),
    {
        Profile {
            match_exe: copy_strings(&self.match_exe),
            memory: copy_opt(&self.memory),
            cpu: copy_opt(&self.cpu),
            io_read: copy_opt(&self.io_read),
            io_write: copy_opt(&self.io_write),
        }
    }
}

impl Default for Profile {
    fn default() -> (r: Self)
        ensures
            r.deep_view() == (ProfileView {
                match_exe: Seq::empty(),
                memory: None,
                cpu: None,
                io_read: None,
                io_write: None,
            }),
    {
        let r = Profile {
            match_exe: Vec::new(),
            memory: None,
            cpu: None,
            io_read: None,
            io_write: None,
        };
        assert(string_views(r.match_exe@) =~= Seq::<Seq<char>>::empty());
        r
    }
}

/// What a present memory or bandwidth string means.
pub open spec fn present_memory(s: Option<Seq<char>>) -> Result<Option<u64>, ErrorView> {
    match s {
        Some(t) => match parse_memory(t) {
            Ok(v) => Ok(Some(v)),
            Err(text) => Err(ErrorView::InvalidMemory(text)),
        },
        None => Ok(None),
    }
}

/// What a present CPU string means.
pub open spec fn present_cpu(s: Option<Seq<char>>) -> Result<Option<u32>, ErrorView> {
    match s {
        Some(t) => match parse_cpu(t) {
            Ok(v) => Ok(Some(v)),
            Err(text) => Err(ErrorView::InvalidCpu(text)),
        },
        None => Ok(None),
    }
}

/// The limit that a profile describes.
///
/// Every string that is present is read, the empty string too; they are
/// read in the order read bandwidth, write bandwidth, memory, CPU, and the
/// first that is malformed decides the error.
pub open spec fn to_limit_spec(p: ProfileView) -> Result<LimitView, ErrorView> {
    match present_memory(p.io_read) {
        Err(e) => Err(e),
        Ok(r) => match present_memory(p.io_write) {
            Err(e) => Err(e),
            Ok(w) => match present_memory(p.memory) {
                Err(e) => Err(e),
                Ok(m) => match present_cpu(p.cpu) {
                    Err(e) => Err(e),
                    Ok(c) => Ok(LimitView { memory: m, cpu: c, io: io_part(r, w) }),
                },
            },
        },
    }
}

/// Reads a bandwidth string that may be absent.
fn read_bps(s: &Option<String>) -> (r: Result<Option<u64>, Error>)
    ensures
        match r {
            Ok(v) => present_memory(opt_text(*s)) == Ok::<Option<u64>, ErrorView>(v),
            Err(e) => present_memory(opt_text(*s)) == Err::<Option<u64>, ErrorView>(e@),
        },
{
    match s {
        Some(t) => match IoLimit::parse_bps(t.as_str()) {
            Ok(v) => Ok(Some(v)),
            Err(e) => Err(e),
        },
        None => Ok(None),
    }
}

impl Profile {
    /// Turns the profile into a limit.
    pub fn to_limit(&self) -> (r: Result<Limit, Error>)
        ensures
            match r {
                Ok(limit) => to_limit_spec(self.deep_view()) == Ok::<LimitView, ErrorView>(limit@),
                Err(e) => to_limit_spec(self.deep_view()) == Err::<LimitView, ErrorView>(e@),
            },
    {
        let read = match read_bps(&self.io_read) {
            Ok(v) => v,
            Err(e) => {
                return Err(e);
            },
        };
        let write = match read_bps(&self.io_write) {
            Ok(v) => v,
            Err(e) => {
                return Err(e);
            },
        };
        let io = if read.is_some() || write.is_some() {
            Some(IoLimit { read_bps: read, write_bps: write })
        } else {
            None
        };
        let memory = match &self.memory {
            Some(t) => match MemoryLimit::parse(t.as_str()) {
                Ok(m) => Some(m),
                Err(e) => {
                    return Err(e);
                },
            },
            None => None,
        };
        let cpu = match &self.cpu {
            Some(t) => match CpuLimit::parse(t.as_str()) {
                Ok(c) => Some(c),
                Err(e) => {
                    return Err(e);
                },
            },
            None => None,
        };
        Ok(Limit { memory, cpu, io })
    }

    /// Whether the profile is meant for the executable `exe`.
    pub fn matches_exe(&self, exe: &str) -> (r: bool)
        ensures
            r == self.deep_view().match_exe.contains(exe@),
    {
        let mut i: usize = 0;
        while i < self.match_exe.len()
            invariant
                i <= self.match_exe@.len(),
                forall|k: int| 0 <= k < i ==> string_views(self.match_exe@)[k] != exe@,
            decreases self.match_exe@.len() - i,
        {
            if same_text(self.match_exe[i].as_str(), exe) {
                assert(string_views(self.match_exe@)[i as int] == exe@);
                return true;
            }
            i += 1;
        }
        false
    }
}

/// A profile under its name.
#[derive(Debug)]
pub struct NamedProfile {
    pub name: String,
    pub profile: Profile,
}

impl DeepView for NamedProfile {
    type V = (Seq<char>, ProfileView);

    open spec fn deep_view(&self) -> (Seq<char>, ProfileView) {
        (self.name@, self.profile.deep_view())
    }
}

/// The profile that `entries` holds under `name`: the first of that name.
pub open spec fn lookup(entries: Seq<(Seq<char>, ProfileView)>, name: Seq<char>) -> Option<
    ProfileView,
>
    decreases entries.len(),
{
    if entries.len() == 0 {
        None
    } else if entries[0].0 == name {
        Some(entries[0].1)
    } else {
        lookup(entries.drop_first(), name)
    }
}

/// No name occurs twice in `entries`.
pub open spec fn unique_names(entries: Seq<(Seq<char>, ProfileView)>) -> bool {
    forall|i: int, j: int|
        0 <= i < j < entries.len() ==> (#[trigger] entries[i]).0 != (#[trigger] entries[j]).0
}

/// `entries` with `profile` under `name`: in the place of the profile of
/// that name if there is one, at the end otherwise.
pub open spec fn with_entry(
    entries: Seq<(Seq<char>, ProfileView)>,
    name: Seq<char>,
    profile: ProfileView,
) -> Seq<(Seq<char>, ProfileView)>
    decreases entries.len(),
{
    if entries.len() == 0 {
        seq![(name, profile)]
    } else if entries[0].0 == name {
        seq![(name, profile)] + entries.drop_first()
    } else {
        seq![entries[0]] + with_entry(entries.drop_first(), name, profile)
    }
}

/// `base` with every entry of `over` put in, in order.
pub open spec fn overlaid(
    base: Seq<(Seq<char>, ProfileView)>,
    over: Seq<(Seq<char>, ProfileView)>,
) -> Seq<(Seq<char>, ProfileView)>
    decreases over.len(),
{
    if over.len() == 0 {
        base
    } else {
        with_entry(overlaid(base, over.drop_last()), over.last().0, over.last().1)
    }
}

/// `base` with the layers `layers` laid over it, one after the other.
pub open spec fn layered(
    base: Seq<(Seq<char>, ProfileView)>,
    layers: Seq<Seq<(Seq<char>, ProfileView)>>,
) -> Seq<(Seq<char>, ProfileView)>
    decreases layers.len(),
{
    if layers.len() == 0 {
        base
    } else {
        layered(overlaid(base, layers[0]), layers.drop_first())
    }
}

/// Putting a profile under a name keeps names apart, makes the profile the
/// one found under the name, and leaves what is found under other names.
pub proof fn lemma_with_entry(
    entries: Seq<(Seq<char>, ProfileView)>,
    name: Seq<char>,
    profile: ProfileView,
    other: Seq<char>,
)
    ensures
        lookup(with_entry(entries, name, profile), name) == Some(profile),
        other != name ==> lookup(with_entry(entries, name, profile), other) == lookup(
            entries,
            other,
        ),
        with_entry(entries, name, profile).len() >= entries.len(),
        forall|k: int|
            0 <= k < with_entry(entries, name, profile).len() ==> (#[trigger] with_entry(
                entries,
                name,
                profile,
            )[k]).0 == name || exists|m: int|
                0 <= m < entries.len() && entries[m].0 == with_entry(entries, name, profile)[k].0,
        unique_names(entries) ==> unique_names(with_entry(entries, name, profile)),
    decreases entries.len(),
{
    let out = with_entry(entries, name, profile);
    if entries.len() == 0 {
        assert(out.drop_first() =~= Seq::<(Seq<char>, ProfileView)>::empty());
        assert(out[0] == (name, profile));
        assert(lookup(out.drop_first(), other).is_none());
    } else if entries[0].0 == name {
        assert(out.drop_first() =~= entries.drop_first());
        assert(out[0] == (name, profile));
        if other != name {
            assert(lookup(out, other) == lookup(out.drop_first(), other));
            assert(lookup(entries, other) == lookup(entries.drop_first(), other));
        }
        assert forall|k: int| 0 <= k < out.len() implies (#[trigger] out[k]).0 == name
            || exists|m: int| 0 <= m < entries.len() && entries[m].0 == out[k].0 by {
            if k > 0 {
                assert(out[k] == entries[k]);
            }
        }
        if unique_names(entries) {
            assert forall|i: int, j: int| 0 <= i < j < out.len() implies (#[trigger] out[i]).0
                != (#[trigger] out[j]).0 by {
                assert(out[j] == entries[j]);
                if i > 0 {
                    assert(out[i] == entries[i]);
                } else {
                    assert(entries[0].0 != entries[j].0);
                }
            }
        }
    } else {
        let rest = entries.drop_first();
        lemma_with_entry(rest, name, profile, other);
        let tail = with_entry(rest, name, profile);
        assert(out.drop_first() =~= tail);
        assert(out[0] == entries[0]);
        assert(lookup(out, name) == lookup(tail, name));
        if other != name {
            if entries[0].0 == other {
                assert(lookup(out, other) == Some(entries[0].1));
            } else {
                assert(lookup(out, other) == lookup(tail, other));
                assert(lookup(entries, other) == lookup(rest, other));
            }
        }
        assert forall|k: int| 0 <= k < out.len() implies (#[trigger] out[k]).0 == name
            || exists|m: int| 0 <= m < entries.len() && entries[m].0 == out[k].0 by {
            if k > 0 {
                assert(out[k] == tail[k - 1]);
                if tail[k - 1].0 != name {
                    let m = choose|m: int| 0 <= m < rest.len() && rest[m].0 == tail[k - 1].0;
                    assert(entries[m + 1] == rest[m]);
                }
            }
        }
        if unique_names(entries) {
            assert forall|i: int, j: int| 0 <= i < j < rest.len() implies (#[trigger] rest[i]).0
                != (#[trigger] rest[j]).0 by {
                assert(rest[i] == entries[i + 1] && rest[j] == entries[j + 1]);
            }
            assert forall|i: int, j: int| 0 <= i < j < out.len() implies (#[trigger] out[i]).0
                != (#[trigger] out[j]).0 by {
                assert(out[j] == tail[j - 1]);
                if i > 0 {
                    assert(out[i] == tail[i - 1]);
                } else if tail[j - 1].0 != name {
                    let m = choose|m: int| 0 <= m < rest.len() && rest[m].0 == tail[j - 1].0;
                    assert(entries[m + 1] == rest[m]);
                }
            }
        }
    }
}

/// The contents of a list of named profiles.
pub open spec fn entries_view(v: Seq<NamedProfile>) -> Seq<(Seq<char>, ProfileView)> {
    Seq::new(v.len(), |i: int| v[i].deep_view())
}

/// Looks a profile up by name.
fn find_entry(entries: &Vec<NamedProfile>, name: &str) -> (r: Option<usize>)
    ensures
        match r {
            Some(i) => i < entries@.len() && entries@[i as int].name@ == name@ && lookup(
                entries_view(entries@),
                name@,
            ) == Some(entries@[i as int].profile.deep_view()) && forall|k: int|
                0 <= k < i ==> (#[trigger] entries@[k]).name@ != name@,
            None => lookup(entries_view(entries@), name@).is_none() && forall|k: int|
                0 <= k < entries@.len() ==> (#[trigger] entries@[k]).name@ != name@,
        },
{
    let ghost all = entries_view(entries@);
    let mut i: usize = 0;
    assert(all.subrange(0, all.len() as int) == all);
    while i < entries.len()
        invariant
            i <= entries@.len(),
            all == entries_view(entries@),
            lookup(all, name@) == lookup(all.subrange(i as int, all.len() as int), name@),
            forall|k: int| 0 <= k < i ==> (#[trigger] entries@[k]).name@ != name@,
        decreases entries@.len() - i,
    {
        let ghost rest = all.subrange(i as int, all.len() as int);
        assert(rest[0] == entries@[i as int].deep_view());
        if same_text(entries[i].name.as_str(), name) {
            return Some(i);
        }
        assert(rest.drop_first() == all.subrange(i + 1, all.len() as int));
        i += 1;
    }
    None
}

/// Puts `profile` under `name` into `entries`.
fn put_entry(entries: &mut Vec<NamedProfile>, name: String, profile: Profile)
    ensures
        entries_view(final(entries)@) == with_entry(
            entries_view(old(entries)@),
            name@,
            profile.deep_view(),
        ),
{
    let ghost before = entries_view(entries@);
    let ghost pv = profile.deep_view();
    match find_entry(entries, name.as_str()) {
        Some(i) => {
            proof {
                lemma_with_entry_at(before, name@, pv, i as int);
            }
            entries[i] = NamedProfile { name, profile };
            assert(entries_view(entries@) =~= before.update(i as int, (name@, pv)));
        },
        None => {
            proof {
                lemma_with_entry_new(before, name@, pv);
            }
            entries.push(NamedProfile { name, profile });
            assert(entries_view(entries@) =~= before.push((name@, pv)));
        },
    }
}

/// Putting a profile under a name that stands first at `i` replaces the
/// entry at `i`.
proof fn lemma_with_entry_at(
    entries: Seq<(Seq<char>, ProfileView)>,
    name: Seq<char>,
    profile: ProfileView,
    i: int,
)
    requires
        0 <= i < entries.len(),
        entries[i].0 == name,
        forall|k: int| 0 <= k < i ==> (#[trigger] entries[k]).0 != name,
    ensures
        with_entry(entries, name, profile) == entries.update(i, (name, profile)),
    decreases i,
{
    if i == 0 {
        assert(seq![(name, profile)] + entries.drop_first() =~= entries.update(
            0,
            (name, profile),
        ));
    } else {
        assert(entries[0].0 != name);
        let rest = entries.drop_first();
        assert forall|k: int| 0 <= k < i - 1 implies (#[trigger] rest[k]).0 != name by {
            assert(rest[k] == entries[k + 1]);
        }
        lemma_with_entry_at(rest, name, profile, i - 1);
        assert(seq![entries[0]] + rest.update(i - 1, (name, profile)) =~= entries.update(
            i,
            (name, profile),
        ));
    }
}

/// Putting a profile under a name that does not occur appends it.
proof fn lemma_with_entry_new(
    entries: Seq<(Seq<char>, ProfileView)>,
    name: Seq<char>,
    profile: ProfileView,
)
    requires
        forall|k: int| 0 <= k < entries.len() ==> (#[trigger] entries[k]).0 != name,
    ensures
        with_entry(entries, name, profile) == entries.push((name, profile)),
    decreases entries.len(),
{
    if entries.len() == 0 {
        assert(seq![(name, profile)] =~= entries.push((name, profile)));
    } else {
        assert(entries[0].0 != name);
        let rest = entries.drop_first();
        assert forall|k: int| 0 <= k < rest.len() implies (#[trigger] rest[k]).0 != name by {
            assert(rest[k] == entries[k + 1]);
        }
        lemma_with_entry_new(rest, name, profile);
        assert(seq![entries[0]] + rest.push((name, profile)) =~= entries.push((name, profile)));
    }
}

/// The profiles that are always there, as text.
pub open spec fn presets() -> Seq<(Seq<char>, ProfileView)> {
    seq![
        (
            "Light"@,
            ProfileView {
                match_exe: Seq::empty(),
                memory: Some("512M"@),
                cpu: Some("25%"@),
                io_read: None,
                io_write: None,
            },
        ),
        (
            "Medium"@,
            ProfileView {
                match_exe: Seq::empty(),
                memory: Some("2G"@),
                cpu: Some("50%"@),
                io_read: Some("50M"@),
                io_write: Some("25M"@),
            },
        ),
        (
            "Heavy"@,
            ProfileView {
                match_exe: Seq::empty(),
                memory: Some("4G"@),
                cpu: Some("100%"@),
                io_read: Some("100M"@),
                io_write: Some("50M"@),
            },
        ),
        (
            "Browser"@,
            ProfileView {
                match_exe: seq!["firefox"@, "chrome"@, "chromium"@],
                memory: Some("4G"@),
                cpu: Some("75%"@),
                io_read: None,
                io_write: None,
            },
        ),
    ]
}

/// Builds a profile from literal strings.
fn preset(
    name: &str,
    memory: &str,
    cpu: &str,
    io_read: Option<&str>,
    io_write: Option<&str>,
    match_exe: Vec<String>,
) -> (r: NamedProfile)
    ensures
        r.deep_view() == (
            name@,
            ProfileView {
                match_exe: string_views(match_exe@),
                memory: Some(memory@),
                cpu: Some(cpu@),
                io_read: match io_read {
                    Some(t) => Some(t@),
                    None => None,
                },
                io_write: match io_write {
                    Some(t) => Some(t@),
                    None => None,
                },
            },
        ),
{
    NamedProfile {
        name: name.to_string(),
        profile: Profile {
            match_exe,
            memory: Some(memory.to_string()),
            cpu: Some(cpu.to_string()),
            io_read: match io_read {
                Some(t) => Some(t.to_string()),
                None => None,
            },
            io_write: match io_write {
                Some(t) => Some(t.to_string()),
                None => None,
            },
        },
    }
}

/// The profiles that are always there: Light, Medium, Heavy and Browser.
pub fn builtin_presets() -> (r: Vec<NamedProfile>)
    ensures
        entries_view(r@) == presets(),
{
    let mut out: Vec<NamedProfile> = Vec::new();
    let none: Vec<String> = Vec::new();
    assert(string_views(none@) =~= Seq::<Seq<char>>::empty());
    out.push(preset("Light", "512M", "25%", None, None, none));
    let none: Vec<String> = Vec::new();
    assert(string_views(none@) =~= Seq::<Seq<char>>::empty());
    out.push(preset("Medium", "2G", "50%", Some("50M"), Some("25M"), none));
    let none: Vec<String> = Vec::new();
    assert(string_views(none@) =~= Seq::<Seq<char>>::empty());
    out.push(preset("Heavy", "4G", "100%", Some("100M"), Some("50M"), none));
    let mut browsers: Vec<String> = Vec::new();
    browsers.push("firefox".to_string());
    browsers.push("chrome".to_string());
    browsers.push("chromium".to_string());
    assert(string_views(browsers@) =~= seq!["firefox"@, "chrome"@, "chromium"@]);
    out.push(preset("Browser", "4G", "75%", None, None, browsers));
    assert(entries_view(out@) =~= presets());
    out
}

/// The profiles of a user, by name. No name occurs twice.
#[derive(Debug)]
pub struct Config {
    profiles: Vec<NamedProfile>,
}

impl DeepView for Config {
    type V = Seq<(Seq<char>, ProfileView)>;

    /// The profiles with their names, in the order in which they came.
    closed spec fn deep_view(&self) -> Seq<(Seq<char>, ProfileView)> {
        entries_view(self.profiles@)
    }
}

impl Default for Config {
    fn default() -> (r: Self)
        ensures
            r.deep_view() == Seq::<(Seq<char>, ProfileView)>::empty(),
    {
        let r = Config { profiles: Vec::new() };
        assert(entries_view(r.profiles@) =~= Seq::<(Seq<char>, ProfileView)>::empty());
        r
    }
}

/// The first profile of `entries` that is meant for `exe`.
pub open spec fn first_for_exe(entries: Seq<(Seq<char>, ProfileView)>, exe: Seq<char>) -> Option<
    ProfileView,
>
    decreases entries.len(),
{
    if entries.len() == 0 {
        None
    } else if entries[0].1.match_exe.contains(exe) {
        Some(entries[0].1)
    } else {
        first_for_exe(entries.drop_first(), exe)
    }
}

/// The error for a configuration file that is too large.
pub open spec fn too_large(path: Seq<char>) -> ErrorView {
    ErrorView::Config("config file "@ + path + " exceeds maximum size of 1MB"@)
}

/// Whether a file of this name in a profile directory holds profiles: its
/// name ends in `.yaml` or `.yml`.
pub open spec fn is_profile_file(name: Seq<char>) -> bool {
    has_suffix(name, ".yaml"@) || has_suffix(name, ".yml"@)
}

/// `s` ends with `tail`.
pub open spec fn has_suffix(s: Seq<char>, tail: Seq<char>) -> bool {
    tail.len() <= s.len() && s.subrange(s.len() - tail.len(), s.len() as int) == tail
}

/// Whether `s` ends with `tail`.
fn ends_with(s: &[char], tail: &str) -> (r: bool)
    ensures
        r == has_suffix(s@, tail@),
{
    let t = chars_of(tail);
    if t.len() > s.len() {
        return false;
    }
    crate::text::same_chars(
        vstd::slice::slice_subrange(s, s.len() - t.len(), s.len()),
        t.as_slice(),
    )
}

/// Whether a file of this name in a profile directory holds profiles.
pub fn profile_file(name: &str) -> (r: bool)
    ensures
        r == is_profile_file(name@),
{
    let chars = chars_of(name);
    ends_with(chars.as_slice(), ".yaml") || ends_with(chars.as_slice(), ".yml")
}

/// Checks the size of a configuration file before it is read.
pub fn check_config_size(path: &str, size: u64) -> (r: Result<(), Error>)
    ensures
        match r {
            Ok(_) => size <= MAX_CONFIG_SIZE,
            Err(e) => size > MAX_CONFIG_SIZE && e@ == too_large(path@),
        },
{
    if size > MAX_CONFIG_SIZE {
        let mut out = chars_of("config file ");
        push_str(&mut out, path);
        push_str(&mut out, " exceeds maximum size of 1MB");
        Err(Error::Config(string_of(out.as_slice())))
    } else {
        Ok(())
    }
}

/// Where the configuration of the user lies, given the directory for
/// configuration: in `rlm/config.yaml` below it.
pub open spec fn config_path_in(dir: Option<Seq<char>>) -> Option<Seq<char>> {
    match dir {
        Some(d) => Some(d + "/rlm/config.yaml"@),
        None => None,
    }
}

/// `dirs::config_dir`: the directory that the platform and the environment
/// of this process name for configuration, if they name one that is valid
/// text. Nothing is claimed about it: it is whatever the environment says.
#[verifier::external_body]
fn config_dir() -> (r: Option<String>) {
    dirs::config_dir().and_then(|p| p.to_str().map(String::from))
}

/// Where the configuration of the user lies below `dir`.
pub fn user_config_path_in(dir: Option<String>) -> (r: Option<String>)
    ensures
        opt_text(r) == config_path_in(opt_text(dir)),
{
    match dir {
        Some(d) => {
            let mut out = chars_of(d.as_str());
            push_str(&mut out, "/rlm/config.yaml");
            Some(string_of(out.as_slice()))
        },
        None => None,
    }
}

/// Where the configuration of the user lies, as the environment of this
/// process has it: `rlm/config.yaml` in some directory, or nowhere.
pub fn user_config_path() -> (r: Option<String>)
    ensures
        match r {
            Some(path) => exists|dir: Seq<char>| path@ == dir + "/rlm/config.yaml"@,
            None => true,
        },
{
    let dir = config_dir();
    let ghost d = opt_text(dir);
    let r = user_config_path_in(dir);
    proof {
        if r.is_some() {
            assert(r.unwrap()@ == d.unwrap() + "/rlm/config.yaml"@);
        }
    }
    r
}

impl Config {
    /// The invariant of a configuration: no name occurs twice.
    pub open spec fn wf(&self) -> bool {
        unique_names(self.deep_view())
    }

    /// The profiles with their names, in the order in which they came.
    pub fn profiles(&self) -> (r: &Vec<NamedProfile>)
        ensures
            entries_view(r@) == self.deep_view(),
    {
        &self.profiles
    }

    /// Whether the configuration holds no profile.
    pub fn is_empty(&self) -> (r: bool)
        ensures
            r == (self.deep_view().len() == 0),
    {
        self.profiles.len() == 0
    }

    /// Whether the configuration holds a profile of this name.
    pub fn contains(&self, name: &str) -> (r: bool)
        ensures
            r == lookup(self.deep_view(), name@).is_some(),
    {
        find_entry(&self.profiles, name).is_some()
    }

    /// Puts `profile` under `name`, in the place of the profile of that
    /// name if there is one.
    pub fn insert(&mut self, name: String, profile: Profile)
        requires
            old(self).wf(),
        ensures
            final(self).wf(),
            final(self).deep_view() == with_entry(
                old(self).deep_view(),
                name@,
                profile.deep_view(),
            ),
    {
        proof {
            lemma_with_entry(self.deep_view(), name@, profile.deep_view(), name@);
        }
        put_entry(&mut self.profiles, name, profile);
    }

    /// Takes in the profiles of `other`; where both hold a profile of one
    /// name, that of `other` stays.
    pub fn merge_from(&mut self, other: Config)
        requires
            old(self).wf(),
        ensures
            final(self).wf(),
            final(self).deep_view() == overlaid(old(self).deep_view(), other.deep_view()),
    {
        let ghost over = other.deep_view();
        let mut rest = other.profiles;
        let mut reversed: Vec<NamedProfile> = Vec::new();
        while rest.len() > 0
            invariant
                rest@.len() + reversed@.len() == over.len(),
                entries_view(rest@) == over.subrange(0, rest@.len() as int),
                forall|k: int|
                    0 <= k < reversed@.len() ==> (#[trigger] reversed@[k]).deep_view()
                        == over[over.len() - 1 - k],
            decreases rest@.len(),
        {
            let ghost before = entries_view(rest@);
            let ghost top = rest@[rest@.len() - 1].deep_view();
            assert(before[before.len() - 1] == top);
            let item = rest.pop().unwrap();
            assert(entries_view(rest@) =~= before.drop_last());
            assert(before.drop_last() =~= over.subrange(0, rest@.len() as int));
            assert(item.deep_view() == over[rest@.len() as int]);
            reversed.push(item);
        }
        let ghost start = self.deep_view();
        let ghost mut done: int = 0;
        assert(over.subrange(0, 0) =~= Seq::<(Seq<char>, ProfileView)>::empty());
        while reversed.len() > 0
            invariant
                0 <= done <= over.len(),
                reversed@.len() == over.len() - done,
                forall|k: int|
                    0 <= k < reversed@.len() ==> (#[trigger] reversed@[k]).deep_view()
                        == over[over.len() - 1 - k],
                self.wf(),
                self.deep_view() == overlaid(start, over.subrange(0, done)),
            decreases reversed@.len(),
        {
            let ghost top = reversed@[reversed@.len() - 1].deep_view();
            let item = reversed.pop().unwrap();
            let NamedProfile { name, profile } = item;
            self.insert(name, profile);
            proof {
                assert(top == over[done]);
                assert(over.subrange(0, done + 1).drop_last() == over.subrange(0, done));
                done = done + 1;
            }
        }
        assert(over.subrange(0, over.len() as int) == over);
    }

    /// The configuration that layers of configuration amount to: each layer
    /// overrides the ones before it, name by name.
    pub fn load(layers: Vec<Config>) -> (r: Config)
        ensures
            r.wf(),
            r.deep_view() == layered(Seq::empty(), layers.deep_view()),
    {
        let mut out = Config::default();
        let mut rest = layers;
        let ghost all = layers.deep_view();
        assert(unique_names(out.deep_view()));
        while rest.len() > 0
            invariant
                out.wf(),
                layered(out.deep_view(), rest.deep_view()) == layered(Seq::empty(), all),
            decreases rest@.len(),
        {
            let ghost before = rest.deep_view();
            let ghost first = rest@[0].deep_view();
            assert(before[0] == first);
            let layer = rest.remove(0);
            assert(rest.deep_view() =~= before.drop_first());
            out.merge_from(layer);
        }
        assert(rest.deep_view().len() == 0);
        out
    }

    /// The profile of this name: the user's if there is one, else the
    /// preset of that name.
    pub fn get_profile(&self, name: &str) -> (r: Option<Profile>)
        ensures
            match r {
                Some(p) => Some(p.deep_view()) == (match lookup(self.deep_view(), name@) {
                    Some(own) => Some(own),
                    None => lookup(presets(), name@),
                }),
                None => lookup(self.deep_view(), name@).is_none() && lookup(presets(), name@).is_none(),
            },
    {
        match find_entry(&self.profiles, name) {
            Some(i) => Some(self.profiles[i].profile.clone()),
            None => {
                let builtin = builtin_presets();
                match find_entry(&builtin, name) {
                    Some(i) => Some(builtin[i].profile.clone()),
                    None => None,
                }
            },
        }
    }

    /// All profiles: the presets, overridden by the user's profiles name by
    /// name.
    pub fn all_profiles(&self) -> (r: Vec<NamedProfile>)
        ensures
            entries_view(r@) == overlaid(presets(), self.deep_view()),
    {
        let mut all = builtin_presets();
        let ghost own = self.deep_view();
        let mut i: usize = 0;
        assert(own.subrange(0, 0) =~= Seq::<(Seq<char>, ProfileView)>::empty());
        while i < self.profiles.len()
            invariant
                i <= self.profiles@.len(),
                own == entries_view(self.profiles@),
                entries_view(all@) == overlaid(presets(), own.subrange(0, i as int)),
            decreases self.profiles@.len() - i,
        {
            let entry = &self.profiles[i];
            assert(own[i as int] == entry.deep_view());
            assert(own.subrange(0, i + 1).drop_last() == own.subrange(0, i as int));
            put_entry(&mut all, entry.name.clone(), entry.profile.clone());
            i += 1;
        }
        assert(own.subrange(0, own.len() as int) == own);
        all
    }

    /// The first of the user's profiles that is meant for the executable
    /// `exe`.
    pub fn find_profile_for_exe(&self, exe: &str) -> (r: Option<&Profile>)
        ensures
            match r {
                Some(p) => first_for_exe(self.deep_view(), exe@) == Some(p.deep_view()),
                None => first_for_exe(self.deep_view(), exe@).is_none(),
            },
    {
        let ghost all = self.deep_view();
        let mut i: usize = 0;
        assert(all.subrange(0, all.len() as int) == all);
        while i < self.profiles.len()
            invariant
                i <= self.profiles@.len(),
                all == entries_view(self.profiles@),
                first_for_exe(all, exe@) == first_for_exe(
                    all.subrange(i as int, all.len() as int),
                    exe@,
                ),
            decreases self.profiles@.len() - i,
        {
            let ghost rest = all.subrange(i as int, all.len() as int);
            assert(rest[0] == self.profiles@[i as int].deep_view());
            if self.profiles[i].profile.matches_exe(exe) {
                return Some(&self.profiles[i].profile);
            }
            assert(rest.drop_first() == all.subrange(i + 1, all.len() as int));
            i += 1;
        }
        None
    }
}

} // verus!
