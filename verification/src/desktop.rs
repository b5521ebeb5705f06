//! Desktop entries: what a launcher file says about an application.

use crate::kernel::spaced;
use crate::text::{
    chars_of, contains_char, has_char, has_prefix, is_str, lines, push_chars, split_lines,
    split_words, starts_with_str, string_of, texts, trim, trimmed, words,
};
use vstd::prelude::*;
use vstd::slice::slice_subrange;

verus! {

/// An application that can be launched.
#[derive(Debug)]
pub struct DesktopApp {
    /// The name shown to the user.
    pub name: String,
    /// The command line that starts it.
    pub command: String,
    /// Whether it was found on the search path rather than in a launcher
    /// file.
    pub is_cli: bool,
}

/// The mathematical content of a [`DesktopApp`].
pub struct DesktopAppView {
    pub name: Seq<char>,
    pub command: Seq<char>,
    pub is_cli: bool,
}

impl DeepView for DesktopApp {
    type V = DesktopAppView;

    open spec fn deep_view(&self) -> DesktopAppView {
        DesktopAppView { name: self.name@, command: self.command@, is_cli: self.is_cli }
    }
}

impl Clone for DesktopApp {
    fn clone(&self) -> (r: Self)
        ensures
            r.deep_view() == self.deep_view(),
    {
        DesktopApp { name: self.name.clone(), command: self.command.clone(), is_cli: self.is_cli }
    }
}

// ---------------------------------------------------------------------------
// The command line
// ---------------------------------------------------------------------------

/// `s` without the double quotes at its start.
pub open spec fn unquoted_start(s: Seq<char>) -> Seq<char>
    decreases s.len(),
{
    if s.len() > 0 && s[0] == '"' {
        unquoted_start(s.drop_first())
    } else {
        s
    }
}

/// `s` without the double quotes at its end.
pub open spec fn unquoted_end(s: Seq<char>) -> Seq<char>
    decreases s.len(),
{
    if s.len() > 0 && s.last() == '"' {
        unquoted_end(s.drop_last())
    } else {
        s
    }
}

/// `s` without the double quotes around it.
pub open spec fn unquoted(s: Seq<char>) -> Seq<char> {
    unquoted_end(unquoted_start(s))
}

/// Dropping quotes from the front does not change what `unquoted_start`
/// yields.
proof fn lemma_unquoted_start_skip(s: Seq<char>, k: int)
    requires
        0 <= k <= s.len(),
        forall|i: int| 0 <= i < k ==> s[i] == '"',
    ensures
        unquoted_start(s) == unquoted_start(s.subrange(k, s.len() as int)),
    decreases k,
{
    if k == 0 {
        assert(s.subrange(0, s.len() as int) == s);
    } else {
        lemma_unquoted_start_skip(s.drop_first(), k - 1);
        assert(s.drop_first().subrange(k - 1, s.drop_first().len() as int) == s.subrange(
            k,
            s.len() as int,
        ));
    }
}

/// Dropping quotes from the back does not change what `unquoted_end`
/// yields.
proof fn lemma_unquoted_end_take(s: Seq<char>, k: int)
    requires
        0 <= k <= s.len(),
        forall|i: int| k <= i < s.len() ==> s[i] == '"',
    ensures
        unquoted_end(s) == unquoted_end(s.subrange(0, k)),
    decreases s.len() - k,
{
    if k == s.len() {
        assert(s.subrange(0, k) == s);
    } else {
        lemma_unquoted_end_take(s.drop_last(), k);
        assert(s.drop_last().subrange(0, k) == s.subrange(0, k));
    }
}

/// Removes the double quotes around `s`.
fn unquote<'a>(s: &'a [char]) -> (r: &'a [char])
    ensures
        r@ == unquoted(s@),
{
    let mut lo: usize = 0;
    while lo < s.len() && s[lo] == '"'
        invariant
            lo <= s@.len(),
            forall|i: int| 0 <= i < lo ==> s@[i] == '"',
        decreases s@.len() - lo,
    {
        lo += 1;
    }
    let rest = slice_subrange(s, lo, s.len());
    proof {
        lemma_unquoted_start_skip(s@, lo as int);
    }
    let mut hi: usize = rest.len();
    while hi > 0 && rest[hi - 1] == '"'
        invariant
            hi <= rest@.len(),
            forall|i: int| hi <= i < rest@.len() ==> rest@[i] == '"',
        decreases hi,
    {
        hi -= 1;
    }
    proof {
        lemma_unquoted_end_take(rest@, hi as int);
    }
    slice_subrange(rest, 0, hi)
}

/// The arguments of a command line that are kept: each without the quotes
/// around it; empty ones and field codes, which start with a percent sign,
/// are left out.
pub open spec fn kept_args(ws: Seq<Seq<char>>) -> Seq<Seq<char>>
    decreases ws.len(),
{
    if ws.len() == 0 {
        Seq::empty()
    } else {
        let arg = unquoted(ws.last());
        if arg.len() > 0 && arg[0] != '%' {
            kept_args(ws.drop_last()).push(arg)
        } else {
            kept_args(ws.drop_last())
        }
    }
}

/// `args` without the variable assignments at its start.
pub open spec fn without_assignments(args: Seq<Seq<char>>) -> Seq<Seq<char>>
    decreases args.len(),
{
    if args.len() > 0 && has_char(args[0], '=') {
        without_assignments(args.drop_first())
    } else {
        args
    }
}

/// The arguments of the command itself: if the line runs the command
/// through `env`, what follows `env` and its variable assignments.
pub open spec fn command_args(args: Seq<Seq<char>>) -> Seq<Seq<char>> {
    if args.len() > 0 && args[0] == "env"@ {
        without_assignments(args.drop_first())
    } else {
        args
    }
}

/// The command that an `Exec` value starts: its kept arguments, without an
/// `env` wrapper, joined by single spaces.
pub open spec fn command_of(value: Seq<char>) -> Seq<char> {
    spaced(command_args(kept_args(words(value))))
}

/// Reads the command from an `Exec` value.
fn parse_command(value: &[char]) -> (r: Vec<char>)
    ensures
        r@ == command_of(value@),
{
    let ws = split_words(value);
    let mut args: Vec<&[char]> = Vec::new();
    let mut i: usize = 0;
    assert(texts(args@) =~= Seq::<Seq<char>>::empty());
    while i < ws.len()
        invariant
            i <= ws@.len(),
            texts(ws@) == words(value@),
            texts(args@) == kept_args(texts(ws@).subrange(0, i as int)),
        decreases ws@.len() - i,
    {
        let ghost seen = texts(ws@).subrange(0, i + 1);
        assert(seen.drop_last() == texts(ws@).subrange(0, i as int));
        assert(seen.last() == ws@[i as int]@);
        let ghost before = texts(args@);
        let arg = unquote(ws[i]);
        if arg.len() > 0 && arg[0] != '%' {
            args.push(arg);
            assert(texts(args@) =~= before.push(arg@));
        }
        i += 1;
    }
    assert(texts(ws@).subrange(0, ws@.len() as int) == texts(ws@));
    let ghost kept = texts(args@);
    let mut from: usize = 0;
    assert(kept.subrange(0, kept.len() as int) == kept);
    if args.len() > 0 && is_str(args[0], "env") {
        assert(kept[0] == args@[0]@);
        from = 1;
        assert(kept.drop_first() == kept.subrange(1, kept.len() as int));
        while from < args.len() && contains_char(args[from], '=')
            invariant
                1 <= from <= args@.len(),
                kept == texts(args@),
                without_assignments(kept.drop_first()) == without_assignments(
                    kept.subrange(from as int, kept.len() as int),
                ),
            decreases args@.len() - from,
        {
            let ghost rest = kept.subrange(from as int, kept.len() as int);
            assert(rest[0] == args@[from as int]@);
            assert(rest.drop_first() == kept.subrange(from + 1, kept.len() as int));
            from += 1;
        }
        proof {
            let rest = kept.subrange(from as int, kept.len() as int);
            if from < args@.len() {
                assert(rest[0] == args@[from as int]@);
            }
            assert(without_assignments(rest) == rest);
        }
    } else {
        proof {
            if args@.len() > 0 {
                assert(kept[0] == args@[0]@);
            }
        }
    }
    let ghost chosen = kept.subrange(from as int, kept.len() as int);
    assert(chosen == command_args(kept));
    let mut out: Vec<char> = Vec::new();
    let mut j: usize = from;
    assert(chosen.subrange(0, 0) =~= Seq::<Seq<char>>::empty());
    while j < args.len()
        invariant
            from <= j <= args@.len(),
            kept == texts(args@),
            chosen == kept.subrange(from as int, kept.len() as int),
            out@ == spaced(chosen.subrange(0, j - from)),
        decreases args@.len() - j,
    {
        let ghost done = chosen.subrange(0, j - from + 1);
        assert(done.drop_last() == chosen.subrange(0, j - from));
        assert(done.last() == args@[j as int]@);
        if j > from {
            out.push(' ');
            proof {
                reveal_strlit(" ");
                assert(" "@ =~= seq![' ']);
            }
        } else {
            assert(done.drop_last().len() == 0);
            assert(out@ + args@[j as int]@ =~= args@[j as int]@);
        }
        push_chars(&mut out, args[j]);
        j += 1;
    }
    assert(chosen.subrange(0, chosen.len() as int) == chosen);
    out
}

// ---------------------------------------------------------------------------
// The file
// ---------------------------------------------------------------------------

/// What is known of an entry while its file is read.
pub struct Scanned {
    /// The first name found.
    pub name: Option<Seq<char>>,
    /// The first command found that is not empty.
    pub command: Option<Seq<char>>,
    /// The entry asks not to be shown.
    pub hidden: bool,
    /// The line belongs to the section of the entry itself.
    pub inside: bool,
    /// The entry is of another type than an application.
    pub rejected: bool,
}

/// What is known at the start of a file: nothing.
pub open spec fn nothing_scanned() -> Scanned {
    Scanned { name: None, command: None, hidden: false, inside: false, rejected: false }
}

/// What is known after one more line.
///
/// White space around the line is ignored. A line that starts with a
/// bracket opens a section; only the section `[Desktop Entry]` counts. In
/// it, the first `Name=` gives the name, the first `Exec=` with a command
/// that is not empty gives the command, `NoDisplay=true` and `Hidden=true`
/// hide the entry, and a `Type=` other than `Application` rejects it.
pub open spec fn after_entry_line(known: Scanned, raw: Seq<char>) -> Scanned {
    let line = trim(raw);
    if known.rejected {
        known
    } else if has_prefix(line, "["@) {
        Scanned { inside: line == "[Desktop Entry]"@, ..known }
    } else if !known.inside {
        known
    } else if has_prefix(line, "Name="@) && known.name.is_none() {
        Scanned { name: Some(line.subrange(5, line.len() as int)), ..known }
    } else if has_prefix(line, "Exec="@) && known.command.is_none() {
        let command = command_of(line.subrange(5, line.len() as int));
        if command.len() > 0 {
            Scanned { command: Some(command), ..known }
        } else {
            known
        }
    } else if line == "NoDisplay=true"@ || line == "Hidden=true"@ {
        Scanned { hidden: true, ..known }
    } else if has_prefix(line, "Type="@) && line != "Type=Application"@ {
        Scanned { rejected: true, ..known }
    } else {
        known
    }
}

/// What is known after the lines `ls`.
pub open spec fn after_entry_lines(known: Scanned, ls: Seq<Seq<char>>) -> Scanned
    decreases ls.len(),
{
    if ls.len() == 0 {
        known
    } else {
        after_entry_line(after_entry_lines(known, ls.drop_last()), ls.last())
    }
}

/// The application that a launcher file describes, if it describes one
/// that is to be shown: an application with a name and a command, not
/// hidden.
pub open spec fn desktop_entry(content: Seq<char>) -> Option<DesktopAppView> {
    let known = after_entry_lines(nothing_scanned(), lines(content));
    if known.rejected || known.hidden || known.name.is_none() || known.command.is_none() {
        None
    } else {
        Some(DesktopAppView { name: known.name.unwrap(), command: known.command.unwrap(), is_cli: false })
    }
}

/// The text of an optional list of characters.
pub open spec fn opt_chars(v: Option<Vec<char>>) -> Option<Seq<char>> {
    match v {
        Some(c) => Some(c@),
        None => None,
    }
}

/// Reads a launcher file.
pub fn parse_desktop_file(content: &str) -> (r: Option<DesktopApp>)
    ensures
        match r {
            Some(app) => desktop_entry(content@) == Some(app.deep_view()),
            None => desktop_entry(content@).is_none(),
        },
{
    let chars = chars_of(content);
    let ls = split_lines(chars.as_slice());
    let mut name: Option<Vec<char>> = None;
    let mut found: Option<Vec<char>> = None;
    let mut hidden = false;
    let mut inside = false;
    let mut i: usize = 0;
    proof {
        reveal_strlit("[");
        reveal_strlit("Name=");
        reveal_strlit("Exec=");
    }
    while i < ls.len()
        invariant
            i <= ls@.len(),
            texts(ls@) == lines(content@),
            "Name="@.len() == 5,
            "Exec="@.len() == 5,
            after_entry_lines(nothing_scanned(), texts(ls@).subrange(0, i as int)) == (Scanned {
                name: opt_chars(name),
                command: opt_chars(found),
                hidden,
                inside,
                rejected: false,
            }),
        decreases ls@.len() - i,
    {
        let ghost seen = texts(ls@).subrange(0, i + 1);
        assert(seen.drop_last() == texts(ls@).subrange(0, i as int));
        assert(seen.last() == ls@[i as int]@);
        let line = trimmed(ls[i]);
        if starts_with_str(line, "[") {
            inside = is_str(line, "[Desktop Entry]");
        } else if !inside {
        } else if starts_with_str(line, "Name=") && name.is_none() {
            name = Some(vstd::slice::slice_to_vec(slice_subrange(line, 5, line.len())));
        } else if starts_with_str(line, "Exec=") && found.is_none() {
            let command = parse_command(slice_subrange(line, 5, line.len()));
            if command.len() > 0 {
                found = Some(command);
            }
        } else if is_str(line, "NoDisplay=true") || is_str(line, "Hidden=true") {
            hidden = true;
        } else if starts_with_str(line, "Type=") && !is_str(line, "Type=Application") {
            proof {
                let rest = texts(ls@).subrange(i + 1, ls@.len() as int);
                lemma_rejected_stays(
                    after_entry_lines(nothing_scanned(), seen),
                    rest,
                );
                assert(seen + rest =~= texts(ls@));
                lemma_after_entry_lines_append(nothing_scanned(), seen, rest);
            }
            return None;
        }
        i += 1;
    }
    assert(texts(ls@).subrange(0, ls@.len() as int) == texts(ls@));
    if hidden {
        return None;
    }
    match (name, found) {
        (Some(n), Some(e)) => Some(
            DesktopApp {
                name: string_of(n.as_slice()),
                command: string_of(e.as_slice()),
                is_cli: false,
            },
        ),
        _ => None,
    }
}

/// Once an entry is rejected, no line changes that.
proof fn lemma_rejected_stays(known: Scanned, ls: Seq<Seq<char>>)
    requires
        known.rejected,
    ensures
        after_entry_lines(known, ls) == known,
    decreases ls.len(),
{
    if ls.len() > 0 {
        lemma_rejected_stays(known, ls.drop_last());
    }
}

/// Reading lines one after the other is reading them all.
proof fn lemma_after_entry_lines_append(known: Scanned, a: Seq<Seq<char>>, b: Seq<Seq<char>>)
    ensures
        after_entry_lines(known, a + b) == after_entry_lines(after_entry_lines(known, a), b),
    decreases b.len(),
{
    if b.len() == 0 {
        assert(a + b =~= a);
    } else {
        lemma_after_entry_lines_append(known, a, b.drop_last());
        assert((a + b).drop_last() =~= a + b.drop_last());
        assert((a + b).last() == b.last());
    }
}

} // verus!
