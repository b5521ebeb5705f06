//! Launching a command under limits and watching over it: the decisions of
//! the loop that waits for the child.

use crate::error::{Error, ErrorView};
use crate::kernel::valid_name;
use crate::text::{chars_of, decimal_chars, decimal_digits, lemma_decimal_roundtrip, push_chars, string_of};
use vstd::prelude::*;

verus! {

/// How long the watcher waits between two looks at the child, in
/// milliseconds.
pub const POLL_INTERVAL_MS: u64 = 100;

/// The exit code that stands for a failure.
pub const EXIT_FAILURE: u8 = 1;

/// The name of the group for the children that the process `creator`
/// launches.
pub open spec fn launch_group_name(creator: u32) -> Seq<char> {
    "run-"@ + decimal_digits(creator as nat)
}

/// The name of the group for the children that the process `creator`
/// launches.
pub fn launch_group(creator: u32) -> (r: String)
    ensures
        r@ == launch_group_name(creator),
{
    let mut out = chars_of("run-");
    let digits = decimal_chars(creator as u64);
    push_chars(&mut out, digits.as_slice());
    string_of(out.as_slice())
}

/// The name of a launch group is a valid group name.
pub proof fn lemma_launch_group_name_valid(creator: u32)
    ensures
        valid_name(launch_group_name(creator)),
{
    reveal_strlit("run-");
    lemma_decimal_roundtrip(creator as nat);
    let digits = decimal_digits(creator as nat);
    let name = launch_group_name(creator);
    assert forall|i: int| 0 <= i < name.len() implies crate::kernel::is_name_char(
        #[trigger] name[i],
    ) by {
        if i >= 4 {
            assert(name[i] == digits[i - 4]);
            assert(crate::text::is_digit(digits[i - 4]));
        }
    }
}

/// Checks that there is a command to launch: a program, and maybe
/// arguments.
pub fn check_command(command: &Vec<String>) -> (r: Result<(), Error>)
    ensures
        match r {
            Ok(_) => command@.len() > 0,
            Err(e) => command@.len() == 0 && e@ == ErrorView::InvalidArgs("command is required"@),
        },
{
    if command.len() == 0 {
        Err(Error::InvalidArgs("command is required".to_string()))
    } else {
        Ok(())
    }
}

/// The watcher over a launched child. It remembers one thing: whether the
/// child was told to terminate.
#[derive(Clone, Copy, Debug, PartialEq, Eq, Structural)]
pub struct Supervisor {
    pub signalled: bool,
}

/// What the watcher does next.
#[derive(Clone, Copy, Debug, PartialEq, Eq, Structural)]
pub enum Watch {
    /// Look at the child again after this many milliseconds.
    Wait(u64),
    /// The child is gone: end with this exit code.
    Exit(u8),
}

/// The exit code to end with, given how the child ended: the low eight bits
/// of its code, or the failure code if it was killed and has none.
pub open spec fn exit_code_of(code: Option<i32>) -> u8 {
    match code {
        Some(c) => (c % 256) as u8,
        None => EXIT_FAILURE,
    }
}

impl Supervisor {
    /// A watcher that has told the child nothing yet.
    pub fn new() -> (r: Supervisor)
        ensures
            !r.signalled,
    {
        Supervisor { signalled: false }
    }

    /// Whether to tell the child to terminate now: exactly at the first
    /// look after cancellation was asked for.
    pub fn wants_signal(&mut self, cancelled: bool) -> (r: bool)
        ensures
            r == (cancelled && !old(self).signalled),
            final(self).signalled == (old(self).signalled || cancelled),
    {
        if cancelled && !self.signalled {
            self.signalled = true;
            true
        } else {
            false
        }
    }

    /// What to do after a look at the child. `ended` is absent while the
    /// child runs; else it holds the child's exit code, if it has one.
    pub fn after_look(&self, ended: Option<Option<i32>>) -> (r: Watch)
        ensures
            r == (match ended {
                None => Watch::Wait(POLL_INTERVAL_MS),
                Some(code) => Watch::Exit(exit_code_of(code)),
            }),
    {
        match ended {
            None => Watch::Wait(POLL_INTERVAL_MS),
            Some(None) => Watch::Exit(EXIT_FAILURE),
            Some(Some(c)) => {
                let low: i32 = c % 256;
                let code: i32 = if low < 0 {
                    low + 256
                } else {
                    low
                };
                Watch::Exit(code as u8)
            },
        }
    }
}

/// For each of the looks `looks`, which tell whether cancellation was asked
/// for, whether the watcher tells the child to terminate at that look.
pub open spec fn signals(signalled: bool, looks: Seq<bool>) -> Seq<bool>
    decreases looks.len(),
{
    if looks.len() == 0 {
        Seq::empty()
    } else {
        seq![looks[0] && !signalled] + signals(signalled || looks[0], looks.drop_first())
    }
}

/// A watcher that has told the child to terminate never tells it again.
pub proof fn lemma_no_signal_after_the_first(looks: Seq<bool>, i: int)
    requires
        0 <= i < looks.len(),
    ensures
        signals(true, looks).len() == looks.len(),
        !signals(true, looks)[i],
    decreases looks.len(),
{
    lemma_signals_len(true, looks);
    if i > 0 {
        lemma_no_signal_after_the_first(looks.drop_first(), i - 1);
    }
}

/// There is one decision for every look.
pub proof fn lemma_signals_len(signalled: bool, looks: Seq<bool>)
    ensures
        signals(signalled, looks).len() == looks.len(),
    decreases looks.len(),
{
    if looks.len() > 0 {
        lemma_signals_len(signalled || looks[0], looks.drop_first());
    }
}

/// The child is told to terminate at most once, whatever the looks bring,
/// and it is told at the first look that finds cancellation asked for.
pub proof fn lemma_signal_is_sent_once(looks: Seq<bool>, i: int, j: int)
    requires
        0 <= i < j < looks.len(),
    ensures
        signals(false, looks).len() == looks.len(),
        !(signals(false, looks)[i] && signals(false, looks)[j]),
        signals(false, looks)[i] == (looks[i] && forall|k: int| 0 <= k < i ==> !looks[k]),
    decreases looks.len(),
{
    lemma_signals_len(false, looks);
    let rest = looks.drop_first();
    lemma_signals_len(looks[0], rest);
    if looks[0] {
        lemma_no_signal_after_the_first(rest, j - 1);
        if i > 0 {
            lemma_no_signal_after_the_first(rest, i - 1);
        }
    } else if i > 0 {
        lemma_signal_is_sent_once(rest, i - 1, j - 1);
        assert forall|k: int| 0 <= k < i - 1 implies rest[k] == looks[k + 1] by {}
        if forall|k: int| 0 <= k < i ==> !looks[k] {
            assert forall|k: int| 0 <= k < i - 1 implies !rest[k] by {
                assert(rest[k] == looks[k + 1]);
            }
        } else {
            let k = choose|k: int| 0 <= k < i && looks[k];
            assert(rest[k - 1] == looks[k]);
        }
    } else {
        // The first look found nothing to do; the watcher goes on unchanged.
        assert(signals(false, looks)[j] == signals(false, rest)[j - 1]);
    }
}

} // verus!
