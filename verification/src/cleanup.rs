//! Taking a control group down: its members are evacuated, then its
//! directory is removed. Cleanup is best effort: once the name is accepted
//! it never reports a failure.

use crate::error::{ErrorView, IoKind};
use crate::host::{Progress, ProgressView, Reply, ReplyView, Request, RequestView};
use crate::kernel::{
    join, join_path, member_pids, name_rejection, parse_members, sanitize_cgroup_name,
    valid_name,
};
use crate::text::{decimal_chars, decimal_digits, string_of};
use vstd::prelude::*;

verus! {

/// How often the removal of the directory is tried.
pub const REMOVE_ATTEMPTS: u32 = 3;

/// The wait after the first failed removal, in milliseconds.
pub const FIRST_DELAY_MS: u64 = 50;

/// The longest wait between two removals, in milliseconds.
pub const LONGEST_DELAY_MS: u64 = 200;

/// The wait that follows a wait of `delay` milliseconds: twice as long, up
/// to the longest wait.
pub open spec fn next_delay(delay: u64) -> u64 {
    if delay >= LONGEST_DELAY_MS / 2 {
        LONGEST_DELAY_MS
    } else {
        (delay * 2) as u64
    }
}

/// Which answer a [`Cleanup`] waits for.
#[derive(Clone, Copy, Debug, PartialEq, Eq, Structural)]
pub enum CleanupStage {
    /// Whether the group exists.
    CheckExists,
    /// Whether the kernel offers to kill all members at once.
    ProbeKill,
    /// The kill of all members.
    Kill,
    /// The membership file.
    ReadMembers,
    /// The creation of the group that takes the members in.
    MakeRefuge,
    /// The move of the member at `next`.
    Move,
    /// The reset of the memory ceiling.
    ResetMemory,
    /// The reset of the CPU quota.
    ResetCpu,
    /// The reset of the I/O ceilings.
    ResetIo,
    /// The removal of the directory.
    Remove,
    /// The wait before the next removal.
    Backoff,
}

/// The operation that takes a control group down.
#[derive(Debug)]
pub struct Cleanup {
    base: String,
    path: String,
    stage: CleanupStage,
    pids: Vec<u32>,
    next: usize,
    attempt: u32,
    delay: u64,
}

/// The mathematical content of a [`Cleanup`].
pub struct CleanupView {
    /// The directory under which managed groups are created.
    pub base: Seq<char>,
    /// The directory of the group being taken down.
    pub path: Seq<char>,
    /// The answer that is waited for.
    pub stage: CleanupStage,
    /// The members found in the group.
    pub pids: Seq<u32>,
    /// How many of them were dealt with.
    pub next: int,
    /// The number of the removal under way, from one.
    pub attempt: u32,
    /// The wait after the removal under way, in milliseconds.
    pub delay: u64,
}

impl DeepView for Cleanup {
    type V = CleanupView;

    closed spec fn deep_view(&self) -> CleanupView {
        CleanupView {
            base: self.base@,
            path: self.path@,
            stage: self.stage,
            pids: self.pids@,
            next: self.next as int,
            attempt: self.attempt,
            delay: self.delay,
        }
    }
}

/// The group without controllers that takes in the members of a group that
/// is taken down, so that they run on unconstrained.
pub open spec fn refuge(base: Seq<char>) -> Seq<char> {
    join(base, "unlimit"@)
}

impl CleanupView {
    /// The operation from its start: the name is checked before any path is
    /// built from it, then the host is asked whether the group exists.
    pub open spec fn begin(base: Seq<char>, name: Seq<char>) -> ProgressView<CleanupView, ()> {
        match name_rejection(name) {
            Some(reason) => ProgressView::Done(Err(ErrorView::InvalidArgs(reason))),
            None => ProgressView::Ask(
                CleanupView {
                    base,
                    path: join(base, name),
                    stage: CleanupStage::CheckExists,
                    pids: Seq::empty(),
                    next: 0,
                    attempt: 1,
                    delay: FIRST_DELAY_MS,
                },
                RequestView::Exists { path: join(base, name) },
            ),
        }
    }

    /// The operation where the members are drained one by one.
    pub open spec fn enter_drain(self) -> ProgressView<CleanupView, ()> {
        ProgressView::Ask(
            CleanupView { stage: CleanupStage::ReadMembers, ..self },
            RequestView::Read { path: join(self.path, "cgroup.procs"@) },
        )
    }

    /// The operation from the member at `next` on.
    pub open spec fn enter_move(self) -> ProgressView<CleanupView, ()> {
        if 0 <= self.next < self.pids.len() {
            ProgressView::Ask(
                CleanupView { stage: CleanupStage::Move, ..self },
                RequestView::Write {
                    path: join(refuge(self.base), "cgroup.procs"@),
                    content: decimal_digits(self.pids[self.next] as nat),
                },
            )
        } else {
            self.enter_remove()
        }
    }

    /// The operation with the next member.
    pub open spec fn advance(self) -> ProgressView<CleanupView, ()> {
        let next = if self.next < self.pids.len() {
            self.next + 1
        } else {
            self.next
        };
        CleanupView { next, ..self }.enter_move()
    }

    /// The operation where the directory is removed.
    pub open spec fn enter_remove(self) -> ProgressView<CleanupView, ()> {
        ProgressView::Ask(
            CleanupView { stage: CleanupStage::Remove, ..self },
            RequestView::RemoveDir { path: self.path },
        )
    }

    /// The operation after the host's reply.
    ///
    /// A group that does not exist is done with. Members are evacuated by
    /// the first way that works: the kernel kills them all at once; else
    /// each is moved to the refuge; a member that cannot be moved has the
    /// group's limits reset in place. Then the directory is removed; while
    /// the host refuses for another reason than absence, the removal is
    /// tried again after a wait that doubles, a bounded number of times.
    pub open spec fn resume(self, reply: ReplyView) -> ProgressView<CleanupView, ()> {
        match self.stage {
            CleanupStage::CheckExists => if reply.found() {
                ProgressView::Ask(
                    CleanupView { stage: CleanupStage::ProbeKill, ..self },
                    RequestView::Exists { path: join(self.path, "cgroup.kill"@) },
                )
            } else {
                ProgressView::Done(Ok(()))
            },
            CleanupStage::ProbeKill => if reply.found() {
                ProgressView::Ask(
                    CleanupView { stage: CleanupStage::Kill, ..self },
                    RequestView::Write { path: join(self.path, "cgroup.kill"@), content: "1"@ },
                )
            } else {
                self.enter_drain()
            },
            CleanupStage::Kill => match reply.done() {
                Ok(_) => self.enter_remove(),
                Err(_) => self.enter_drain(),
            },
            CleanupStage::ReadMembers => match reply.text() {
                Ok(content) => if member_pids(content).len() == 0 {
                    self.enter_remove()
                } else {
                    ProgressView::Ask(
                        CleanupView {
                            stage: CleanupStage::MakeRefuge,
                            pids: member_pids(content),
                            next: 0,
                            ..self
                        },
                        RequestView::CreateDir { path: refuge(self.base) },
                    )
                },
                Err(_) => self.enter_remove(),
            },
            CleanupStage::MakeRefuge => self.enter_move(),
            CleanupStage::Move => match reply.done() {
                Ok(_) => self.advance(),
                Err(_) => ProgressView::Ask(
                    CleanupView { stage: CleanupStage::ResetMemory, ..self },
                    RequestView::Write { path: join(self.path, "memory.max"@), content: "max"@ },
                ),
            },
            CleanupStage::ResetMemory => ProgressView::Ask(
                CleanupView { stage: CleanupStage::ResetCpu, ..self },
                RequestView::Write { path: join(self.path, "cpu.max"@), content: "max"@ },
            ),
            CleanupStage::ResetCpu => ProgressView::Ask(
                CleanupView { stage: CleanupStage::ResetIo, ..self },
                RequestView::Write { path: join(self.path, "io.max"@), content: ""@ },
            ),
            CleanupStage::ResetIo => self.advance(),
            CleanupStage::Remove => match reply.done() {
                Ok(_) => ProgressView::Done(Ok(())),
                Err(f) => if f.kind == IoKind::NotFound || self.attempt >= REMOVE_ATTEMPTS {
                    ProgressView::Done(Ok(()))
                } else {
                    ProgressView::Ask(
                        CleanupView { stage: CleanupStage::Backoff, ..self },
                        RequestView::Sleep { millis: self.delay },
                    )
                },
            },
            CleanupStage::Backoff => CleanupView {
                attempt: if self.attempt < REMOVE_ATTEMPTS {
                    (self.attempt + 1) as u32
                } else {
                    self.attempt
                },
                delay: next_delay(self.delay),
                ..self
            }.enter_remove(),
        }
    }

    /// The longest time that the operation can still spend waiting, in
    /// milliseconds.
    pub open spec fn waits_left(self) -> int {
        if self.attempt >= REMOVE_ATTEMPTS {
            0
        } else {
            (REMOVE_ATTEMPTS - self.attempt) * LONGEST_DELAY_MS
        }
    }
}

/// Taking down a group that does not exist succeeds, and asks the host for
/// nothing but whether the group is there.
pub proof fn lemma_cleanup_of_absent_group(base: Seq<char>, name: Seq<char>, reply: ReplyView)
    requires
        valid_name(name),
        !reply.found(),
    ensures
        match CleanupView::begin(base, name) {
            ProgressView::Ask(state, request) => request == (RequestView::Exists {
                path: join(base, name),
            }) && state.resume(reply) == ProgressView::<CleanupView, ()>::Done(Ok(())),
            ProgressView::Done(_) => false,
        },
{
    crate::kernel::lemma_rejection_iff_invalid(name);
}

/// Once its name is accepted, cleanup never fails: whatever the host
/// replies, the operation goes on or ends in success; and a reply that the
/// directory is gone ends it at once.
pub proof fn lemma_cleanup_is_best_effort(state: CleanupView, reply: ReplyView)
    ensures
        !(state.resume(reply) matches ProgressView::Done(Err(_))),
        state.stage == CleanupStage::Remove && reply.done().is_err() && reply.done().unwrap_err().kind
            == IoKind::NotFound ==> state.resume(reply) == ProgressView::<CleanupView, ()>::Done(
            Ok(()),
        ),
{
}

/// Each wait is at most the longest wait, and after a wait the operation has
/// fewer removals before it: the total wait is bounded.
pub proof fn lemma_cleanup_waits_are_bounded(state: CleanupView, reply: ReplyView)
    requires
        state.delay <= LONGEST_DELAY_MS,
    ensures
        match state.resume(reply) {
            ProgressView::Ask(next, request) => {
                &&& next.delay <= LONGEST_DELAY_MS
                &&& next.waits_left() <= state.waits_left()
                &&& (request matches RequestView::Sleep { millis } ==> millis <= LONGEST_DELAY_MS
                    && state.waits_left() >= LONGEST_DELAY_MS)
                &&& state.stage == CleanupStage::Backoff ==> next.waits_left() + LONGEST_DELAY_MS
                    <= state.waits_left() || state.waits_left() == 0
            },
            ProgressView::Done(_) => true,
        },
{
}

impl Cleanup {
    /// Starts taking down the group `name` under `base`.
    pub fn begin(base: &str, name: &str) -> (p: Progress<Cleanup, ()>)
        ensures
            p.deep_view() == CleanupView::begin(base@, name@),
    {
        match sanitize_cgroup_name(name) {
            Err(e) => Progress::Done(Err(e)),
            Ok(safe) => {
                let state = Cleanup {
                    base: base.to_string(),
                    path: join_path(base, safe),
                    stage: CleanupStage::CheckExists,
                    pids: Vec::new(),
                    next: 0,
                    attempt: 1,
                    delay: FIRST_DELAY_MS,
                };
                let request = Request::Exists { path: state.path.clone() };
                Progress::Ask(state, request)
            },
        }
    }

    fn enter_drain(self) -> (p: Progress<Cleanup, ()>)
        ensures
            p.deep_view() == self.deep_view().enter_drain(),
    {
        let request = Request::Read { path: join_path(self.path.as_str(), "cgroup.procs") };
        Progress::Ask(Cleanup { stage: CleanupStage::ReadMembers, ..self }, request)
    }

    fn enter_move(self) -> (p: Progress<Cleanup, ()>)
        ensures
            p.deep_view() == self.deep_view().enter_move(),
    {
        if self.next < self.pids.len() {
            let refuge = join_path(self.base.as_str(), "unlimit");
            let digits = decimal_chars(self.pids[self.next] as u64);
            let request = Request::Write {
                path: join_path(refuge.as_str(), "cgroup.procs"),
                content: string_of(digits.as_slice()),
            };
            Progress::Ask(Cleanup { stage: CleanupStage::Move, ..self }, request)
        } else {
            self.enter_remove()
        }
    }

    fn advance(self) -> (p: Progress<Cleanup, ()>)
        ensures
            p.deep_view() == self.deep_view().advance(),
    {
        let next = if self.next < self.pids.len() {
            self.next + 1
        } else {
            self.next
        };
        let state = Cleanup { next, ..self };
        state.enter_move()
    }

    fn enter_remove(self) -> (p: Progress<Cleanup, ()>)
        ensures
            p.deep_view() == self.deep_view().enter_remove(),
    {
        let request = Request::RemoveDir { path: self.path.clone() };
        Progress::Ask(Cleanup { stage: CleanupStage::Remove, ..self }, request)
    }

    fn ask_write(self, stage: CleanupStage, file: &str, content: &str) -> (p: Progress<
        Cleanup,
        (),
    >)
        ensures
            p.deep_view() == ProgressView::<CleanupView, ()>::Ask(
                CleanupView { stage, ..self.deep_view() },
                RequestView::Write { path: join(self.deep_view().path, file@), content: content@ },
            ),
    {
        let request = Request::Write {
            path: join_path(self.path.as_str(), file),
            content: content.to_string(),
        };
        Progress::Ask(Cleanup { stage, ..self }, request)
    }

    /// Resumes the operation with the host's reply to its last request.
    pub fn resume(self, reply: Reply) -> (p: Progress<Cleanup, ()>)
        ensures
            p.deep_view() == self.deep_view().resume(reply@),
    {
        match self.stage {
            CleanupStage::CheckExists => if reply.is_found() {
                let request = Request::Exists {
                    path: join_path(self.path.as_str(), "cgroup.kill"),
                };
                Progress::Ask(Cleanup { stage: CleanupStage::ProbeKill, ..self }, request)
            } else {
                Progress::Done(Ok(()))
            },
            CleanupStage::ProbeKill => if reply.is_found() {
                self.ask_write(CleanupStage::Kill, "cgroup.kill", "1")
            } else {
                self.enter_drain()
            },
            CleanupStage::Kill => match reply.into_done() {
                Ok(_) => self.enter_remove(),
                Err(_) => self.enter_drain(),
            },
            CleanupStage::ReadMembers => match reply.into_text() {
                Ok(content) => {
                    let pids = parse_members(content.as_str());
                    if pids.len() == 0 {
                        self.enter_remove()
                    } else {
                        let request = Request::CreateDir {
                            path: join_path(self.base.as_str(), "unlimit"),
                        };
                        Progress::Ask(
                            Cleanup { stage: CleanupStage::MakeRefuge, pids, next: 0, ..self },
                            request,
                        )
                    }
                },
                Err(_) => self.enter_remove(),
            },
            CleanupStage::MakeRefuge => self.enter_move(),
            CleanupStage::Move => match reply.into_done() {
                Ok(_) => self.advance(),
                Err(_) => self.ask_write(CleanupStage::ResetMemory, "memory.max", "max"),
            },
            CleanupStage::ResetMemory => self.ask_write(CleanupStage::ResetCpu, "cpu.max", "max"),
            CleanupStage::ResetCpu => self.ask_write(CleanupStage::ResetIo, "io.max", ""),
            CleanupStage::ResetIo => self.advance(),
            CleanupStage::Remove => match reply.into_done() {
                Ok(_) => Progress::Done(Ok(())),
                Err(f) => {
                    let gone = match f.kind {
                        IoKind::NotFound => true,
                        _ => false,
                    };
                    if gone || self.attempt >= REMOVE_ATTEMPTS {
                        Progress::Done(Ok(()))
                    } else {
                        let request = Request::Sleep { millis: self.delay };
                        Progress::Ask(Cleanup { stage: CleanupStage::Backoff, ..self }, request)
                    }
                },
            },
            CleanupStage::Backoff => {
                let attempt = if self.attempt < REMOVE_ATTEMPTS {
                    self.attempt + 1
                } else {
                    self.attempt
                };
                let delay = if self.delay >= LONGEST_DELAY_MS / 2 {
                    LONGEST_DELAY_MS
                } else {
                    self.delay * 2
                };
                let state = Cleanup { attempt, delay, ..self };
                state.enter_remove()
            },
        }
    }
}

} // verus!
