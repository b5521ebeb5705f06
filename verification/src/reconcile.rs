//! Reconciliation: what is managed right now, told from the kernel's files
//! alone, with the groups of vanished processes taken down on the way.

use crate::cleanup::{Cleanup, CleanupView};
use crate::error::{Error, ErrorView};
use crate::host::{string_views, Progress, ProgressView, Reply, ReplyView, Request, RequestView};
use crate::kernel::{classify, first_member, group_kind, join, join_path, read_first_pid, GroupKind};
use crate::scan::{directories, directory_names};
use crate::status::{
    comm_file, comm_path, cpu_quota_of, io_limits_of, memory_max_of, parse_cpu_quota,
    parse_io_limits, parse_memory_max, trimmed_string, ProcessStatus, ProcessStatusView,
};
use crate::text::trim;
use vstd::prelude::*;

verus! {

/// Which answer a [`Reconciliation`] waits for.
#[derive(Debug)]
pub enum ReconcileStage {
    /// Whether the base exists.
    CheckBase,
    /// The groups under the base.
    List,
    /// The membership file of a group made for a launched process.
    ReadMembers,
    /// The short name of the process, which tells whether it lives.
    ReadComm(u32),
    /// The memory ceiling file.
    ReadMemory(u32, String),
    /// The CPU quota file.
    ReadCpu(u32, String, Option<u64>),
    /// The I/O limit file.
    ReadIo(u32, String, Option<u64>, Option<u32>),
    /// The dead group at `next_dead` is being taken down.
    Cleaning(Cleanup),
}

/// The mathematical content of a [`ReconcileStage`].
pub enum ReconcileStageView {
    CheckBase,
    List,
    ReadMembers,
    ReadComm(u32),
    ReadMemory(u32, Seq<char>),
    ReadCpu(u32, Seq<char>, Option<u64>),
    ReadIo(u32, Seq<char>, Option<u64>, Option<u32>),
    Cleaning(CleanupView),
}

/// The operation that tells the status of all managed processes.
#[derive(Debug)]
pub struct Reconciliation {
    base: String,
    stage: ReconcileStage,
    names: Vec<String>,
    next: usize,
    results: Vec<ProcessStatus>,
    dead: Vec<String>,
    next_dead: usize,
}

/// The mathematical content of a [`Reconciliation`].
pub struct ReconciliationView {
    /// The directory under which managed groups are created.
    pub base: Seq<char>,
    /// The answer that is waited for.
    pub stage: ReconcileStageView,
    /// The groups that the host listed.
    pub names: Seq<Seq<char>>,
    /// The group that is being looked at.
    pub next: int,
    /// The statuses found so far.
    pub results: Seq<ProcessStatusView>,
    /// The groups found dead so far.
    pub dead: Seq<Seq<char>>,
    /// The dead group that is being taken down.
    pub next_dead: int,
}

impl DeepView for Reconciliation {
    type V = ReconciliationView;

    closed spec fn deep_view(&self) -> ReconciliationView {
        ReconciliationView {
            base: self.base@,
            stage: match self.stage {
                ReconcileStage::CheckBase => ReconcileStageView::CheckBase,
                ReconcileStage::List => ReconcileStageView::List,
                ReconcileStage::ReadMembers => ReconcileStageView::ReadMembers,
                ReconcileStage::ReadComm(pid) => ReconcileStageView::ReadComm(pid),
                ReconcileStage::ReadMemory(pid, name) => ReconcileStageView::ReadMemory(pid, name@),
                ReconcileStage::ReadCpu(pid, name, m) => ReconcileStageView::ReadCpu(pid, name@, m),
                ReconcileStage::ReadIo(pid, name, m, c) => ReconcileStageView::ReadIo(
                    pid,
                    name@,
                    m,
                    c,
                ),
                ReconcileStage::Cleaning(c) => ReconcileStageView::Cleaning(c.deep_view()),
            },
            names: string_views(self.names@),
            next: self.next as int,
            results: self.results.deep_view(),
            dead: string_views(self.dead@),
            next_dead: self.next_dead as int,
        }
    }
}

impl ReconciliationView {
    /// The operation from its start.
    pub open spec fn begin(base: Seq<char>) -> ProgressView<
        ReconciliationView,
        Seq<ProcessStatusView>,
    > {
        ProgressView::Ask(
            ReconciliationView {
                base,
                stage: ReconcileStageView::CheckBase,
                names: Seq::empty(),
                next: 0,
                results: Seq::empty(),
                dead: Seq::empty(),
                next_dead: 0,
            },
            RequestView::Exists { path: base },
        )
    }

    /// The directory of the group that is being looked at.
    pub open spec fn group_dir(self) -> Seq<char> {
        join(self.base, self.names[self.next])
    }

    /// The operation where the liveness of the process `pid` is asked for.
    pub open spec fn ask_comm(self, pid: u32) -> ProgressView<
        ReconciliationView,
        Seq<ProcessStatusView>,
    > {
        ProgressView::Ask(
            ReconciliationView { stage: ReconcileStageView::ReadComm(pid), ..self },
            RequestView::Read { path: comm_file(pid) },
        )
    }

    /// The operation with the group that is being looked at marked dead.
    pub open spec fn bury(self) -> ReconciliationView {
        ReconciliationView {
            dead: self.dead.push(self.names[self.next]),
            next: self.next + 1,
            ..self
        }
    }

    /// The operation from the group at `next` on.
    ///
    /// A group named for a process tells the process by its name; if the
    /// name holds no number the group is dead. A group made for a launched
    /// process tells it by its membership file. Other groups are passed
    /// over. After the last group the dead ones are taken down.
    pub open spec fn enter_group(self) -> ProgressView<ReconciliationView, Seq<ProcessStatusView>>
        decreases self.names.len() - self.next,
    {
        if 0 <= self.next < self.names.len() {
            match group_kind(self.names[self.next]) {
                GroupKind::PidDirect(Some(pid)) => self.ask_comm(pid),
                GroupKind::PidDirect(None) => self.bury().enter_group(),
                GroupKind::LaunchDerived => ProgressView::Ask(
                    ReconciliationView { stage: ReconcileStageView::ReadMembers, ..self },
                    RequestView::Read { path: join(self.group_dir(), "cgroup.procs"@) },
                ),
                GroupKind::Foreign => ReconciliationView {
                    next: self.next + 1,
                    ..self
                }.enter_group(),
            }
        } else {
            self.enter_cleanup()
        }
    }

    /// The operation from the dead group at `next_dead` on. A dead group
    /// whose name is refused is passed over.
    pub open spec fn enter_cleanup(self) -> ProgressView<
        ReconciliationView,
        Seq<ProcessStatusView>,
    >
        decreases self.dead.len() - self.next_dead,
    {
        if 0 <= self.next_dead < self.dead.len() {
            match CleanupView::begin(self.base, self.dead[self.next_dead]) {
                ProgressView::Ask(c, r) => ProgressView::Ask(
                    ReconciliationView { stage: ReconcileStageView::Cleaning(c), ..self },
                    r,
                ),
                ProgressView::Done(_) => ReconciliationView {
                    next_dead: self.next_dead + 1,
                    ..self
                }.enter_cleanup(),
            }
        } else {
            ProgressView::Done(Ok(self.results))
        }
    }

    /// The operation between two questions: what it holds, with no answer
    /// waited for.
    pub open spec fn idle(self) -> ReconciliationView {
        ReconciliationView { stage: ReconcileStageView::List, ..self }
    }

    /// The operation after the host's reply.
    ///
    /// A base that does not exist holds nothing. A process whose short name
    /// cannot be read is gone: its group is dead and no status is told for
    /// it. A limit file that cannot be read tells no limit. How the
    /// taking-down of a dead group ends does not matter.
    pub open spec fn resume(self, reply: ReplyView) -> ProgressView<
        ReconciliationView,
        Seq<ProcessStatusView>,
    > {
        let idle = self.idle();
        match self.stage {
            ReconcileStageView::CheckBase => if reply.found() {
                ProgressView::Ask(
                    ReconciliationView { stage: ReconcileStageView::List, ..idle },
                    RequestView::List { path: idle.base },
                )
            } else {
                ProgressView::Done(Ok(Seq::empty()))
            },
            ReconcileStageView::List => match reply.entries() {
                Ok(entries) => ReconciliationView {
                    names: directory_names(entries),
                    next: 0,
                    ..idle
                }.enter_group(),
                Err(f) => ProgressView::Done(Err(ErrorView::Io(f))),
            },
            ReconcileStageView::ReadMembers => if 0 <= idle.next < idle.names.len() {
                match reply.text() {
                    Ok(content) => match first_member(content) {
                        Some(pid) => idle.ask_comm(pid),
                        None => idle.bury().enter_group(),
                    },
                    Err(_) => idle.bury().enter_group(),
                }
            } else {
                idle.enter_cleanup()
            },
            ReconcileStageView::ReadComm(pid) => if 0 <= idle.next < idle.names.len() {
                match reply.text() {
                    Ok(content) => ProgressView::Ask(
                        ReconciliationView {
                            stage: ReconcileStageView::ReadMemory(pid, trim(content)),
                            ..idle
                        },
                        RequestView::Read { path: join(idle.group_dir(), "memory.max"@) },
                    ),
                    Err(_) => idle.bury().enter_group(),
                }
            } else {
                idle.enter_cleanup()
            },
            ReconcileStageView::ReadMemory(pid, name) => if 0 <= idle.next < idle.names.len() {
                ProgressView::Ask(
                    ReconciliationView {
                        stage: ReconcileStageView::ReadCpu(
                            pid,
                            name,
                            match reply.text() {
                                Ok(content) => memory_max_of(content),
                                Err(_) => None,
                            },
                        ),
                        ..idle
                    },
                    RequestView::Read { path: join(idle.group_dir(), "cpu.max"@) },
                )
            } else {
                idle.enter_cleanup()
            },
            ReconcileStageView::ReadCpu(pid, name, memory) => if 0 <= idle.next
                < idle.names.len() {
                ProgressView::Ask(
                    ReconciliationView {
                        stage: ReconcileStageView::ReadIo(
                            pid,
                            name,
                            memory,
                            match reply.text() {
                                Ok(content) => cpu_quota_of(content),
                                Err(_) => None,
                            },
                        ),
                        ..idle
                    },
                    RequestView::Read { path: join(idle.group_dir(), "io.max"@) },
                )
            } else {
                idle.enter_cleanup()
            },
            ReconcileStageView::ReadIo(pid, name, memory, cpu) => {
                let io = match reply.text() {
                    Ok(content) => io_limits_of(content),
                    Err(_) => (None, None),
                };
                ReconciliationView {
                    results: idle.results.push(
                        ProcessStatusView {
                            pid,
                            name,
                            memory_max: memory,
                            cpu_quota: cpu,
                            io_read_bps: io.0,
                            io_write_bps: io.1,
                        },
                    ),
                    next: if idle.next < idle.names.len() {
                        idle.next + 1
                    } else {
                        idle.next
                    },
                    ..idle
                }.enter_group()
            },
            ReconcileStageView::Cleaning(c) => match c.resume(reply) {
                ProgressView::Ask(c2, r) => ProgressView::Ask(
                    ReconciliationView { stage: ReconcileStageView::Cleaning(c2), ..idle },
                    r,
                ),
                ProgressView::Done(_) => ReconciliationView {
                    next_dead: if idle.next_dead < idle.dead.len() {
                        idle.next_dead + 1
                    } else {
                        idle.next_dead
                    },
                    ..idle
                }.enter_cleanup(),
            },
        }
    }

    /// The statuses told so far or in the end by `p`.
    pub open spec fn told(p: ProgressView<ReconciliationView, Seq<ProcessStatusView>>) -> Seq<
        ProcessStatusView,
    > {
        match p {
            ProgressView::Ask(next, _) => next.results,
            ProgressView::Done(Ok(results)) => results,
            ProgressView::Done(Err(_)) => Seq::empty(),
        }
    }
}

/// From the group at `next` on, and from the dead group at `next_dead` on,
/// the operation tells no status that it did not hold before.
pub proof fn lemma_entering_tells_nothing_new(state: ReconciliationView)
    ensures
        ReconciliationView::told(state.enter_cleanup()) == state.results,
        ReconciliationView::told(state.enter_group()) == state.results,
        state.enter_group() matches ProgressView::Ask(next, _) ==> state.dead.len()
            <= next.dead.len() && next.dead.subrange(0, state.dead.len() as int) == state.dead,
    decreases state.names.len() - state.next, state.dead.len() - state.next_dead, 0int,
{
    lemma_cleanup_tells_nothing_new(state);
    if 0 <= state.next < state.names.len() {
        match group_kind(state.names[state.next]) {
            GroupKind::PidDirect(None) => {
                lemma_entering_tells_nothing_new(state.bury());
                assert(state.bury().dead.subrange(0, state.dead.len() as int) == state.dead);
                match state.enter_group() {
                    ProgressView::Ask(next, _) => {
                        assert(next.dead.subrange(0, state.dead.len() as int)
                            == next.dead.subrange(0, state.bury().dead.len() as int).subrange(
                            0,
                            state.dead.len() as int,
                        ));
                    },
                    _ => {},
                }
            },
            GroupKind::Foreign => {
                lemma_entering_tells_nothing_new(
                    ReconciliationView { next: state.next + 1, ..state },
                );
            },
            _ => {
                assert(state.dead.subrange(0, state.dead.len() as int) == state.dead);
            },
        }
    } else {
        lemma_cleanup_keeps_the_dead(state);
    }
}

/// Taking down the dead groups tells no status.
pub proof fn lemma_cleanup_tells_nothing_new(state: ReconciliationView)
    ensures
        ReconciliationView::told(state.enter_cleanup()) == state.results,
    decreases state.dead.len() - state.next_dead,
{
    if 0 <= state.next_dead < state.dead.len() {
        match CleanupView::begin(state.base, state.dead[state.next_dead]) {
            ProgressView::Done(_) => {
                lemma_cleanup_tells_nothing_new(
                    ReconciliationView { next_dead: state.next_dead + 1, ..state },
                );
            },
            _ => {},
        }
    }
}

/// Taking down the dead groups leaves the list of the dead as it is.
proof fn lemma_cleanup_keeps_the_dead(state: ReconciliationView)
    ensures
        state.enter_cleanup() matches ProgressView::Ask(next, _) ==> next.dead == state.dead,
    decreases state.dead.len() - state.next_dead,
{
    if 0 <= state.next_dead < state.dead.len() {
        match CleanupView::begin(state.base, state.dead[state.next_dead]) {
            ProgressView::Done(_) => {
                lemma_cleanup_keeps_the_dead(
                    ReconciliationView { next_dead: state.next_dead + 1, ..state },
                );
            },
            _ => {
                assert(state.dead.subrange(0, state.dead.len() as int) == state.dead);
            },
        }
    }
}

/// No status is told for a process whose entry is gone: when the host
/// cannot show the short name of a process, the statuses stay as they were
/// and the group of the process joins the dead, which are taken down before
/// the operation ends.
pub proof fn lemma_gone_process_is_not_reported(state: ReconciliationView, reply: ReplyView)
    requires
        state.stage is ReadComm,
        0 <= state.next < state.names.len(),
        reply.text().is_err(),
    ensures
        ReconciliationView::told(state.resume(reply)) == state.results,
        state.resume(reply) == state.idle().bury().enter_group(),
        state.idle().bury().dead == state.dead.push(state.names[state.next]),
{
    lemma_entering_tells_nothing_new(state.idle().bury());
}

/// A status is told only for a process whose short name the host has just
/// shown: the statuses grow by one in the step that follows the reading of
/// the limit files, and in no other.
pub proof fn lemma_statuses_grow_only_for_the_living(state: ReconciliationView, reply: ReplyView)
    ensures
        match state.stage {
            ReconcileStageView::ReadIo(pid, name, _, _) => ReconciliationView::told(
                state.resume(reply),
            ).len() == state.results.len() + 1 && ReconciliationView::told(
                state.resume(reply),
            ).last().pid == pid && ReconciliationView::told(state.resume(reply)).last().name
                == name,
            ReconcileStageView::CheckBase => true,
            ReconcileStageView::List => true,
            _ => ReconciliationView::told(state.resume(reply)) == state.results,
        },
{
    let idle = state.idle();
    match state.stage {
        ReconcileStageView::ReadIo(pid, name, memory, cpu) => {
            let io = match reply.text() {
                Ok(content) => io_limits_of(content),
                Err(_) => (None, None),
            };
            let after = ReconciliationView {
                results: idle.results.push(
                    ProcessStatusView {
                        pid,
                        name,
                        memory_max: memory,
                        cpu_quota: cpu,
                        io_read_bps: io.0,
                        io_write_bps: io.1,
                    },
                ),
                next: if idle.next < idle.names.len() {
                    idle.next + 1
                } else {
                    idle.next
                },
                ..idle
            };
            lemma_entering_tells_nothing_new(after);
        },
        ReconcileStageView::Cleaning(c) => {
            let after = ReconciliationView {
                next_dead: if idle.next_dead < idle.dead.len() {
                    idle.next_dead + 1
                } else {
                    idle.next_dead
                },
                ..idle
            };
            lemma_entering_tells_nothing_new(after);
        },
        ReconcileStageView::CheckBase => {},
        ReconcileStageView::List => {},
        _ => {
            lemma_entering_tells_nothing_new(idle);
            if 0 <= idle.next < idle.names.len() {
                lemma_entering_tells_nothing_new(idle.bury());
            }
        },
    }
}

// ---------------------------------------------------------------------------
// Whole runs
// ---------------------------------------------------------------------------

/// Where the operation stands after the host's replies `replies`, given
/// where it stood before them.
pub open spec fn after_replies(
    p: ProgressView<ReconciliationView, Seq<ProcessStatusView>>,
    replies: Seq<ReplyView>,
) -> ProgressView<ReconciliationView, Seq<ProcessStatusView>>
    decreases replies.len(),
{
    if replies.len() == 0 {
        p
    } else {
        match p {
            ProgressView::Ask(state, _) => after_replies(
                state.resume(replies[0]),
                replies.drop_first(),
            ),
            ProgressView::Done(_) => p,
        }
    }
}

/// The process that the host shows alive with this reply, with its short
/// name: the reply answers the question for the short name of a process,
/// and brings it.
pub open spec fn sighting(state: ReconciliationView, reply: ReplyView) -> Seq<(u32, Seq<char>)> {
    match (state.stage, reply.text()) {
        (ReconcileStageView::ReadComm(pid), Ok(content)) => if 0 <= state.next
            < state.names.len() {
            seq![(pid, trim(content))]
        } else {
            Seq::empty()
        },
        _ => Seq::empty(),
    }
}

/// The processes that the host shows alive in the course of the replies
/// `replies`, in order.
pub open spec fn sightings(
    p: ProgressView<ReconciliationView, Seq<ProcessStatusView>>,
    replies: Seq<ReplyView>,
) -> Seq<(u32, Seq<char>)>
    decreases replies.len(),
{
    if replies.len() == 0 {
        Seq::empty()
    } else {
        match p {
            ProgressView::Ask(state, _) => sighting(state, replies[0]) + sightings(
                state.resume(replies[0]),
                replies.drop_first(),
            ),
            ProgressView::Done(_) => Seq::empty(),
        }
    }
}

/// The processes that statuses are about, with their names.
pub open spec fn who(results: Seq<ProcessStatusView>) -> Seq<(u32, Seq<char>)> {
    Seq::new(results.len(), |i: int| (results[i].pid, results[i].name))
}

/// The process whose limit files are being read, if one is.
pub open spec fn pending(state: ReconciliationView) -> Seq<(u32, Seq<char>)> {
    match state.stage {
        ReconcileStageView::ReadMemory(pid, name) => seq![(pid, name)],
        ReconcileStageView::ReadCpu(pid, name, _) => seq![(pid, name)],
        ReconcileStageView::ReadIo(pid, name, _, _) => seq![(pid, name)],
        _ => Seq::empty(),
    }
}

/// The state is one that a run can be in: while a group's files are read,
/// there is such a group; and before the groups are known, no status is
/// held.
pub open spec fn consistent(state: ReconciliationView) -> bool {
    match state.stage {
        ReconcileStageView::CheckBase => state.results.len() == 0,
        ReconcileStageView::List => state.results.len() == 0,
        ReconcileStageView::Cleaning(_) => true,
        _ => 0 <= state.next < state.names.len(),
    }
}

/// The processes that the operation has told of or is about to tell of.
pub open spec fn accounted(p: ProgressView<ReconciliationView, Seq<ProcessStatusView>>) -> Seq<
    (u32, Seq<char>),
> {
    match p {
        ProgressView::Ask(state, _) => who(state.results) + pending(state),
        ProgressView::Done(Ok(results)) => who(results),
        ProgressView::Done(Err(_)) => Seq::empty(),
    }
}

/// The operation can go on from here, or has ended without failure.
pub open spec fn sound(p: ProgressView<ReconciliationView, Seq<ProcessStatusView>>) -> bool {
    match p {
        ProgressView::Ask(state, _) => consistent(state),
        ProgressView::Done(Ok(_)) => true,
        ProgressView::Done(Err(_)) => false,
    }
}

/// Going on to the next group or the next dead group holds on to the
/// statuses and reads no limit files yet.
proof fn lemma_entering_accounts(state: ReconciliationView)
    ensures
        sound(state.enter_cleanup()),
        accounted(state.enter_cleanup()) == who(state.results),
        sound(state.enter_group()),
        accounted(state.enter_group()) == who(state.results),
    decreases state.names.len() - state.next, state.dead.len() - state.next_dead, 0int,
{
    lemma_cleanup_accounts(state);
    if 0 <= state.next < state.names.len() {
        match group_kind(state.names[state.next]) {
            GroupKind::PidDirect(None) => {
                lemma_entering_accounts(state.bury());
            },
            GroupKind::Foreign => {
                lemma_entering_accounts(ReconciliationView { next: state.next + 1, ..state });
            },
            _ => {
                assert(who(state.results) + Seq::<(u32, Seq<char>)>::empty() =~= who(
                    state.results,
                ));
            },
        }
    }
}

/// Going on to the next dead group holds on to the statuses.
proof fn lemma_cleanup_accounts(state: ReconciliationView)
    ensures
        sound(state.enter_cleanup()),
        accounted(state.enter_cleanup()) == who(state.results),
    decreases state.dead.len() - state.next_dead,
{
    if 0 <= state.next_dead < state.dead.len() {
        match CleanupView::begin(state.base, state.dead[state.next_dead]) {
            ProgressView::Done(_) => {
                lemma_cleanup_accounts(
                    ReconciliationView { next_dead: state.next_dead + 1, ..state },
                );
            },
            _ => {
                assert(who(state.results) + Seq::<(u32, Seq<char>)>::empty() =~= who(
                    state.results,
                ));
            },
        }
    }
}

/// One step accounts for exactly the processes accounted for before, and
/// the process that the host showed alive with the reply, if it did.
proof fn lemma_step_accounts(state: ReconciliationView, reply: ReplyView)
    requires
        consistent(state),
    ensures
        sound(state.resume(reply)) ==> accounted(state.resume(reply)) == who(state.results)
            + pending(state) + sighting(state, reply),
        sound(state.resume(reply)) || state.resume(reply) matches ProgressView::Done(Err(_)),
{
    let idle = state.idle();
    let none = Seq::<(u32, Seq<char>)>::empty();
    assert(who(state.results) + none =~= who(state.results));
    assert(who(state.results) + none + none =~= who(state.results));
    match state.stage {
        ReconcileStageView::CheckBase => {
            assert(who(Seq::<ProcessStatusView>::empty()) =~= none);
            assert(who(state.results) =~= none);
        },
        ReconcileStageView::List => {
            match reply.entries() {
                Ok(entries) => {
                    lemma_entering_accounts(
                        ReconciliationView { names: directory_names(entries), next: 0, ..idle },
                    );
                },
                Err(_) => {},
            }
        },
        ReconcileStageView::ReadMembers => {
            lemma_entering_accounts(idle.bury());
        },
        ReconcileStageView::ReadComm(pid) => {
            lemma_entering_accounts(idle.bury());
            match reply.text() {
                Ok(content) => {
                    assert(who(state.results) + none + seq![(pid, trim(content))] =~= who(
                        state.results,
                    ) + seq![(pid, trim(content))]);
                },
                Err(_) => {},
            }
        },
        ReconcileStageView::ReadMemory(pid, name) => {
            assert(who(state.results) + seq![(pid, name)] + none =~= who(state.results)
                + seq![(pid, name)]);
        },
        ReconcileStageView::ReadCpu(pid, name, _) => {
            assert(who(state.results) + seq![(pid, name)] + none =~= who(state.results)
                + seq![(pid, name)]);
        },
        ReconcileStageView::ReadIo(pid, name, memory, cpu) => {
            let io = match reply.text() {
                Ok(content) => io_limits_of(content),
                Err(_) => (None, None),
            };
            let status = ProcessStatusView {
                pid,
                name,
                memory_max: memory,
                cpu_quota: cpu,
                io_read_bps: io.0,
                io_write_bps: io.1,
            };
            let after = ReconciliationView {
                results: idle.results.push(status),
                next: if idle.next < idle.names.len() {
                    idle.next + 1
                } else {
                    idle.next
                },
                ..idle
            };
            lemma_entering_accounts(after);
            assert(who(state.results.push(status)) =~= who(state.results) + seq![(pid, name)]);
            assert(who(state.results) + seq![(pid, name)] + none =~= who(state.results)
                + seq![(pid, name)]);
        },
        ReconcileStageView::Cleaning(c) => {
            let after = ReconciliationView {
                next_dead: if idle.next_dead < idle.dead.len() {
                    idle.next_dead + 1
                } else {
                    idle.next_dead
                },
                ..idle
            };
            lemma_entering_accounts(after);
        },
    }
}

/// A run accounts for exactly the processes that the host showed alive in
/// its course, in that order, unless it fails.
proof fn lemma_run_accounts(
    p: ProgressView<ReconciliationView, Seq<ProcessStatusView>>,
    replies: Seq<ReplyView>,
)
    requires
        sound(p),
    ensures
        sound(after_replies(p, replies)) ==> accounted(after_replies(p, replies)) == accounted(p)
            + sightings(p, replies),
        sound(after_replies(p, replies)) || after_replies(p, replies) matches ProgressView::Done(
            Err(_),
        ),
    decreases replies.len(),
{
    let none = Seq::<(u32, Seq<char>)>::empty();
    assert(accounted(p) + none =~= accounted(p));
    if replies.len() > 0 {
        match p {
            ProgressView::Ask(state, _) => {
                let next = state.resume(replies[0]);
                lemma_step_accounts(state, replies[0]);
                if sound(next) {
                    lemma_run_accounts(next, replies.drop_first());
                    assert(accounted(p) + sighting(state, replies[0]) + sightings(
                        next,
                        replies.drop_first(),
                    ) =~= accounted(p) + (sighting(state, replies[0]) + sightings(
                        next,
                        replies.drop_first(),
                    )));
                } else {
                    assert(after_replies(next, replies.drop_first()) == next) by {
                        lemma_done_stays(next, replies.drop_first());
                    }
                }
            },
            ProgressView::Done(_) => {},
        }
    }
}

/// An operation that is over stays over.
proof fn lemma_done_stays(
    p: ProgressView<ReconciliationView, Seq<ProcessStatusView>>,
    replies: Seq<ReplyView>,
)
    requires
        p is Done,
    ensures
        after_replies(p, replies) == p,
    decreases replies.len(),
{
}

/// The statuses that a query tells are about exactly the processes that
/// the host showed alive while the query ran, one status for each, in
/// order. No status is told for a process whose entry was gone.
pub proof fn lemma_statuses_are_of_the_living(
    base: Seq<char>,
    replies: Seq<ReplyView>,
    results: Seq<ProcessStatusView>,
)
    requires
        after_replies(ReconciliationView::begin(base), replies) == ProgressView::<
            ReconciliationView,
            Seq<ProcessStatusView>,
        >::Done(Ok(results)),
    ensures
        who(results) == sightings(ReconciliationView::begin(base), replies),
{
    let start = ReconciliationView::begin(base);
    lemma_run_accounts(start, replies);
    assert(who(Seq::<ProcessStatusView>::empty()) =~= Seq::<(u32, Seq<char>)>::empty());
    assert(accounted(start) =~= Seq::<(u32, Seq<char>)>::empty());
    assert(Seq::<(u32, Seq<char>)>::empty() + sightings(start, replies) =~= sightings(
        start,
        replies,
    ));
}

impl Reconciliation {
    /// Starts telling the status of the processes managed under `base`.
    pub fn begin(base: &str) -> (p: Progress<Reconciliation, Vec<ProcessStatus>>)
        ensures
            p.deep_view() == ReconciliationView::begin(base@),
    {
        let state = Reconciliation {
            base: base.to_string(),
            stage: ReconcileStage::CheckBase,
            names: Vec::new(),
            next: 0,
            results: Vec::new(),
            dead: Vec::new(),
            next_dead: 0,
        };
        assert(string_views(state.names@) =~= Seq::<Seq<char>>::empty());
        assert(string_views(state.dead@) =~= Seq::<Seq<char>>::empty());
        assert(state.results.deep_view() =~= Seq::<ProcessStatusView>::empty());
        Progress::Ask(state, Request::Exists { path: base.to_string() })
    }

    fn group_dir(&self) -> (r: String)
        requires
            self.next < self.names@.len(),
        ensures
            r@ == self.deep_view().group_dir(),
    {
        join_path(self.base.as_str(), self.names[self.next].as_str())
    }

    fn ask_comm(self, pid: u32) -> (p: Progress<Reconciliation, Vec<ProcessStatus>>)
        ensures
            p.deep_view() == self.deep_view().ask_comm(pid),
    {
        let request = Request::Read { path: comm_path(pid) };
        Progress::Ask(Reconciliation { stage: ReconcileStage::ReadComm(pid), ..self }, request)
    }

    fn bury(self) -> (r: Reconciliation)
        requires
            self.next < self.names@.len(),
        ensures
            r.deep_view() == self.deep_view().bury(),
    {
        let count = self.names.len();
        let mut dead = self.dead;
        let ghost before = string_views(dead@);
        dead.push(self.names[self.next].clone());
        assert(string_views(dead@) =~= before.push(self.names@[self.next as int]@));
        Reconciliation {
            base: self.base,
            stage: self.stage,
            names: self.names,
            next: self.next + 1,
            results: self.results,
            dead,
            next_dead: self.next_dead,
        }
    }

    fn enter_group(self) -> (p: Progress<Reconciliation, Vec<ProcessStatus>>)
        ensures
            p.deep_view() == self.deep_view().enter_group(),
        decreases self.names@.len() - self.next,
    {
        if self.next < self.names.len() {
            match classify(self.names[self.next].as_str()) {
                GroupKind::PidDirect(Some(pid)) => self.ask_comm(pid),
                GroupKind::PidDirect(None) => self.bury().enter_group(),
                GroupKind::LaunchDerived => {
                    let dir = self.group_dir();
                    let request = Request::Read { path: join_path(dir.as_str(), "cgroup.procs") };
                    Progress::Ask(
                        Reconciliation { stage: ReconcileStage::ReadMembers, ..self },
                        request,
                    )
                },
                GroupKind::Foreign => {
                    let state = Reconciliation { next: self.next + 1, ..self };
                    state.enter_group()
                },
            }
        } else {
            self.enter_cleanup()
        }
    }

    fn enter_cleanup(self) -> (p: Progress<Reconciliation, Vec<ProcessStatus>>)
        ensures
            p.deep_view() == self.deep_view().enter_cleanup(),
        decreases self.dead@.len() - self.next_dead,
    {
        if self.next_dead < self.dead.len() {
            match Cleanup::begin(self.base.as_str(), self.dead[self.next_dead].as_str()) {
                Progress::Ask(c, r) => Progress::Ask(
                    Reconciliation { stage: ReconcileStage::Cleaning(c), ..self },
                    r,
                ),
                Progress::Done(_) => {
                    let state = Reconciliation { next_dead: self.next_dead + 1, ..self };
                    state.enter_cleanup()
                },
            }
        } else {
            Progress::Done(Ok(self.results))
        }
    }

    /// Resumes the operation with the host's reply to its last request.
    pub fn resume(self, reply: Reply) -> (p: Progress<Reconciliation, Vec<ProcessStatus>>)
        ensures
            p.deep_view() == self.deep_view().resume(reply@),
    {
        let Reconciliation { base, stage, names, next, results, dead, next_dead } = self;
        match stage {
            ReconcileStage::CheckBase => if reply.is_found() {
                let request = Request::List { path: base.clone() };
                Progress::Ask(
                    Reconciliation {
                        base,
                        stage: ReconcileStage::List,
                        names,
                        next,
                        results,
                        dead,
                        next_dead,
                    },
                    request,
                )
            } else {
                let none: Vec<ProcessStatus> = Vec::new();
                assert(none.deep_view() =~= Seq::<ProcessStatusView>::empty());
                Progress::Done(Ok(none))
            },
            ReconcileStage::List => match reply.into_entries() {
                Ok(entries) => {
                    let state = Reconciliation {
                        base,
                        stage: ReconcileStage::List,
                        names: directories(entries),
                        next: 0,
                        results,
                        dead,
                        next_dead,
                    };
                    state.enter_group()
                },
                Err(f) => Progress::Done(Err(Error::Io(f))),
            },
            ReconcileStage::ReadMembers => {
                let state = Reconciliation {
                    base,
                    stage: ReconcileStage::List,
                    names,
                    next,
                    results,
                    dead,
                    next_dead,
                };
                if state.next < state.names.len() {
                    let pid = match reply.into_text() {
                        Ok(content) => read_first_pid(content.as_str()),
                        Err(_) => None,
                    };
                    match pid {
                        Some(pid) => state.ask_comm(pid),
                        None => state.bury().enter_group(),
                    }
                } else {
                    state.enter_cleanup()
                }
            },
            ReconcileStage::ReadComm(pid) => {
                let state = Reconciliation {
                    base,
                    stage: ReconcileStage::List,
                    names,
                    next,
                    results,
                    dead,
                    next_dead,
                };
                if state.next < state.names.len() {
                    match reply.into_text() {
                        Ok(content) => {
                            let dir = state.group_dir();
                            let request = Request::Read {
                                path: join_path(dir.as_str(), "memory.max"),
                            };
                            let name = trimmed_string(content.as_str());
                            Progress::Ask(
                                Reconciliation {
                                    stage: ReconcileStage::ReadMemory(pid, name),
                                    ..state
                                },
                                request,
                            )
                        },
                        Err(_) => state.bury().enter_group(),
                    }
                } else {
                    state.enter_cleanup()
                }
            },
            ReconcileStage::ReadMemory(pid, name) => {
                let state = Reconciliation {
                    base,
                    stage: ReconcileStage::List,
                    names,
                    next,
                    results,
                    dead,
                    next_dead,
                };
                if state.next < state.names.len() {
                    let memory = match reply.into_text() {
                        Ok(content) => parse_memory_max(content.as_str()),
                        Err(_) => None,
                    };
                    let dir = state.group_dir();
                    let request = Request::Read { path: join_path(dir.as_str(), "cpu.max") };
                    Progress::Ask(
                        Reconciliation {
                            stage: ReconcileStage::ReadCpu(pid, name, memory),
                            ..state
                        },
                        request,
                    )
                } else {
                    state.enter_cleanup()
                }
            },
            ReconcileStage::ReadCpu(pid, name, memory) => {
                let state = Reconciliation {
                    base,
                    stage: ReconcileStage::List,
                    names,
                    next,
                    results,
                    dead,
                    next_dead,
                };
                if state.next < state.names.len() {
                    let cpu = match reply.into_text() {
                        Ok(content) => parse_cpu_quota(content.as_str()),
                        Err(_) => None,
                    };
                    let dir = state.group_dir();
                    let request = Request::Read { path: join_path(dir.as_str(), "io.max") };
                    Progress::Ask(
                        Reconciliation {
                            stage: ReconcileStage::ReadIo(pid, name, memory, cpu),
                            ..state
                        },
                        request,
                    )
                } else {
                    state.enter_cleanup()
                }
            },
            ReconcileStage::ReadIo(pid, name, memory, cpu) => {
                let io = match reply.into_text() {
                    Ok(content) => parse_io_limits(content.as_str()),
                    Err(_) => (None, None),
                };
                let mut results = results;
                let ghost before = results.deep_view();
                let status = ProcessStatus {
                    pid,
                    name,
                    memory_max: memory,
                    cpu_quota: cpu,
                    io_read_bps: io.0,
                    io_write_bps: io.1,
                };
                let ghost told = status.deep_view();
                results.push(status);
                assert(results.deep_view() =~= before.push(told));
                let state = Reconciliation {
                    base,
                    stage: ReconcileStage::List,
                    next: if next < names.len() {
                        next + 1
                    } else {
                        next
                    },
                    names,
                    results,
                    dead,
                    next_dead,
                };
                state.enter_group()
            },
            ReconcileStage::Cleaning(c) => match c.resume(reply) {
                Progress::Ask(c2, r) => Progress::Ask(
                    Reconciliation {
                        base,
                        stage: ReconcileStage::Cleaning(c2),
                        names,
                        next,
                        results,
                        dead,
                        next_dead,
                    },
                    r,
                ),
                Progress::Done(_) => {
                    let state = Reconciliation {
                        base,
                        stage: ReconcileStage::List,
                        names,
                        next,
                        results,
                        next_dead: if next_dead < dead.len() {
                            next_dead + 1
                        } else {
                            next_dead
                        },
                        dead,
                    };
                    state.enter_cleanup()
                },
            },
        }
    }
}

/// Starts telling the status of all processes that `manager` manages.
pub fn get_managed_processes(manager: &crate::cgroup::CgroupManager) -> (p: Progress<
    Reconciliation,
    Vec<ProcessStatus>,
>)
    ensures
        p.deep_view() == ReconciliationView::begin(manager.deep_view()),
{
    Reconciliation::begin(manager.base_path())
}

} // verus!
