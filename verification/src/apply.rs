//! Putting a limit on a running process.

use crate::cleanup::{Cleanup, CleanupView};
use crate::error::{Error, ErrorView, IoFailure};
use crate::host::{
    DirEntryView, Progress, ProgressView, Reply, ReplyView, Request, RequestView,
};
use crate::kernel::{
    join, join_path, lemma_pid_group_name_valid, lemma_rejection_iff_invalid, pid_group,
    pid_group_name,
};
use crate::limit::{Limit, LimitView};
use crate::prepare::{Preparation, PreparationView};
use crate::scan::{
    directory_names, holder, membership_replies, membership_reply, scan_replies, unfailed, Scan,
    ScanView,
};
use crate::text::{chars_of, decimal_chars, decimal_digits, push_chars, push_str, string_of};
use crate::writer::{
    cgroup_failure, lemma_writer_stays_inside, touches_only_limits, LimitWriter, LimitWriterView,
};
use vstd::prelude::*;

verus! {

/// The error of an attempt to limit a process that another group manages
/// already.
pub open spec fn conflict(pid: u32, group: Seq<char>) -> ErrorView {
    ErrorView::InvalidArgs(
        "process "@ + decimal_digits(pid as nat) + " is already managed in cgroup '"@ + group
            + "'"@,
    )
}

/// The action that puts the process `pid` into a group, as errors name it.
pub open spec fn adding(pid: u32) -> Seq<char> {
    "failed to add process "@ + decimal_digits(pid as nat) + ": "@
}

/// Where the host shows the process `pid`.
pub open spec fn process_dir(pid: u32) -> Seq<char> {
    "/proc/"@ + decimal_digits(pid as nat)
}

/// What is asked of the host to put the process `pid` into the group at
/// `path`: its identifier is written to the membership file.
pub open spec fn enrol(path: Seq<char>, pid: u32) -> RequestView {
    RequestView::Write { path: join(path, "cgroup.procs"@), content: decimal_digits(pid as nat) }
}

/// Builds the request that puts the process `pid` into the group at `path`.
pub fn enrol_request(path: &str, pid: u32) -> (r: Request)
    ensures
        r@ == enrol(path@, pid),
{
    let digits = decimal_chars(pid as u64);
    Request::Write { path: join_path(path, "cgroup.procs"), content: string_of(digits.as_slice()) }
}

/// Builds the error for a process that could not be put into a group.
pub fn enrol_failure(pid: u32, failure: &IoFailure) -> (e: Error)
    ensures
        e@ == cgroup_failure(adding(pid), failure@),
{
    let mut out = chars_of("failed to add process ");
    let digits = decimal_chars(pid as u64);
    push_chars(&mut out, digits.as_slice());
    push_str(&mut out, ": ");
    push_str(&mut out, failure.message.as_str());
    Error::Cgroup(string_of(out.as_slice()))
}

/// Which part of an [`Application`] is under way.
#[derive(Debug)]
pub enum ApplyStage {
    /// The group that holds the process is looked for.
    Scanning(Scan),
    /// The process has its own group already: its limits are rewritten.
    Updating(LimitWriter),
    /// A group of its own is made for the process.
    Preparing(Preparation),
    /// The process is put into the new group at this path.
    Populating(String),
    /// The process could not be put in: the new group is taken down again.
    Retreating(Cleanup, Error),
    /// The host is asked whether the process exists at all.
    Probing(Error),
}

/// The mathematical content of an [`ApplyStage`].
pub enum ApplyStageView {
    Scanning(ScanView),
    Updating(LimitWriterView),
    Preparing(PreparationView),
    Populating(Seq<char>),
    Retreating(CleanupView, ErrorView),
    Probing(ErrorView),
}

/// The operation that puts a limit on a running process.
#[derive(Debug)]
pub struct Application {
    base: String,
    pid: u32,
    limit: Limit,
    stage: ApplyStage,
}

/// The mathematical content of an [`Application`].
pub struct ApplicationView {
    /// The directory under which managed groups are created.
    pub base: Seq<char>,
    /// The process to limit.
    pub pid: u32,
    /// The limit to put on it.
    pub limit: LimitView,
    /// The part under way.
    pub stage: ApplyStageView,
}

impl DeepView for Application {
    type V = ApplicationView;

    closed spec fn deep_view(&self) -> ApplicationView {
        ApplicationView {
            base: self.base@,
            pid: self.pid,
            limit: self.limit@,
            stage: match self.stage {
                ApplyStage::Scanning(s) => ApplyStageView::Scanning(s.deep_view()),
                ApplyStage::Updating(w) => ApplyStageView::Updating(w.deep_view()),
                ApplyStage::Preparing(p) => ApplyStageView::Preparing(p.deep_view()),
                ApplyStage::Populating(path) => ApplyStageView::Populating(path@),
                ApplyStage::Retreating(c, e) => ApplyStageView::Retreating(c.deep_view(), e@),
                ApplyStage::Probing(e) => ApplyStageView::Probing(e@),
            },
        }
    }
}

impl ApplicationView {
    /// The operation from its start.
    pub open spec fn begin(base: Seq<char>, pid: u32, limit: LimitView) -> ProgressView<
        ApplicationView,
        (),
    > {
        ApplicationView::after_scan(base, pid, limit, ScanView::begin(base, pid))
    }

    /// The operation, given the progress of the search for the group that
    /// holds the process.
    ///
    /// A process in the group that bears its own identifier has its limits
    /// rewritten in place and is not moved. A process in any other managed
    /// group is not touched: the operation fails with a conflict. A process
    /// in no managed group gets a group of its own.
    pub open spec fn after_scan(
        base: Seq<char>,
        pid: u32,
        limit: LimitView,
        p: ProgressView<ScanView, Option<Seq<char>>>,
    ) -> ProgressView<ApplicationView, ()> {
        match p {
            ProgressView::Ask(s, r) => ProgressView::Ask(
                ApplicationView { base, pid, limit, stage: ApplyStageView::Scanning(s) },
                r,
            ),
            ProgressView::Done(Ok(Some(group))) => if group == pid_group_name(pid) {
                ApplicationView::after_update(
                    base,
                    pid,
                    limit,
                    LimitWriterView::initial(join(base, group), limit).begin(),
                )
            } else {
                ProgressView::Done(Err(conflict(pid, group)))
            },
            ProgressView::Done(Ok(None)) => ApplicationView::after_prepare(
                base,
                pid,
                limit,
                PreparationView::begin(base, pid_group_name(pid), limit),
            ),
            ProgressView::Done(Err(e)) => ProgressView::Done(Err(e)),
        }
    }

    /// The operation, given the progress of rewriting the limits.
    pub open spec fn after_update(
        base: Seq<char>,
        pid: u32,
        limit: LimitView,
        p: ProgressView<LimitWriterView, ()>,
    ) -> ProgressView<ApplicationView, ()> {
        match p {
            ProgressView::Ask(w, r) => ProgressView::Ask(
                ApplicationView { base, pid, limit, stage: ApplyStageView::Updating(w) },
                r,
            ),
            ProgressView::Done(result) => ProgressView::Done(result),
        }
    }

    /// The operation, given the progress of making the new group: once the
    /// group stands with its limits, the process is put into it.
    pub open spec fn after_prepare(
        base: Seq<char>,
        pid: u32,
        limit: LimitView,
        p: ProgressView<PreparationView, Seq<char>>,
    ) -> ProgressView<ApplicationView, ()> {
        match p {
            ProgressView::Ask(s, r) => ProgressView::Ask(
                ApplicationView { base, pid, limit, stage: ApplyStageView::Preparing(s) },
                r,
            ),
            ProgressView::Done(Ok(path)) => ProgressView::Ask(
                ApplicationView { base, pid, limit, stage: ApplyStageView::Populating(path) },
                enrol(path, pid),
            ),
            ProgressView::Done(Err(e)) => ProgressView::Done(Err(e)),
        }
    }

    /// The operation, given the progress of taking the new group down
    /// again: when that is over, however it ended, the host is asked
    /// whether the process exists.
    pub open spec fn after_retreat(
        base: Seq<char>,
        pid: u32,
        limit: LimitView,
        cause: ErrorView,
        p: ProgressView<CleanupView, ()>,
    ) -> ProgressView<ApplicationView, ()> {
        match p {
            ProgressView::Ask(c, r) => ProgressView::Ask(
                ApplicationView { base, pid, limit, stage: ApplyStageView::Retreating(c, cause) },
                r,
            ),
            ProgressView::Done(_) => ProgressView::Ask(
                ApplicationView { base, pid, limit, stage: ApplyStageView::Probing(cause) },
                RequestView::Exists { path: process_dir(pid) },
            ),
        }
    }

    /// The operation after the host's reply.
    ///
    /// If the process cannot be put into its new group, the group is taken
    /// down again, and the error tells that the process does not exist if
    /// the host does not show it any more.
    pub open spec fn resume(self, reply: ReplyView) -> ProgressView<ApplicationView, ()> {
        match self.stage {
            ApplyStageView::Scanning(s) => ApplicationView::after_scan(
                self.base,
                self.pid,
                self.limit,
                s.resume(reply),
            ),
            ApplyStageView::Updating(w) => ApplicationView::after_update(
                self.base,
                self.pid,
                self.limit,
                w.resume(reply),
            ),
            ApplyStageView::Preparing(p) => ApplicationView::after_prepare(
                self.base,
                self.pid,
                self.limit,
                p.resume(reply),
            ),
            ApplyStageView::Populating(_) => match reply.done() {
                Ok(_) => ProgressView::Done(Ok(())),
                Err(f) => ApplicationView::after_retreat(
                    self.base,
                    self.pid,
                    self.limit,
                    cgroup_failure(adding(self.pid), f),
                    CleanupView::begin(self.base, pid_group_name(self.pid)),
                ),
            },
            ApplyStageView::Retreating(c, cause) => ApplicationView::after_retreat(
                self.base,
                self.pid,
                self.limit,
                cause,
                c.resume(reply),
            ),
            ApplyStageView::Probing(cause) => if reply.found() {
                ProgressView::Done(Err(cause))
            } else {
                ProgressView::Done(Err(ErrorView::ProcessNotFound(self.pid)))
            },
        }
    }

    /// The search for the group of the process is still under way.
    pub open spec fn is_scanning(self) -> bool {
        self.stage is Scanning
    }

    /// The limits of the process's own group are being rewritten.
    pub open spec fn is_updating(self) -> bool {
        self.stage is Updating
    }
}

/// The group in which the search finds the process with this reply, if the
/// search ends with it and finds one.
pub open spec fn found_group(state: ApplicationView, reply: ReplyView) -> Option<Seq<char>> {
    match state.stage {
        ApplyStageView::Scanning(s) => match s.resume(reply) {
            ProgressView::Done(Ok(found)) => found,
            _ => None,
        },
        _ => None,
    }
}

/// A process found in a managed group that is not its own is not taken
/// over: the operation ends with a conflict, and while it was searching it
/// has asked the host for nothing that changes anything.
pub proof fn lemma_conflict_leaves_host_untouched(state: ApplicationView, reply: ReplyView)
    requires
        state.is_scanning(),
    ensures
        match ApplicationView::begin(state.base, state.pid, state.limit) {
            ProgressView::Ask(first, request) => first.is_scanning() && request.is_read_only(),
            ProgressView::Done(_) => false,
        },
        match state.resume(reply) {
            ProgressView::Ask(next, request) => next.is_scanning() ==> request.is_read_only(),
            ProgressView::Done(_) => true,
        },
        match found_group(state, reply) {
            Some(group) => group != pid_group_name(state.pid) ==> state.resume(reply)
                == ProgressView::<ApplicationView, ()>::Done(Err(conflict(state.pid, group))),
            None => true,
        },
{
}

/// The operation asks for nothing but the limit files of the process's own
/// group, or for something that changes nothing, and goes on rewriting.
pub open spec fn only_rewrites(state: ApplicationView, p: ProgressView<ApplicationView, ()>) -> bool {
    match p {
        ProgressView::Ask(next, request) => next.is_updating() && next.base == state.base
            && next.pid == state.pid && touches_only_limits(
            join(state.base, pid_group_name(state.pid)),
            request,
        ),
        ProgressView::Done(_) => true,
    }
}

/// The limits of the group at `path` are being rewritten.
pub open spec fn rewrites(state: ApplicationView, path: Seq<char>) -> bool {
    match state.stage {
        ApplyStageView::Updating(w) => w.path == path,
        _ => false,
    }
}

/// Limiting a process that has its own group already makes no new group
/// and does not move the process: from the moment its group is found, the
/// operation only writes the limit files of that group and reads about
/// block devices.
pub proof fn lemma_update_keeps_one_group(state: ApplicationView, reply: ReplyView)
    ensures
        found_group(state, reply) == Some(pid_group_name(state.pid)) ==> only_rewrites(
            state,
            state.resume(reply),
        ) && (state.resume(reply) matches ProgressView::Ask(next, _) ==> rewrites(
            next,
            join(state.base, pid_group_name(state.pid)),
        )),
        rewrites(state, join(state.base, pid_group_name(state.pid))) ==> only_rewrites(
            state,
            state.resume(reply),
        ) && (state.resume(reply) matches ProgressView::Ask(next, _) ==> rewrites(
            next,
            join(state.base, pid_group_name(state.pid)),
        )),
{
    match state.stage {
        ApplyStageView::Updating(w) => {
            lemma_writer_stays_inside(w, reply);
        },
        _ => {},
    }
    let fresh = LimitWriterView::initial(
        join(state.base, pid_group_name(state.pid)),
        state.limit,
    );
    lemma_writer_stays_inside(fresh, reply);
}

/// Where the operation stands after the host's replies `replies`, given
/// where it stood before them.
pub open spec fn after_replies(
    p: ProgressView<ApplicationView, ()>,
    replies: Seq<ReplyView>,
) -> ProgressView<ApplicationView, ()>
    decreases replies.len(),
{
    if replies.len() == 0 {
        p
    } else {
        match p {
            ProgressView::Ask(state, _) => after_replies(
                state.resume(replies[0]),
                replies.drop_first(),
            ),
            ProgressView::Done(_) => p,
        }
    }
}

/// The requests that the operation makes while the host replies with
/// `replies`, the one that is open in the end included.
pub open spec fn requests_made(
    p: ProgressView<ApplicationView, ()>,
    replies: Seq<ReplyView>,
) -> Seq<RequestView>
    decreases replies.len(),
{
    match p {
        ProgressView::Ask(state, request) => if replies.len() == 0 {
            seq![request]
        } else {
            seq![request] + requests_made(state.resume(replies[0]), replies.drop_first())
        },
        ProgressView::Done(_) => Seq::empty(),
    }
}

/// The operation is past the search, and if it holds a cause of failure,
/// that cause is no refusal of an argument.
pub open spec fn past_search(state: ApplicationView) -> bool {
    match state.stage {
        ApplyStageView::Scanning(_) => false,
        ApplyStageView::Retreating(_, cause) => !(cause is InvalidArgs),
        ApplyStageView::Probing(cause) => !(cause is InvalidArgs),
        _ => true,
    }
}

/// The operation has not ended with the refusal of an argument, and if it
/// goes on, it is past the search.
pub open spec fn goes_on_past_search(p: ProgressView<ApplicationView, ()>) -> bool {
    match p {
        ProgressView::Ask(next, _) => past_search(next),
        ProgressView::Done(Ok(_)) => true,
        ProgressView::Done(Err(e)) => !(e is InvalidArgs),
    }
}

/// Once past the search, the operation never ends with the refusal of an
/// argument.
proof fn lemma_no_refusal_past_search(state: ApplicationView, reply: ReplyView)
    requires
        past_search(state),
    ensures
        goes_on_past_search(state.resume(reply)),
{
    crate::cleanup::lemma_cleanup_is_best_effort(
        match state.stage {
            ApplyStageView::Retreating(c, _) => c,
            _ => arbitrary(),
        },
        reply,
    );
    lemma_pid_group_name_valid(state.pid);
    lemma_rejection_iff_invalid(pid_group_name(state.pid));
}

/// The search itself ends with a conflict, goes on searching, or hands over
/// to a part that never ends with the refusal of an argument.
proof fn lemma_search_hands_over(
    base: Seq<char>,
    pid: u32,
    limit: LimitView,
    p: ProgressView<ScanView, Option<Seq<char>>>,
)
    requires
        p.is_harmless(),
        unfailed(p),
    ensures
        match ApplicationView::after_scan(base, pid, limit, p) {
            ProgressView::Ask(next, request) => (next.is_scanning() && request.is_read_only())
                || past_search(next),
            ProgressView::Done(Ok(_)) => true,
            ProgressView::Done(Err(e)) => e is InvalidArgs ==> (match p {
                ProgressView::Done(Ok(Some(group))) => group != pid_group_name(pid) && e
                    == conflict(pid, group),
                _ => false,
            }),
        },
{
    lemma_pid_group_name_valid(pid);
    lemma_rejection_iff_invalid(pid_group_name(pid));
}

/// The operation is searching and asks for something that changes nothing,
/// or it is over.
pub open spec fn starts_searching(p: ProgressView<ApplicationView, ()>) -> bool {
    match p {
        ProgressView::Ask(state, request) => state.is_scanning() && request.is_read_only(),
        ProgressView::Done(_) => true,
    }
}

/// The operation has ended with the refusal of an argument.
pub open spec fn ends_refused(p: ProgressView<ApplicationView, ()>) -> bool {
    match p {
        ProgressView::Done(Err(e)) => e is InvalidArgs,
        _ => false,
    }
}

/// A run that ends with the refusal of an argument has changed nothing on
/// the host: every request it made only asked. (The only argument that is
/// ever refused is the process, when another group manages it.)
pub proof fn lemma_refusal_left_host_untouched(
    p: ProgressView<ApplicationView, ()>,
    replies: Seq<ReplyView>,
    i: int,
)
    requires
        starts_searching(p),
        ends_refused(after_replies(p, replies)),
        0 <= i < requests_made(p, replies).len(),
    ensures
        requests_made(p, replies)[i].is_read_only(),
    decreases replies.len(),
{
    match p {
        ProgressView::Ask(state, request) => {
            if replies.len() > 0 {
                let next = state.resume(replies[0]);
                let rest = replies.drop_first();
                match state.stage {
                    ApplyStageView::Scanning(scan) => {
                        crate::scan::lemma_scan_is_harmless(scan, replies[0]);
                        lemma_search_hands_over(
                            state.base,
                            state.pid,
                            state.limit,
                            scan.resume(replies[0]),
                        );
                    },
                    _ => {},
                }
                match next {
                    ProgressView::Ask(after, _) => {
                        if past_search(after) {
                            lemma_never_refused(next, rest);
                        } else if i > 0 {
                            lemma_refusal_left_host_untouched(next, rest, i - 1);
                        }
                    },
                    ProgressView::Done(_) => {
                        assert(requests_made(next, rest) =~= Seq::<RequestView>::empty());
                    },
                }
            }
        },
        ProgressView::Done(_) => {},
    }
}

/// A run that is past the search does not end with the refusal of an
/// argument.
proof fn lemma_never_refused(p: ProgressView<ApplicationView, ()>, replies: Seq<ReplyView>)
    requires
        goes_on_past_search(p),
    ensures
        goes_on_past_search(after_replies(p, replies)),
    decreases replies.len(),
{
    if replies.len() > 0 {
        match p {
            ProgressView::Ask(state, _) => {
                lemma_no_refusal_past_search(state, replies[0]);
                lemma_never_refused(state.resume(replies[0]), replies.drop_first());
            },
            ProgressView::Done(_) => {},
        }
    }
}

/// Limiting a process that another group manages changes nothing on the
/// host, from the start to the refusal: the run asks, and only asks.
pub proof fn lemma_conflicting_run_only_asks(
    base: Seq<char>,
    pid: u32,
    limit: LimitView,
    replies: Seq<ReplyView>,
    i: int,
)
    requires
        ends_refused(after_replies(ApplicationView::begin(base, pid, limit), replies)),
        0 <= i < requests_made(ApplicationView::begin(base, pid, limit), replies).len(),
    ensures
        requests_made(ApplicationView::begin(base, pid, limit), replies)[i].is_read_only(),
{
    lemma_refusal_left_host_untouched(ApplicationView::begin(base, pid, limit), replies, i);
}

/// The operation rewrites the limits of the process's own group and asks
/// for nothing else, or it is over.
pub open spec fn rewriting(p: ProgressView<ApplicationView, ()>, base: Seq<char>, pid: u32) -> bool {
    match p {
        ProgressView::Ask(state, request) => state.base == base && state.pid == pid && rewrites(
            state,
            join(base, pid_group_name(pid)),
        ) && touches_only_limits(join(base, pid_group_name(pid)), request),
        ProgressView::Done(_) => true,
    }
}

/// From the moment the process is found in its own group, the whole run
/// makes no group and moves no process: whatever the host replies, every
/// request writes a limit file of that group or only asks.
pub proof fn lemma_update_run_stays_in_group(
    p: ProgressView<ApplicationView, ()>,
    base: Seq<char>,
    pid: u32,
    replies: Seq<ReplyView>,
    i: int,
)
    requires
        rewriting(p, base, pid),
        0 <= i < requests_made(p, replies).len(),
    ensures
        touches_only_limits(join(base, pid_group_name(pid)), requests_made(p, replies)[i]),
    decreases replies.len(),
{
    match p {
        ProgressView::Ask(state, request) => {
            if replies.len() > 0 && i > 0 {
                lemma_update_keeps_one_group(state, replies[0]);
                lemma_update_run_stays_in_group(
                    state.resume(replies[0]),
                    base,
                    pid,
                    replies.drop_first(),
                    i - 1,
                );
            }
        },
        ProgressView::Done(_) => {},
    }
}

/// When the search finds the process in its own group, the operation turns
/// to rewriting that group's limits.
pub proof fn lemma_found_own_group_rewrites(state: ApplicationView, reply: ReplyView)
    requires
        found_group(state, reply) == Some(pid_group_name(state.pid)),
    ensures
        rewriting(state.resume(reply), state.base, state.pid),
{
    lemma_update_keeps_one_group(state, reply);
}

/// While the search goes from group to group, the operation follows it.
proof fn lemma_follows_search(
    base: Seq<char>,
    pid: u32,
    limit: LimitView,
    state: ScanView,
    shown: Seq<Option<Seq<u32>>>,
)
    requires
        state.listed,
        state.pid == pid,
        0 <= state.next <= state.names.len(),
        shown.len() == state.names.len() - state.next,
    ensures
        after_replies(
            ApplicationView::after_scan(base, pid, limit, state.enter_group()),
            membership_replies(
                state.names.subrange(state.next, state.names.len() as int),
                shown,
                pid,
            ),
        ) == ApplicationView::after_scan(
            base,
            pid,
            limit,
            ProgressView::Done(
                Ok(holder(state.names.subrange(state.next, state.names.len() as int), shown, pid)),
            ),
        ),
    decreases state.names.len() - state.next,
{
    let rest = state.names.subrange(state.next, state.names.len() as int);
    let replies = membership_replies(rest, shown, pid);
    let start = ApplicationView::after_scan(base, pid, limit, state.enter_group());
    if state.next < state.names.len() {
        assert(rest[0] == state.names[state.next]);
        let reply = membership_reply(shown[0]);
        assert(replies.len() > 0 && replies[0] == reply);
        assert(state.enter_group() is Ask);
        let searching = ApplicationView {
            base,
            pid,
            limit,
            stage: ApplyStageView::Scanning(state),
        };
        assert(searching.resume(reply) == ApplicationView::after_scan(
            base,
            pid,
            limit,
            state.resume(reply),
        ));
        assert(after_replies(start, replies) == after_replies(
            searching.resume(reply),
            replies.drop_first(),
        ));
        match shown[0] {
            Some(m) => {
                crate::scan::lemma_scan_finds_members(state, m);
            },
            None => {
                assert(!crate::scan::names_process(reply, pid));
            },
        }
        if shown[0] matches Some(m) && m.contains(pid) {
            assert(replies.drop_first() =~= Seq::<ReplyView>::empty());
            assert(after_replies(searching.resume(reply), replies.drop_first())
                == searching.resume(reply));
        } else {
            let after = ScanView { next: state.next + 1, ..state };
            assert(state.resume(reply) == after.enter_group());
            assert(rest.drop_first() == state.names.subrange(
                state.next + 1,
                state.names.len() as int,
            ));
            assert(replies.drop_first() =~= membership_replies(
                rest.drop_first(),
                shown.drop_first(),
                pid,
            ));
            lemma_follows_search(base, pid, limit, after, shown.drop_first());
        }
    } else {
        assert(rest.len() == 0);
        assert(replies.len() == 0);
    }
}

/// What becomes of a limit for a process is decided by where the host
/// shows the process, and by nothing else.
///
/// Let the host list `entries` under the base and show the members `shown`
/// for the directories among them. After the search, the operation stands
/// as follows. If the first group that holds the process is not its own,
/// the operation has failed with a conflict that names that group. If it is
/// its own, the operation rewrites the limits of that group. If no group
/// holds the process, the operation starts to make the process's own group.
pub proof fn lemma_apply_is_decided_by_the_holder(
    base: Seq<char>,
    pid: u32,
    limit: LimitView,
    entries: Seq<DirEntryView>,
    shown: Seq<Option<Seq<u32>>>,
)
    requires
        shown.len() == directory_names(entries).len(),
    ensures
        ({
            let after = after_replies(
                ApplicationView::begin(base, pid, limit),
                scan_replies(entries, shown, pid),
            );
            match holder(directory_names(entries), shown, pid) {
                Some(group) => if group == pid_group_name(pid) {
                    rewriting(after, base, pid)
                } else {
                    after == ProgressView::<ApplicationView, ()>::Done(Err(conflict(pid, group)))
                },
                None => after == ApplicationView::after_prepare(
                    base,
                    pid,
                    limit,
                    PreparationView::begin(base, pid_group_name(pid), limit),
                ) && (after matches ProgressView::Ask(_, request) && request
                    == (RequestView::CreateDirAll { path: base })),
            }
        }),
{
    let names = directory_names(entries);
    let replies = scan_replies(entries, shown, pid);
    let listed = ScanView { base, pid, names, next: 0, listed: true };
    let first = ScanView { base, pid, names: Seq::empty(), next: 0, listed: false };
    let searching = ApplicationView { base, pid, limit, stage: ApplyStageView::Scanning(first) };
    assert(replies[0] == ReplyView::Entries(entries));
    assert(replies.drop_first() =~= membership_replies(names, shown, pid));
    assert(names.subrange(0, names.len() as int) == names);
    assert(first.resume(replies[0]) == listed.enter_group());
    assert(searching.resume(replies[0]) == ApplicationView::after_scan(
        base,
        pid,
        limit,
        listed.enter_group(),
    ));
    assert(after_replies(ApplicationView::begin(base, pid, limit), replies) == after_replies(
        searching.resume(replies[0]),
        replies.drop_first(),
    ));
    lemma_follows_search(base, pid, limit, listed, shown);
    lemma_pid_group_name_valid(pid);
    lemma_rejection_iff_invalid(pid_group_name(pid));
    let own = LimitWriterView::initial(join(base, pid_group_name(pid)), limit);
    lemma_writer_stays_inside(own, replies[0]);
}

impl Application {
    /// Starts limiting the process `pid` under `base`.
    pub fn begin(base: &str, pid: u32, limit: &Limit) -> (p: Progress<Application, ()>)
        ensures
            p.deep_view() == ApplicationView::begin(base@, pid, limit@),
    {
        let step = Scan::begin(base, pid);
        Application::after_scan(base.to_string(), pid, limit.clone(), step)
    }

    fn after_scan(base: String, pid: u32, limit: Limit, step: Progress<Scan, Option<String>>) -> (p:
        Progress<Application, ()>)
        ensures
            p.deep_view() == ApplicationView::after_scan(base@, pid, limit@, step.deep_view()),
    {
        match step {
            Progress::Ask(s, r) => Progress::Ask(
                Application { base, pid, limit, stage: ApplyStage::Scanning(s) },
                r,
            ),
            Progress::Done(Ok(Some(group))) => {
                let own = pid_group(pid);
                if group == own {
                    let path = join_path(base.as_str(), group.as_str());
                    let step = LimitWriter::begin(path, limit.clone());
                    Application::after_update(base, pid, limit, step)
                } else {
                    let mut out = chars_of("process ");
                    let digits = decimal_chars(pid as u64);
                    push_chars(&mut out, digits.as_slice());
                    push_str(&mut out, " is already managed in cgroup '");
                    push_str(&mut out, group.as_str());
                    push_str(&mut out, "'");
                    Progress::Done(Err(Error::InvalidArgs(string_of(out.as_slice()))))
                }
            },
            Progress::Done(Ok(None)) => {
                let own = pid_group(pid);
                let step = Preparation::begin(base.as_str(), own.as_str(), &limit);
                Application::after_prepare(base, pid, limit, step)
            },
            Progress::Done(Err(e)) => Progress::Done(Err(e)),
        }
    }

    fn after_update(base: String, pid: u32, limit: Limit, step: Progress<LimitWriter, ()>) -> (p:
        Progress<Application, ()>)
        ensures
            p.deep_view() == ApplicationView::after_update(base@, pid, limit@, step.deep_view()),
    {
        match step {
            Progress::Ask(w, r) => Progress::Ask(
                Application { base, pid, limit, stage: ApplyStage::Updating(w) },
                r,
            ),
            Progress::Done(Ok(_)) => Progress::Done(Ok(())),
            Progress::Done(Err(e)) => Progress::Done(Err(e)),
        }
    }

    fn after_prepare(
        base: String,
        pid: u32,
        limit: Limit,
        step: Progress<Preparation, String>,
    ) -> (p: Progress<Application, ()>)
        ensures
            p.deep_view() == ApplicationView::after_prepare(base@, pid, limit@, step.deep_view()),
    {
        match step {
            Progress::Ask(s, r) => Progress::Ask(
                Application { base, pid, limit, stage: ApplyStage::Preparing(s) },
                r,
            ),
            Progress::Done(Ok(path)) => {
                let request = enrol_request(path.as_str(), pid);
                Progress::Ask(
                    Application { base, pid, limit, stage: ApplyStage::Populating(path) },
                    request,
                )
            },
            Progress::Done(Err(e)) => Progress::Done(Err(e)),
        }
    }

    fn after_retreat(
        base: String,
        pid: u32,
        limit: Limit,
        cause: Error,
        step: Progress<Cleanup, ()>,
    ) -> (p: Progress<Application, ()>)
        ensures
            p.deep_view() == ApplicationView::after_retreat(
                base@,
                pid,
                limit@,
                cause@,
                step.deep_view(),
            ),
    {
        match step {
            Progress::Ask(c, r) => Progress::Ask(
                Application { base, pid, limit, stage: ApplyStage::Retreating(c, cause) },
                r,
            ),
            Progress::Done(_) => {
                let mut out = chars_of("/proc/");
                let digits = decimal_chars(pid as u64);
                push_chars(&mut out, digits.as_slice());
                let request = Request::Exists { path: string_of(out.as_slice()) };
                Progress::Ask(
                    Application { base, pid, limit, stage: ApplyStage::Probing(cause) },
                    request,
                )
            },
        }
    }

    /// Resumes the operation with the host's reply to its last request.
    pub fn resume(self, reply: Reply) -> (p: Progress<Application, ()>)
        ensures
            p.deep_view() == self.deep_view().resume(reply@),
    {
        let Application { base, pid, limit, stage } = self;
        match stage {
            ApplyStage::Scanning(s) => {
                let step = s.resume(reply);
                Application::after_scan(base, pid, limit, step)
            },
            ApplyStage::Updating(w) => {
                let step = w.resume(reply);
                Application::after_update(base, pid, limit, step)
            },
            ApplyStage::Preparing(s) => {
                let step = s.resume(reply);
                Application::after_prepare(base, pid, limit, step)
            },
            ApplyStage::Populating(_) => match reply.into_done() {
                Ok(_) => Progress::Done(Ok(())),
                Err(f) => {
                    let cause = enrol_failure(pid, &f);
                    let own = pid_group(pid);
                    let step = Cleanup::begin(base.as_str(), own.as_str());
                    Application::after_retreat(base, pid, limit, cause, step)
                },
            },
            ApplyStage::Retreating(c, cause) => {
                let step = c.resume(reply);
                Application::after_retreat(base, pid, limit, cause, step)
            },
            ApplyStage::Probing(cause) => if reply.is_found() {
                Progress::Done(Err(cause))
            } else {
                Progress::Done(Err(Error::ProcessNotFound(pid)))
            },
        }
    }
}

} // verus!
