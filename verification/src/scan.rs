//! Finding the managed control group that holds a process.

use crate::host::{
    entry_views, mismatch, string_views, DirEntry, DirEntryView, Progress, ProgressView, Reply,
    ReplyView, Request, RequestView,
};
use crate::kernel::{
    join, join_path, lemma_membership_reads_back, lists_pid, member_pids, membership_text,
    parse_members,
};
use vstd::prelude::*;

verus! {

/// The names of the entries that are directories, in the order of the
/// listing.
pub open spec fn directory_names(entries: Seq<DirEntryView>) -> Seq<Seq<char>>
    decreases entries.len(),
{
    if entries.len() == 0 {
        Seq::empty()
    } else if entries.last().is_dir {
        directory_names(entries.drop_last()).push(entries.last().name)
    } else {
        directory_names(entries.drop_last())
    }
}

/// Picks the names of the directories from a listing.
pub fn directories(entries: Vec<DirEntry>) -> (names: Vec<String>)
    ensures
        string_views(names@) == directory_names(entry_views(entries@)),
{
    let mut names: Vec<String> = Vec::new();
    let mut i: usize = 0;
    assert(string_views(names@) =~= Seq::<Seq<char>>::empty());
    while i < entries.len()
        invariant
            i <= entries@.len(),
            string_views(names@) == directory_names(entry_views(entries@).subrange(0, i as int)),
        decreases entries@.len() - i,
    {
        let ghost before = string_views(names@);
        let ghost next = entry_views(entries@).subrange(0, i + 1);
        assert(next.drop_last() == entry_views(entries@).subrange(0, i as int));
        assert(next.last() == entries@[i as int]@);
        if entries[i].is_dir {
            names.push(entries[i].name.clone());
            assert(string_views(names@) =~= before.push(entries@[i as int]@.name));
        }
        i += 1;
    }
    assert(entry_views(entries@).subrange(0, entries@.len() as int) == entry_views(entries@));
    names
}

/// The operation that looks for the managed control group of a process: the
/// groups under the base are visited in the order in which the host lists
/// them, and the first whose membership file names the process is the
/// answer.
#[derive(Debug)]
pub struct Scan {
    base: String,
    pid: u32,
    names: Vec<String>,
    next: usize,
    listed: bool,
}

/// The mathematical content of a [`Scan`].
pub struct ScanView {
    /// The directory under which managed groups are created.
    pub base: Seq<char>,
    /// The process looked for.
    pub pid: u32,
    /// The groups that the host listed.
    pub names: Seq<Seq<char>>,
    /// How many of them were visited.
    pub next: int,
    /// Whether the listing has arrived.
    pub listed: bool,
}

impl DeepView for Scan {
    type V = ScanView;

    closed spec fn deep_view(&self) -> ScanView {
        ScanView {
            base: self.base@,
            pid: self.pid,
            names: string_views(self.names@),
            next: self.next as int,
            listed: self.listed,
        }
    }
}

/// The reply is the content of a membership file that names `pid`.
pub open spec fn names_process(reply: ReplyView, pid: u32) -> bool {
    match reply.text() {
        Ok(content) => member_pids(content).contains(pid),
        Err(_) => false,
    }
}

impl ScanView {
    /// The operation from its start.
    pub open spec fn begin(base: Seq<char>, pid: u32) -> ProgressView<ScanView, Option<Seq<char>>> {
        ProgressView::Ask(
            ScanView { base, pid, names: Seq::empty(), next: 0, listed: false },
            RequestView::List { path: base },
        )
    }

    /// The operation from the group at `next` on.
    pub open spec fn enter_group(self) -> ProgressView<ScanView, Option<Seq<char>>> {
        if 0 <= self.next < self.names.len() {
            ProgressView::Ask(
                self,
                RequestView::Read {
                    path: join(join(self.base, self.names[self.next]), "cgroup.procs"@),
                },
            )
        } else {
            ProgressView::Done(Ok(None))
        }
    }

    /// The operation after the host's reply.
    ///
    /// A base that cannot be listed holds no group. A membership file that
    /// cannot be read names nobody.
    pub open spec fn resume(self, reply: ReplyView) -> ProgressView<ScanView, Option<Seq<char>>> {
        if !self.listed {
            match reply.entries() {
                Ok(entries) => ScanView {
                    names: directory_names(entries),
                    next: 0,
                    listed: true,
                    ..self
                }.enter_group(),
                Err(_) => ProgressView::Done(Ok(None)),
            }
        } else if 0 <= self.next < self.names.len() {
            if names_process(reply, self.pid) {
                ProgressView::Done(Ok(Some(self.names[self.next])))
            } else {
                ScanView { next: self.next + 1, ..self }.enter_group()
            }
        } else {
            ProgressView::Done(Ok(None))
        }
    }
}

/// The search has not failed.
pub open spec fn unfailed(p: ProgressView<ScanView, Option<Seq<char>>>) -> bool {
    match p {
        ProgressView::Done(Err(_)) => false,
        _ => true,
    }
}

/// Looking for a process changes nothing on the host, and never fails.
pub proof fn lemma_scan_is_harmless(state: ScanView, reply: ReplyView)
    ensures
        ScanView::begin(state.base, state.pid).is_harmless(),
        state.resume(reply).is_harmless(),
        unfailed(ScanView::begin(state.base, state.pid)),
        unfailed(state.resume(reply)),
{
}

/// The search stops at the first group in which the kernel lists the
/// process, and passes over a group in which it does not: for a membership
/// file that holds the members `members`, the group at hand is the answer
/// exactly if the process is among them.
pub proof fn lemma_scan_finds_members(state: ScanView, members: Seq<u32>)
    requires
        state.listed,
        0 <= state.next < state.names.len(),
    ensures
        state.resume(ReplyView::Text(membership_text(members))) == (if members.contains(
            state.pid,
        ) {
            ProgressView::<ScanView, Option<Seq<char>>>::Done(Ok(Some(state.names[state.next])))
        } else {
            ScanView { next: state.next + 1, ..state }.enter_group()
        }),
{
    lemma_membership_reads_back(members);
}

// ---------------------------------------------------------------------------
// Whole runs
// ---------------------------------------------------------------------------

/// Where the search stands after the host's replies `replies`, given where
/// it stood before them.
pub open spec fn after_replies(
    p: ProgressView<ScanView, Option<Seq<char>>>,
    replies: Seq<ReplyView>,
) -> ProgressView<ScanView, Option<Seq<char>>>
    decreases replies.len(),
{
    if replies.len() == 0 {
        p
    } else {
        match p {
            ProgressView::Ask(state, _) => after_replies(
                state.resume(replies[0]),
                replies.drop_first(),
            ),
            ProgressView::Done(_) => p,
        }
    }
}

/// What the host replies when it is asked for the members of a group:
/// the membership file, or a failure if the file cannot be read.
pub open spec fn membership_reply(members: Option<Seq<u32>>) -> ReplyView {
    match members {
        Some(m) => ReplyView::Text(membership_text(m)),
        None => ReplyView::Failed(mismatch()),
    }
}

/// The first of the groups `names`, whose members the host shows as
/// `shown`, that holds the process `pid`.
pub open spec fn holder(names: Seq<Seq<char>>, shown: Seq<Option<Seq<u32>>>, pid: u32) -> Option<
    Seq<char>,
>
    decreases names.len(),
{
    if names.len() == 0 || shown.len() == 0 {
        None
    } else if shown[0] matches Some(m) && m.contains(pid) {
        Some(names[0])
    } else {
        holder(names.drop_first(), shown.drop_first(), pid)
    }
}

/// The replies of the host to the questions of the search for the members
/// of the groups `names`: one for each group up to the first that holds the
/// process.
pub open spec fn membership_replies(
    names: Seq<Seq<char>>,
    shown: Seq<Option<Seq<u32>>>,
    pid: u32,
) -> Seq<ReplyView>
    decreases names.len(),
{
    if names.len() == 0 || shown.len() == 0 {
        Seq::empty()
    } else if shown[0] matches Some(m) && m.contains(pid) {
        seq![membership_reply(shown[0])]
    } else {
        seq![membership_reply(shown[0])] + membership_replies(
            names.drop_first(),
            shown.drop_first(),
            pid,
        )
    }
}

/// The replies of a host that lists `entries` under the base and shows the
/// members `shown` for the directories among them.
pub open spec fn scan_replies(
    entries: Seq<DirEntryView>,
    shown: Seq<Option<Seq<u32>>>,
    pid: u32,
) -> Seq<ReplyView> {
    seq![ReplyView::Entries(entries)] + membership_replies(directory_names(entries), shown, pid)
}

/// From any group on, the search finds the first group that holds the
/// process.
proof fn lemma_search_from(state: ScanView, shown: Seq<Option<Seq<u32>>>)
    requires
        state.listed,
        0 <= state.next <= state.names.len(),
        shown.len() == state.names.len() - state.next,
    ensures
        after_replies(
            state.enter_group(),
            membership_replies(
                state.names.subrange(state.next, state.names.len() as int),
                shown,
                state.pid,
            ),
        ) == ProgressView::<ScanView, Option<Seq<char>>>::Done(
            Ok(holder(state.names.subrange(state.next, state.names.len() as int), shown, state.pid)),
        ),
    decreases state.names.len() - state.next,
{
    let rest = state.names.subrange(state.next, state.names.len() as int);
    let replies = membership_replies(rest, shown, state.pid);
    let start = state.enter_group();
    if state.next < state.names.len() {
        assert(rest[0] == state.names[state.next]);
        let reply = membership_reply(shown[0]);
        assert(replies.len() > 0 && replies[0] == reply);
        assert(start is Ask);
        assert(after_replies(start, replies) == after_replies(
            state.resume(reply),
            replies.drop_first(),
        ));
        match shown[0] {
            Some(m) => {
                lemma_scan_finds_members(state, m);
            },
            None => {
                assert(!names_process(reply, state.pid));
            },
        }
        if shown[0] matches Some(m) && m.contains(state.pid) {
            assert(replies.drop_first() =~= Seq::<ReplyView>::empty());
            assert(after_replies(state.resume(reply), replies.drop_first()) == state.resume(
                reply,
            ));
        } else {
            let after = ScanView { next: state.next + 1, ..state };
            assert(state.resume(reply) == after.enter_group());
            assert(rest.drop_first() == state.names.subrange(
                state.next + 1,
                state.names.len() as int,
            ));
            assert(replies.drop_first() =~= membership_replies(
                rest.drop_first(),
                shown.drop_first(),
                state.pid,
            ));
            lemma_search_from(after, shown.drop_first());
        }
    } else {
        assert(rest.len() == 0);
        assert(replies.len() == 0);
    }
}

/// The search finds the first group, in the order in which the host lists
/// the groups, whose membership file names the process; it finds none if
/// there is no such group.
pub proof fn lemma_scan_finds_the_holder(
    base: Seq<char>,
    pid: u32,
    entries: Seq<DirEntryView>,
    shown: Seq<Option<Seq<u32>>>,
)
    requires
        shown.len() == directory_names(entries).len(),
    ensures
        after_replies(ScanView::begin(base, pid), scan_replies(entries, shown, pid))
            == ProgressView::<ScanView, Option<Seq<char>>>::Done(
            Ok(holder(directory_names(entries), shown, pid)),
        ),
{
    let names = directory_names(entries);
    let listed = ScanView { base, pid, names, next: 0, listed: true };
    let replies = scan_replies(entries, shown, pid);
    assert(replies[0] == ReplyView::Entries(entries));
    assert(replies.drop_first() =~= membership_replies(names, shown, pid));
    assert(names.subrange(0, names.len() as int) == names);
    lemma_search_from(listed, shown);
    let first = ScanView { base, pid, names: Seq::empty(), next: 0, listed: false };
    assert(first.resume(replies[0]) == listed.enter_group());
    assert(after_replies(ScanView::begin(base, pid), replies) == after_replies(
        first.resume(replies[0]),
        replies.drop_first(),
    ));
}

impl Scan {
    /// Starts looking for the group of `pid` under `base`.
    pub fn begin(base: &str, pid: u32) -> (p: Progress<Scan, Option<String>>)
        ensures
            p.deep_view() == ScanView::begin(base@, pid),
    {
        let state = Scan { base: base.to_string(), pid, names: Vec::new(), next: 0, listed: false };
        assert(string_views(state.names@) =~= Seq::<Seq<char>>::empty());
        Progress::Ask(state, Request::List { path: base.to_string() })
    }

    fn enter_group(self) -> (p: Progress<Scan, Option<String>>)
        ensures
            p.deep_view() == self.deep_view().enter_group(),
    {
        if self.next < self.names.len() {
            let dir = join_path(self.base.as_str(), self.names[self.next].as_str());
            let request = Request::Read { path: join_path(dir.as_str(), "cgroup.procs") };
            Progress::Ask(self, request)
        } else {
            Progress::Done(Ok(None))
        }
    }

    /// Resumes the operation with the host's reply to its last request.
    pub fn resume(self, reply: Reply) -> (p: Progress<Scan, Option<String>>)
        ensures
            p.deep_view() == self.deep_view().resume(reply@),
    {
        if !self.listed {
            match reply.into_entries() {
                Ok(entries) => {
                    let names = directories(entries);
                    let state = Scan { names, next: 0, listed: true, ..self };
                    state.enter_group()
                },
                Err(_) => Progress::Done(Ok(None)),
            }
        } else if self.next < self.names.len() {
            let found = match reply.into_text() {
                Ok(content) => {
                    let pids = parse_members(content.as_str());
                    lists_pid(&pids, self.pid)
                },
                Err(_) => false,
            };
            if found {
                Progress::Done(Ok(Some(self.names[self.next].clone())))
            } else {
                let state = Scan { next: self.next + 1, ..self };
                state.enter_group()
            }
        } else {
            Progress::Done(Ok(None))
        }
    }
}

} // verus!
