//! Finding processes: all of them, or those that go by a name.

use crate::error::{Error, ErrorView};
use crate::host::{
    entry_views, DirEntry, DirEntryView, Progress, ProgressView, Reply, ReplyView, Request,
    RequestView,
};
use crate::status::{comm_file, comm_path, trimmed_string};
use crate::text::{chars_of, parse_u32, parse_u32_spec, trim};
use vstd::prelude::*;

verus! {

/// A process and its short name.
#[derive(Debug)]
pub struct ProcessInfo {
    pub pid: u32,
    /// The short name, as the kernel holds it: cut to fifteen characters.
    pub name: String,
}

/// The mathematical content of a [`ProcessInfo`].
pub struct ProcessInfoView {
    pub pid: u32,
    pub name: Seq<char>,
}

impl DeepView for ProcessInfo {
    type V = ProcessInfoView;

    open spec fn deep_view(&self) -> ProcessInfoView {
        ProcessInfoView { pid: self.pid, name: self.name@ }
    }
}

/// Where the host shows its processes.
pub open spec fn proc_dir() -> Seq<char> {
    "/proc"@
}

/// The process identifiers among the names of a listing, in its order.
pub open spec fn listed_pids(entries: Seq<DirEntryView>) -> Seq<u32>
    decreases entries.len(),
{
    if entries.len() == 0 {
        Seq::empty()
    } else {
        match parse_u32_spec(entries.last().name) {
            Some(pid) => listed_pids(entries.drop_last()).push(pid),
            None => listed_pids(entries.drop_last()),
        }
    }
}

/// Picks the process identifiers from a listing.
pub fn pids_of_listing(entries: &Vec<DirEntry>) -> (pids: Vec<u32>)
    ensures
        pids@ == listed_pids(entry_views(entries@)),
{
    let mut pids: Vec<u32> = Vec::new();
    let mut i: usize = 0;
    while i < entries.len()
        invariant
            i <= entries@.len(),
            pids@ == listed_pids(entry_views(entries@).subrange(0, i as int)),
        decreases entries@.len() - i,
    {
        let ghost next = entry_views(entries@).subrange(0, i + 1);
        assert(next.drop_last() == entry_views(entries@).subrange(0, i as int));
        assert(next.last() == entries@[i as int]@);
        let chars = chars_of(entries[i].name.as_str());
        match parse_u32(chars.as_slice()) {
            Some(pid) => {
                pids.push(pid);
            },
            None => {},
        }
        i += 1;
    }
    assert(entry_views(entries@).subrange(0, entries@.len() as int) == entry_views(entries@));
    pids
}

// ---------------------------------------------------------------------------
// Order by name
// ---------------------------------------------------------------------------

/// `a` comes before `b` or equals it, character by character.
pub open spec fn name_le(a: Seq<char>, b: Seq<char>) -> bool
    decreases a.len(),
{
    if a.len() == 0 {
        true
    } else if b.len() == 0 {
        false
    } else if a[0] != b[0] {
        a[0] < b[0]
    } else {
        name_le(a.drop_first(), b.drop_first())
    }
}

/// Whether `a` comes before `b` or equals it.
pub fn names_in_order(a: &[char], b: &[char]) -> (r: bool)
    ensures
        r == name_le(a@, b@),
{
    let mut i: usize = 0;
    assert(a@.subrange(0, a@.len() as int) == a@);
    assert(b@.subrange(0, b@.len() as int) == b@);
    while i < a.len() && i < b.len()
        invariant
            i <= a@.len(),
            i <= b@.len(),
            name_le(a@, b@) == name_le(
                a@.subrange(i as int, a@.len() as int),
                b@.subrange(i as int, b@.len() as int),
            ),
        decreases a@.len() - i,
    {
        let ghost ra = a@.subrange(i as int, a@.len() as int);
        let ghost rb = b@.subrange(i as int, b@.len() as int);
        assert(ra[0] == a@[i as int] && rb[0] == b@[i as int]);
        if a[i] != b[i] {
            return a[i] < b[i];
        }
        assert(ra.drop_first() == a@.subrange(i + 1, a@.len() as int));
        assert(rb.drop_first() == b@.subrange(i + 1, b@.len() as int));
        i += 1;
    }
    i == a.len()
}

/// `item` put into `sorted` behind every entry whose name does not come
/// after its own.
pub open spec fn inserted(sorted: Seq<ProcessInfoView>, item: ProcessInfoView) -> Seq<
    ProcessInfoView,
>
    decreases sorted.len(),
{
    if sorted.len() == 0 {
        seq![item]
    } else if name_le(sorted.last().name, item.name) {
        sorted.push(item)
    } else {
        inserted(sorted.drop_last(), item).push(sorted.last())
    }
}

/// The processes in the order of their names; processes of one name keep
/// the order they came in.
pub open spec fn by_name(infos: Seq<ProcessInfoView>) -> Seq<ProcessInfoView>
    decreases infos.len(),
{
    if infos.len() == 0 {
        Seq::empty()
    } else {
        inserted(by_name(infos.drop_last()), infos.last())
    }
}

/// The names of `s` are in order.
pub open spec fn ordered(s: Seq<ProcessInfoView>) -> bool {
    forall|i: int, j: int| 0 <= i < j < s.len() ==> name_le(#[trigger] s[i].name, #[trigger] s[j].name)
}

/// The order of names is total.
pub proof fn lemma_name_le_total(a: Seq<char>, b: Seq<char>)
    ensures
        name_le(a, b) || name_le(b, a),
    decreases a.len(),
{
    if a.len() > 0 && b.len() > 0 && a[0] == b[0] {
        lemma_name_le_total(a.drop_first(), b.drop_first());
    }
}

/// The order of names is transitive.
pub proof fn lemma_name_le_transitive(a: Seq<char>, b: Seq<char>, c: Seq<char>)
    requires
        name_le(a, b),
        name_le(b, c),
    ensures
        name_le(a, c),
    decreases a.len(),
{
    if a.len() > 0 && b.len() > 0 && c.len() > 0 && a[0] == b[0] && b[0] == c[0] {
        lemma_name_le_transitive(a.drop_first(), b.drop_first(), c.drop_first());
    }
}

/// Putting a process into an ordered list gives an ordered list that holds
/// what the list held, and the process.
pub proof fn lemma_inserted(sorted: Seq<ProcessInfoView>, item: ProcessInfoView)
    requires
        ordered(sorted),
    ensures
        ordered(inserted(sorted, item)),
        inserted(sorted, item).to_multiset() == sorted.to_multiset().insert(item),
        inserted(sorted, item).len() == sorted.len() + 1,
        forall|k: int|
            0 <= k < inserted(sorted, item).len() ==> (#[trigger] inserted(sorted, item)[k])
                == item || sorted.contains(inserted(sorted, item)[k]),
    decreases sorted.len(),
{
    broadcast use vstd::seq_lib::group_to_multiset_ensures;

    let out = inserted(sorted, item);
    if sorted.len() == 0 {
        assert(sorted.to_multiset() =~= vstd::multiset::Multiset::empty());
        assert(seq![item] =~= Seq::<ProcessInfoView>::empty().push(item));
        assert(sorted =~= Seq::<ProcessInfoView>::empty());
    } else if name_le(sorted.last().name, item.name) {
        assert forall|i: int, j: int| 0 <= i < j < out.len() implies name_le(
            #[trigger] out[i].name,
            #[trigger] out[j].name,
        ) by {
            if j == out.len() - 1 {
                if i < sorted.len() - 1 {
                    lemma_name_le_transitive(sorted[i].name, sorted.last().name, item.name);
                }
            }
        }
        assert forall|k: int| 0 <= k < out.len() implies (#[trigger] out[k]) == item
            || sorted.contains(out[k]) by {
            if k < sorted.len() {
                assert(sorted[k] == out[k]);
            }
        }
    } else {
        let front = sorted.drop_last();
        let last = sorted.last();
        assert(ordered(front));
        lemma_inserted(front, item);
        let mid = inserted(front, item);
        lemma_name_le_total(last.name, item.name);
        assert(sorted =~= front.push(last));
        assert(mid.push(last).to_multiset() =~= sorted.to_multiset().insert(item));
        assert forall|i: int, j: int| 0 <= i < j < out.len() implies name_le(
            #[trigger] out[i].name,
            #[trigger] out[j].name,
        ) by {
            if j == out.len() - 1 {
                if mid[i] == item {
                } else {
                    assert(front.contains(mid[i]));
                    let k = choose|k: int| 0 <= k < front.len() && front[k] == mid[i];
                    assert(name_le(sorted[k].name, sorted[sorted.len() - 1].name));
                }
            } else {
                assert(out[i] == mid[i] && out[j] == mid[j]);
            }
        }
        assert forall|k: int| 0 <= k < out.len() implies (#[trigger] out[k]) == item
            || sorted.contains(out[k]) by {
            if k == out.len() - 1 {
                assert(sorted[sorted.len() - 1] == out[k]);
            } else {
                assert(out[k] == mid[k]);
                if mid[k] != item {
                    assert(front.contains(mid[k]));
                    let m = choose|m: int| 0 <= m < front.len() && front[m] == mid[k];
                    assert(sorted[m] == out[k]);
                }
            }
        }
    }
}

/// Ordering by name gives an ordered list of the same processes.
pub proof fn lemma_by_name(infos: Seq<ProcessInfoView>)
    ensures
        ordered(by_name(infos)),
        by_name(infos).to_multiset() == infos.to_multiset(),
        by_name(infos).len() == infos.len(),
    decreases infos.len(),
{
    broadcast use vstd::seq_lib::group_to_multiset_ensures;

    if infos.len() == 0 {
        assert(infos =~= Seq::<ProcessInfoView>::empty());
    } else {
        lemma_by_name(infos.drop_last());
        lemma_inserted(by_name(infos.drop_last()), infos.last());
        assert(infos =~= infos.drop_last().push(infos.last()));
    }
}

/// Puts `item` into the ordered list `sorted`.
fn insert_by_name(sorted: &mut Vec<ProcessInfo>, item: ProcessInfo)
    ensures
        final(sorted).deep_view() == inserted(old(sorted).deep_view(), item.deep_view()),
{
    let ghost all = sorted.deep_view();
    let mut tail: Vec<ProcessInfo> = Vec::new();
    let key = chars_of(item.name.as_str());
    assert(all.subrange(0, all.len() as int) == all);
    let mut moving = true;
    while moving
        invariant
            key@ == item.name@,
            sorted@.len() + tail@.len() == all.len(),
            sorted.deep_view() == all.subrange(0, sorted@.len() as int),
            forall|k: int|
                0 <= k < tail@.len() ==> (#[trigger] tail@[k]).deep_view() == all[all.len() - 1
                    - k],
            forall|k: int|
                sorted@.len() <= k < all.len() ==> !name_le(
                    (#[trigger] all[k]).name,
                    item.deep_view().name,
                ),
            !moving && sorted@.len() > 0 ==> name_le(
                all[sorted@.len() - 1].name,
                item.deep_view().name,
            ),
        decreases sorted@.len() + (if moving { 1int } else { 0int }),
    {
        if sorted.len() == 0 {
            moving = false;
        } else {
            let last_name = chars_of(sorted[sorted.len() - 1].name.as_str());
            assert(sorted.deep_view()[sorted@.len() - 1] == sorted@[sorted@.len() - 1].deep_view());
            if names_in_order(last_name.as_slice(), key.as_slice()) {
                moving = false;
            } else {
                let ghost before = sorted.deep_view();
                let ghost top = sorted@[sorted@.len() - 1].deep_view();
                let moved = sorted.pop().unwrap();
                assert(sorted.deep_view() =~= before.drop_last());
                assert(before.drop_last() =~= all.subrange(0, sorted@.len() as int));
                assert(moved.deep_view() == top);
                assert(top == all[sorted@.len() as int]);
                tail.push(moved);
            }
        }
    }
    let ghost kept = sorted.deep_view();
    let ghost item_view = item.deep_view();
    sorted.push(item);
    assert(sorted.deep_view() =~= kept.push(item_view));
    proof {
        lemma_inserted_here(all, item_view, kept.len() as int);
    }
    let ghost mut placed: int = kept.len() as int;
    while tail.len() > 0
        invariant
            kept.len() <= placed <= all.len(),
            tail@.len() == all.len() - placed,
            forall|k: int|
                0 <= k < tail@.len() ==> (#[trigger] tail@[k]).deep_view() == all[all.len() - 1
                    - k],
            sorted.deep_view() == kept.push(item_view) + all.subrange(kept.len() as int, placed),
        decreases tail@.len(),
    {
        let ghost before = sorted.deep_view();
        let ghost top = tail@[tail@.len() - 1].deep_view();
        let moved = tail.pop().unwrap();
        sorted.push(moved);
        assert(sorted.deep_view() =~= before.push(top));
        proof {
            assert(top == all[placed]);
            assert(all.subrange(kept.len() as int, placed + 1) =~= all.subrange(
                kept.len() as int,
                placed,
            ).push(all[placed]));
            placed = placed + 1;
        }
    }
}

/// Where `inserted` puts an item: behind the last entry whose name does not
/// come after its own.
proof fn lemma_inserted_here(all: Seq<ProcessInfoView>, item: ProcessInfoView, k: int)
    requires
        0 <= k <= all.len(),
        k > 0 ==> name_le(all[k - 1].name, item.name),
        forall|i: int| k <= i < all.len() ==> !name_le((#[trigger] all[i]).name, item.name),
    ensures
        inserted(all, item) == all.subrange(0, k).push(item) + all.subrange(k, all.len() as int),
    decreases all.len() - k,
{
    if k == all.len() {
        assert(all.subrange(0, k) == all);
        assert(all.subrange(k, all.len() as int) =~= Seq::<ProcessInfoView>::empty());
        if all.len() == 0 {
            assert(inserted(all, item) =~= all.push(item));
        }
        assert(all.push(item) + Seq::<ProcessInfoView>::empty() =~= all.push(item));
    } else {
        lemma_inserted_here(all.drop_last(), item, k);
        assert(all.drop_last().subrange(0, k) == all.subrange(0, k));
        assert((all.subrange(0, k).push(item) + all.drop_last().subrange(
            k,
            all.len() - 1,
        )).push(all.last()) =~= all.subrange(0, k).push(item) + all.subrange(k, all.len() as int));
    }
}

/// Orders processes by their names.
pub fn sort_by_name(infos: Vec<ProcessInfo>) -> (out: Vec<ProcessInfo>)
    ensures
        out.deep_view() == by_name(infos.deep_view()),
{
    let ghost all = infos.deep_view();
    let mut rest = infos;
    let mut reversed: Vec<ProcessInfo> = Vec::new();
    while rest.len() > 0
        invariant
            rest@.len() + reversed@.len() == all.len(),
            rest.deep_view() == all.subrange(0, rest@.len() as int),
            forall|k: int|
                0 <= k < reversed@.len() ==> (#[trigger] reversed@[k]).deep_view() == all[all.len()
                    - 1 - k],
        decreases rest@.len(),
    {
        let ghost before = rest.deep_view();
        let ghost top = rest@[rest@.len() - 1].deep_view();
        assert(before[before.len() - 1] == top);
        let item = rest.pop().unwrap();
        assert(rest.deep_view() =~= before.drop_last());
        assert(before.drop_last() =~= all.subrange(0, rest@.len() as int));
        assert(item.deep_view() == all[rest@.len() as int]);
        reversed.push(item);
    }
    let mut out: Vec<ProcessInfo> = Vec::new();
    assert(out.deep_view() =~= by_name(all.subrange(0, 0)));
    let ghost mut done: int = 0;
    while reversed.len() > 0
        invariant
            0 <= done <= all.len(),
            reversed@.len() == all.len() - done,
            forall|k: int|
                0 <= k < reversed@.len() ==> (#[trigger] reversed@[k]).deep_view() == all[all.len()
                    - 1 - k],
            out.deep_view() == by_name(all.subrange(0, done)),
        decreases reversed@.len(),
    {
        let ghost top = reversed@[reversed@.len() - 1].deep_view();
        let item = reversed.pop().unwrap();
        insert_by_name(&mut out, item);
        proof {
            assert(top == all[done]);
            assert(all.subrange(0, done + 1).drop_last() == all.subrange(0, done));
            done = done + 1;
        }
    }
    assert(all.subrange(0, all.len() as int) == all);
    out
}

// ---------------------------------------------------------------------------
// Matching a name
// ---------------------------------------------------------------------------

/// The process goes by `name`: its short name, with the white space around
/// it removed, is the name, or its executable's base name is.
///
/// The kernel cuts short names to fifteen characters, so a longer name is
/// never found in the short name; it is found in the executable's name, and
/// only there, so that a process whose cut name merely starts like the
/// query does not match.
pub open spec fn goes_by(comm: Option<Seq<char>>, exe: Option<Seq<char>>, name: Seq<char>) -> bool {
    (comm matches Some(c) && trim(c) == name) || exe == Some(name)
}

/// The text that a reply brings, if it brings one.
pub open spec fn text_of_reply(reply: ReplyView) -> Option<Seq<char>> {
    match reply.text() {
        Ok(t) => Some(t),
        Err(_) => None,
    }
}

/// Which answer a [`NameSearch`] waits for.
#[derive(Clone, Copy, Debug, PartialEq, Eq, Structural)]
pub enum SearchStage {
    /// The processes.
    List,
    /// The short name of the process at `next`.
    ReadComm,
    /// The executable's name of the process at `next`.
    ReadExe,
}

/// The operation that finds the processes that go by a name.
#[derive(Debug)]
pub struct NameSearch {
    name: String,
    stage: SearchStage,
    candidates: Vec<u32>,
    next: usize,
    found: Vec<u32>,
}

/// The mathematical content of a [`NameSearch`].
pub struct NameSearchView {
    /// The name looked for.
    pub name: Seq<char>,
    /// The answer that is waited for.
    pub stage: SearchStage,
    /// The processes that the host listed.
    pub candidates: Seq<u32>,
    /// The process that is being looked at.
    pub next: int,
    /// The processes found so far.
    pub found: Seq<u32>,
}

impl DeepView for NameSearch {
    type V = NameSearchView;

    closed spec fn deep_view(&self) -> NameSearchView {
        NameSearchView {
            name: self.name@,
            stage: self.stage,
            candidates: self.candidates@,
            next: self.next as int,
            found: self.found@,
        }
    }
}

impl NameSearchView {
    /// The operation from its start.
    pub open spec fn begin(name: Seq<char>) -> ProgressView<NameSearchView, Seq<u32>> {
        ProgressView::Ask(
            NameSearchView {
                name,
                stage: SearchStage::List,
                candidates: Seq::empty(),
                next: 0,
                found: Seq::empty(),
            },
            RequestView::List { path: proc_dir() },
        )
    }

    /// The operation from the process at `next` on. If no process was found
    /// in the end, the operation fails and says so.
    pub open spec fn enter_process(self) -> ProgressView<NameSearchView, Seq<u32>> {
        if 0 <= self.next < self.candidates.len() {
            ProgressView::Ask(
                NameSearchView { stage: SearchStage::ReadComm, ..self },
                RequestView::Read { path: comm_file(self.candidates[self.next]) },
            )
        } else if self.found.len() == 0 {
            ProgressView::Done(Err(ErrorView::ProcessNameNotFound(self.name)))
        } else {
            ProgressView::Done(Ok(self.found))
        }
    }

    /// The operation with the process at `next` dealt with.
    pub open spec fn advance(self, matched: bool) -> ProgressView<NameSearchView, Seq<u32>> {
        if 0 <= self.next < self.candidates.len() {
            NameSearchView {
                found: if matched {
                    self.found.push(self.candidates[self.next])
                } else {
                    self.found
                },
                next: self.next + 1,
                ..self
            }.enter_process()
        } else {
            self.enter_process()
        }
    }

    /// The operation after the host's reply.
    ///
    /// The executable's name is asked for only if the short name is not the
    /// name looked for.
    pub open spec fn resume(self, reply: ReplyView) -> ProgressView<NameSearchView, Seq<u32>> {
        match self.stage {
            SearchStage::List => match reply.entries() {
                Ok(entries) => NameSearchView {
                    candidates: listed_pids(entries),
                    next: 0,
                    ..self
                }.enter_process(),
                Err(f) => ProgressView::Done(Err(ErrorView::Io(f))),
            },
            SearchStage::ReadComm => if goes_by(text_of_reply(reply), None, self.name) {
                self.advance(true)
            } else if 0 <= self.next < self.candidates.len() {
                ProgressView::Ask(
                    NameSearchView { stage: SearchStage::ReadExe, ..self },
                    RequestView::ExeName { pid: self.candidates[self.next] },
                )
            } else {
                self.enter_process()
            },
            SearchStage::ReadExe => self.advance(goes_by(None, text_of_reply(reply), self.name)),
        }
    }
}

/// Finding processes changes nothing on the host.
pub proof fn lemma_search_is_harmless(state: NameSearchView, reply: ReplyView)
    ensures
        NameSearchView::begin(state.name).is_harmless(),
        state.resume(reply).is_harmless(),
{
}

impl NameSearch {
    /// Starts looking for the processes that go by `name`.
    pub fn begin(name: &str) -> (p: Progress<NameSearch, Vec<u32>>)
        ensures
            p.deep_view() == NameSearchView::begin(name@),
    {
        let state = NameSearch {
            name: name.to_string(),
            stage: SearchStage::List,
            candidates: Vec::new(),
            next: 0,
            found: Vec::new(),
        };
        assert(state.found.deep_view() =~= Seq::<u32>::empty());
        Progress::Ask(state, Request::List { path: "/proc".to_string() })
    }

    fn enter_process(self) -> (p: Progress<NameSearch, Vec<u32>>)
        ensures
            p.deep_view() == self.deep_view().enter_process(),
    {
        if self.next < self.candidates.len() {
            let request = Request::Read { path: comm_path(self.candidates[self.next]) };
            Progress::Ask(NameSearch { stage: SearchStage::ReadComm, ..self }, request)
        } else if self.found.len() == 0 {
            Progress::Done(Err(Error::ProcessNameNotFound(self.name)))
        } else {
            assert(self.found.deep_view() =~= self.found@);
            Progress::Done(Ok(self.found))
        }
    }

    fn advance(self, matched: bool) -> (p: Progress<NameSearch, Vec<u32>>)
        ensures
            p.deep_view() == self.deep_view().advance(matched),
    {
        if self.next < self.candidates.len() {
            let mut found = self.found;
            if matched {
                found.push(self.candidates[self.next]);
            }
            let state = NameSearch {
                name: self.name,
                stage: self.stage,
                candidates: self.candidates,
                next: self.next + 1,
                found,
            };
            state.enter_process()
        } else {
            self.enter_process()
        }
    }

    /// Resumes the operation with the host's reply to its last request.
    pub fn resume(self, reply: Reply) -> (p: Progress<NameSearch, Vec<u32>>)
        ensures
            p.deep_view() == self.deep_view().resume(reply@),
    {
        match self.stage {
            SearchStage::List => match reply.into_entries() {
                Ok(entries) => {
                    let candidates = pids_of_listing(&entries);
                    let state = NameSearch { candidates, next: 0, ..self };
                    state.enter_process()
                },
                Err(f) => Progress::Done(Err(Error::Io(f))),
            },
            SearchStage::ReadComm => {
                let matched = match reply.into_text() {
                    Ok(content) => trimmed_string(content.as_str()) == self.name,
                    Err(_) => false,
                };
                if matched {
                    self.advance(true)
                } else if self.next < self.candidates.len() {
                    let request = Request::ExeName { pid: self.candidates[self.next] };
                    Progress::Ask(NameSearch { stage: SearchStage::ReadExe, ..self }, request)
                } else {
                    self.enter_process()
                }
            },
            SearchStage::ReadExe => {
                let matched = match reply.into_text() {
                    Ok(exe) => exe == self.name,
                    Err(_) => false,
                };
                self.advance(matched)
            },
        }
    }
}

/// Starts looking for the processes that go by `name`. The operation yields
/// their identifiers, in the order in which the host lists them, and fails
/// if there is none.
pub fn find_by_name(name: &str) -> (p: Progress<NameSearch, Vec<u32>>)
    ensures
        p.deep_view() == NameSearchView::begin(name@),
{
    NameSearch::begin(name)
}

/// The processes that a caller means who gives an identifier or a name.
pub open spec fn resolve_pids_spec(pid: Option<u32>, name: Option<Seq<char>>) -> ProgressView<
    NameSearchView,
    Seq<u32>,
> {
    match (pid, name) {
        (Some(pid), _) => ProgressView::Done(Ok(seq![pid])),
        (None, Some(name)) => NameSearchView::begin(name),
        (None, None) => ProgressView::Done(
            Err(ErrorView::InvalidArgs("specify either --pid or --name"@)),
        ),
    }
}

/// Starts resolving what a caller gave, an identifier or a name, to
/// processes. Giving both is the caller's error.
pub fn resolve_pids(pid: Option<u32>, name: Option<&str>) -> (p: Progress<NameSearch, Vec<u32>>)
    requires
        !(pid.is_some() && name.is_some()),
    ensures
        p.deep_view() == resolve_pids_spec(
            pid,
            match name {
                Some(n) => Some(n@),
                None => None,
            },
        ),
{
    match (pid, name) {
        (Some(pid), _) => {
            let mut pids: Vec<u32> = Vec::new();
            pids.push(pid);
            assert(pids.deep_view() =~= seq![pid]);
            Progress::Done(Ok(pids))
        },
        (None, Some(name)) => find_by_name(name),
        (None, None) => Progress::Done(
            Err(Error::InvalidArgs("specify either --pid or --name".to_string())),
        ),
    }
}

// ---------------------------------------------------------------------------
// Listing
// ---------------------------------------------------------------------------

/// The operation that lists all processes with their short names.
#[derive(Debug)]
pub struct Listing {
    listed: bool,
    candidates: Vec<u32>,
    next: usize,
    found: Vec<ProcessInfo>,
}

/// The mathematical content of a [`Listing`].
pub struct ListingView {
    /// Whether the listing has arrived.
    pub listed: bool,
    /// The processes that the host listed.
    pub candidates: Seq<u32>,
    /// The process that is being looked at.
    pub next: int,
    /// The processes whose names were read so far.
    pub found: Seq<ProcessInfoView>,
}

impl DeepView for Listing {
    type V = ListingView;

    closed spec fn deep_view(&self) -> ListingView {
        ListingView {
            listed: self.listed,
            candidates: self.candidates@,
            next: self.next as int,
            found: self.found.deep_view(),
        }
    }
}

impl ListingView {
    /// The operation from its start.
    pub open spec fn begin() -> ProgressView<ListingView, Seq<ProcessInfoView>> {
        ProgressView::Ask(
            ListingView { listed: false, candidates: Seq::empty(), next: 0, found: Seq::empty() },
            RequestView::List { path: proc_dir() },
        )
    }

    /// The operation from the process at `next` on. In the end the
    /// processes are handed out in the order of their names.
    pub open spec fn enter_process(self) -> ProgressView<ListingView, Seq<ProcessInfoView>> {
        if 0 <= self.next < self.candidates.len() {
            ProgressView::Ask(
                self,
                RequestView::Read { path: comm_file(self.candidates[self.next]) },
            )
        } else {
            ProgressView::Done(Ok(by_name(self.found)))
        }
    }

    /// The operation after the host's reply. A process whose short name
    /// cannot be read is left out.
    pub open spec fn resume(self, reply: ReplyView) -> ProgressView<
        ListingView,
        Seq<ProcessInfoView>,
    > {
        if !self.listed {
            match reply.entries() {
                Ok(entries) => ListingView {
                    listed: true,
                    candidates: listed_pids(entries),
                    next: 0,
                    ..self
                }.enter_process(),
                Err(f) => ProgressView::Done(Err(ErrorView::Io(f))),
            }
        } else if 0 <= self.next < self.candidates.len() {
            ListingView {
                found: match reply.text() {
                    Ok(content) => self.found.push(
                        ProcessInfoView { pid: self.candidates[self.next], name: trim(content) },
                    ),
                    Err(_) => self.found,
                },
                next: self.next + 1,
                ..self
            }.enter_process()
        } else {
            self.enter_process()
        }
    }
}

impl Listing {
    /// Starts listing all processes.
    pub fn begin() -> (p: Progress<Listing, Vec<ProcessInfo>>)
        ensures
            p.deep_view() == ListingView::begin(),
    {
        let state = Listing { listed: false, candidates: Vec::new(), next: 0, found: Vec::new() };
        assert(state.found.deep_view() =~= Seq::<ProcessInfoView>::empty());
        Progress::Ask(state, Request::List { path: "/proc".to_string() })
    }

    fn enter_process(self) -> (p: Progress<Listing, Vec<ProcessInfo>>)
        ensures
            p.deep_view() == self.deep_view().enter_process(),
    {
        if self.next < self.candidates.len() {
            let request = Request::Read { path: comm_path(self.candidates[self.next]) };
            Progress::Ask(self, request)
        } else {
            Progress::Done(Ok(sort_by_name(self.found)))
        }
    }

    /// Resumes the operation with the host's reply to its last request.
    pub fn resume(self, reply: Reply) -> (p: Progress<Listing, Vec<ProcessInfo>>)
        ensures
            p.deep_view() == self.deep_view().resume(reply@),
    {
        if !self.listed {
            match reply.into_entries() {
                Ok(entries) => {
                    let candidates = pids_of_listing(&entries);
                    let state = Listing { listed: true, candidates, next: 0, ..self };
                    state.enter_process()
                },
                Err(f) => Progress::Done(Err(Error::Io(f))),
            }
        } else if self.next < self.candidates.len() {
            let mut found = self.found;
            let ghost before = found.deep_view();
            match reply.into_text() {
                Ok(content) => {
                    let info = ProcessInfo {
                        pid: self.candidates[self.next],
                        name: trimmed_string(content.as_str()),
                    };
                    let ghost told = info.deep_view();
                    found.push(info);
                    assert(found.deep_view() =~= before.push(told));
                },
                Err(_) => {},
            }
            let state = Listing {
                listed: self.listed,
                candidates: self.candidates,
                next: self.next + 1,
                found,
            };
            state.enter_process()
        } else {
            self.enter_process()
        }
    }
}

/// Starts listing all processes with their short names. The operation
/// yields them in the order of their names.
pub fn list_all() -> (p: Progress<Listing, Vec<ProcessInfo>>)
    ensures
        p.deep_view() == ListingView::begin(),
{
    Listing::begin()
}

} // verus!
