//! The manager of the control groups under one base directory.
//!
//! The manager owns nothing but the base path. Each of its operations is
//! handed out as a state machine that the caller drives against the host:
//! perform the request, resume with the reply, until the result is there.

use crate::apply::{enrol, enrol_failure, enrol_request, adding, Application, ApplicationView};
use crate::cleanup::{Cleanup, CleanupView};
use crate::error::{Error, ErrorView};
use crate::host::{Progress, ProgressView, Reply, ReplyView, Request, RequestView};
use crate::kernel::{
    is_name_char, join, join_path, lemma_rejection_iff_invalid, name_rejection, pid_group,
    pid_group_name, valid_name,
};
use crate::limit::{Limit, LimitView};
use crate::prepare::{Preparation, PreparationView};
use crate::scan::{Scan, ScanView};
use crate::text::{
    chars_of, has_char, has_prefix, lines, push_str, split_lines, split_words, starts_with_str,
    string_of, texts, words,
};
use crate::writer::{cgroup_failure, LimitWriter, LimitWriterView};
use vstd::prelude::*;

verus! {

/// Where the unified control-group hierarchy is mounted.
pub const CGROUP_ROOT: &'static str = "/sys/fs/cgroup";

/// The manager of the control groups under one base directory.
#[derive(Debug)]
pub struct CgroupManager {
    base_path: String,
}

impl DeepView for CgroupManager {
    type V = Seq<char>;

    /// The base directory.
    closed spec fn deep_view(&self) -> Seq<char> {
        self.base_path@
    }
}

// ---------------------------------------------------------------------------
// Finding the base directory
// ---------------------------------------------------------------------------

/// The lines of `ls` from the first one that starts with `Uid:` on.
pub open spec fn from_uid_line(ls: Seq<Seq<char>>) -> Seq<Seq<char>>
    decreases ls.len(),
{
    if ls.len() == 0 || has_prefix(ls[0], "Uid:"@) {
        ls
    } else {
        from_uid_line(ls.drop_first())
    }
}

/// The user that a process status names: the second word of the first line
/// that starts with `Uid:`.
pub open spec fn uid_of_status(content: Seq<char>) -> Option<Seq<char>> {
    let rest = from_uid_line(lines(content));
    if rest.len() > 0 && words(rest[0]).len() > 1 {
        Some(words(rest[0])[1])
    } else {
        None
    }
}

/// Reads the user from the content of a process status file.
pub fn parse_uid(content: &str) -> (r: Option<String>)
    ensures
        match r {
            Some(uid) => uid_of_status(content@) == Some(uid@),
            None => uid_of_status(content@).is_none(),
        },
{
    let chars = chars_of(content);
    let ls = split_lines(chars.as_slice());
    let mut i: usize = 0;
    assert(texts(ls@).subrange(0, texts(ls@).len() as int) == texts(ls@));
    while i < ls.len()
        invariant
            i <= ls@.len(),
            texts(ls@) == lines(content@),
            from_uid_line(texts(ls@)) == from_uid_line(
                texts(ls@).subrange(i as int, texts(ls@).len() as int),
            ),
        decreases ls@.len() - i,
    {
        let ghost rest = texts(ls@).subrange(i as int, texts(ls@).len() as int);
        assert(rest[0] == ls@[i as int]@);
        if starts_with_str(ls[i], "Uid:") {
            assert(from_uid_line(rest) == rest);
            let ws = split_words(ls[i]);
            if ws.len() > 1 {
                assert(texts(ws@)[1] == ws@[1]@);
                return Some(string_of(ws[1]));
            } else {
                return None;
            }
        }
        assert(rest.drop_first() == texts(ls@).subrange(i + 1, texts(ls@).len() as int));
        i += 1;
    }
    assert(texts(ls@).subrange(i as int, texts(ls@).len() as int).len() == 0);
    None
}

/// The directory that the service manager delegates to the user `uid`.
pub open spec fn user_service_dir(root: Seq<char>, uid: Seq<char>) -> Seq<char> {
    root + "/user.slice/user-"@ + uid + ".slice/user@"@ + uid + ".service"@
}

/// The directory that the service manager delegates to the user `uid`.
pub fn user_service(root: &str, uid: &str) -> (r: String)
    ensures
        r@ == user_service_dir(root@, uid@),
{
    let mut out = chars_of(root);
    push_str(&mut out, "/user.slice/user-");
    push_str(&mut out, uid);
    push_str(&mut out, ".slice/user@");
    push_str(&mut out, uid);
    push_str(&mut out, ".service");
    string_of(out.as_slice())
}

/// Which answer a [`Discovery`] waits for.
#[derive(Debug)]
pub enum DiscoveryStage {
    /// Whether the hierarchy is mounted.
    ProbeHierarchy,
    /// The status of the calling process.
    ReadStatus,
    /// Whether the user's delegated directory exists.
    ProbeUser(String),
}

/// The mathematical content of a [`DiscoveryStage`].
pub enum DiscoveryStageView {
    ProbeHierarchy,
    ReadStatus,
    ProbeUser(Seq<char>),
}

/// The operation that finds the base directory and makes the manager.
#[derive(Debug)]
pub struct Discovery {
    root: String,
    uid: Option<String>,
    stage: DiscoveryStage,
}

/// The mathematical content of a [`Discovery`].
pub struct DiscoveryView {
    /// Where the hierarchy is mounted.
    pub root: Seq<char>,
    /// The user as the caller's environment names it, if it does.
    pub uid: Option<Seq<char>>,
    /// The answer that is waited for.
    pub stage: DiscoveryStageView,
}

impl DeepView for Discovery {
    type V = DiscoveryView;

    closed spec fn deep_view(&self) -> DiscoveryView {
        DiscoveryView {
            root: self.root@,
            uid: match self.uid {
                Some(u) => Some(u@),
                None => None,
            },
            stage: match self.stage {
                DiscoveryStage::ProbeHierarchy => DiscoveryStageView::ProbeHierarchy,
                DiscoveryStage::ReadStatus => DiscoveryStageView::ReadStatus,
                DiscoveryStage::ProbeUser(dir) => DiscoveryStageView::ProbeUser(dir@),
            },
        }
    }
}

impl DiscoveryView {
    /// The operation from its start: the hierarchy is mounted if its root
    /// lists controllers.
    pub open spec fn begin(root: Seq<char>, uid: Option<Seq<char>>) -> ProgressView<
        DiscoveryView,
        Seq<char>,
    > {
        ProgressView::Ask(
            DiscoveryView { root, uid, stage: DiscoveryStageView::ProbeHierarchy },
            RequestView::Exists { path: join(root, "cgroup.controllers"@) },
        )
    }

    /// The base directory that needs privilege or earlier delegation:
    /// directly under the root.
    pub open spec fn fallback(self) -> ProgressView<DiscoveryView, Seq<char>> {
        ProgressView::Done(Ok(join(self.root, "rlm"@)))
    }

    /// The operation once the user is known.
    pub open spec fn enter_user(self, uid: Seq<char>) -> ProgressView<DiscoveryView, Seq<char>> {
        ProgressView::Ask(
            DiscoveryView {
                stage: DiscoveryStageView::ProbeUser(user_service_dir(self.root, uid)),
                ..self
            },
            RequestView::Exists { path: user_service_dir(self.root, uid) },
        )
    }

    /// The operation after the host's reply.
    ///
    /// Without the hierarchy there is no manager. The user comes from the
    /// caller's environment or else from the status of the calling process.
    /// The base is the directory `rlm` in the user's delegated directory if
    /// that exists, and directly under the root otherwise.
    pub open spec fn resume(self, reply: ReplyView) -> ProgressView<DiscoveryView, Seq<char>> {
        match self.stage {
            DiscoveryStageView::ProbeHierarchy => if !reply.found() {
                ProgressView::Done(Err(ErrorView::CgroupsV2NotAvailable(self.root)))
            } else {
                match self.uid {
                    Some(uid) => self.enter_user(uid),
                    None => ProgressView::Ask(
                        DiscoveryView { stage: DiscoveryStageView::ReadStatus, ..self },
                        RequestView::Read { path: "/proc/self/status"@ },
                    ),
                }
            },
            DiscoveryStageView::ReadStatus => match reply.text() {
                Ok(content) => match uid_of_status(content) {
                    Some(uid) => self.enter_user(uid),
                    None => self.fallback(),
                },
                Err(_) => self.fallback(),
            },
            DiscoveryStageView::ProbeUser(dir) => if reply.found() {
                ProgressView::Done(Ok(join(dir, "rlm"@)))
            } else {
                self.fallback()
            },
        }
    }
}

impl Discovery {
    fn fallback(self) -> (p: Progress<Discovery, CgroupManager>)
        ensures
            p.deep_view() == self.deep_view().fallback(),
    {
        Progress::Done(Ok(CgroupManager { base_path: join_path(self.root.as_str(), "rlm") }))
    }

    fn enter_user(self, uid: &str) -> (p: Progress<Discovery, CgroupManager>)
        ensures
            p.deep_view() == self.deep_view().enter_user(uid@),
    {
        let dir = user_service(self.root.as_str(), uid);
        let request = Request::Exists { path: dir.clone() };
        Progress::Ask(
            Discovery { root: self.root, uid: self.uid, stage: DiscoveryStage::ProbeUser(dir) },
            request,
        )
    }

    /// Resumes the operation with the host's reply to its last request.
    pub fn resume(self, reply: Reply) -> (p: Progress<Discovery, CgroupManager>)
        ensures
            p.deep_view() == self.deep_view().resume(reply@),
    {
        let Discovery { root, uid, stage } = self;
        match stage {
            DiscoveryStage::ProbeHierarchy => if !reply.is_found() {
                Progress::Done(Err(Error::CgroupsV2NotAvailable(root)))
            } else {
                match &uid {
                    Some(u) => {
                        let name = u.clone();
                        let state = Discovery { root, uid, stage: DiscoveryStage::ProbeHierarchy };
                        state.enter_user(name.as_str())
                    },
                    None => Progress::Ask(
                        Discovery { root, uid, stage: DiscoveryStage::ReadStatus },
                        Request::Read { path: "/proc/self/status".to_string() },
                    ),
                }
            },
            DiscoveryStage::ReadStatus => {
                let state = Discovery { root, uid, stage: DiscoveryStage::ReadStatus };
                match reply.into_text() {
                    Ok(content) => match parse_uid(content.as_str()) {
                        Some(found) => state.enter_user(found.as_str()),
                        None => state.fallback(),
                    },
                    Err(_) => state.fallback(),
                }
            },
            DiscoveryStage::ProbeUser(dir) => if reply.is_found() {
                Progress::Done(Ok(CgroupManager { base_path: join_path(dir.as_str(), "rlm") }))
            } else {
                let state = Discovery { root, uid, stage: DiscoveryStage::ReadStatus };
                state.fallback()
            },
        }
    }
}

// ---------------------------------------------------------------------------
// Putting a process into a group
// ---------------------------------------------------------------------------

/// The operation that puts a process into an existing group.
#[derive(Debug)]
pub struct Enrolment {
    pid: u32,
}

impl DeepView for Enrolment {
    type V = u32;

    /// The process being put in.
    closed spec fn deep_view(&self) -> u32 {
        self.pid
    }
}

/// The result of putting the process `pid` into a group, given the host's
/// reply: success, or an error that names the process and tells what the
/// host said.
pub open spec fn enrolled(pid: u32, reply: ReplyView) -> Result<(), ErrorView> {
    match reply.done() {
        Ok(_) => Ok(()),
        Err(f) => Err(cgroup_failure(adding(pid), f)),
    }
}

impl Enrolment {
    /// Ends the operation with the host's reply to its request.
    pub fn resume(self, reply: Reply) -> (r: Result<(), Error>)
        ensures
            match r {
                Ok(_) => enrolled(self.deep_view(), reply@).is_ok(),
                Err(e) => enrolled(self.deep_view(), reply@) == Err::<(), ErrorView>(e@),
            },
    {
        match reply.into_done() {
            Ok(_) => Ok(()),
            Err(f) => Err(enrol_failure(self.pid, &f)),
        }
    }
}

// ---------------------------------------------------------------------------
// The manager
// ---------------------------------------------------------------------------

impl CgroupManager {
    /// Starts making a manager: the hierarchy is checked and the base
    /// directory found. `uid` is the user as the caller's environment names
    /// it, if it does.
    pub fn new(uid: Option<&str>) -> (p: Progress<Discovery, CgroupManager>)
        ensures
            p.deep_view() == DiscoveryView::begin(
                CGROUP_ROOT@,
                match uid {
                    Some(u) => Some(u@),
                    None => None,
                },
            ),
    {
        let state = Discovery {
            root: CGROUP_ROOT.to_string(),
            uid: match uid {
                Some(u) => Some(u.to_string()),
                None => None,
            },
            stage: DiscoveryStage::ProbeHierarchy,
        };
        let request = Request::Exists { path: join_path(CGROUP_ROOT, "cgroup.controllers") };
        Progress::Ask(state, request)
    }

    /// A manager of the groups under `base_path`, wherever that lies.
    pub fn with_base_path(base_path: &str) -> (m: CgroupManager)
        ensures
            m.deep_view() == base_path@,
    {
        CgroupManager { base_path: base_path.to_string() }
    }

    /// The directory under which this manager creates its groups.
    pub fn base_path(&self) -> (r: &str)
        ensures
            r@ == self.deep_view(),
    {
        self.base_path.as_str()
    }

    /// Starts creating the group `name` with `limit`, before any process is
    /// put into it. The operation yields the group's path.
    pub fn prepare_cgroup(&self, name: &str, limit: &Limit) -> (p: Progress<Preparation, String>)
        ensures
            p.deep_view() == PreparationView::begin(self.deep_view(), name@, limit@),
    {
        Preparation::begin(self.base_path.as_str(), name, limit)
    }

    /// Starts writing `limit` into the existing group at `cgroup_path`.
    pub fn set_limits(&self, cgroup_path: &str, limit: &Limit) -> (p: Progress<LimitWriter, ()>)
        ensures
            p.deep_view() == LimitWriterView::initial(cgroup_path@, limit@).begin(),
    {
        LimitWriter::begin(cgroup_path.to_string(), limit.clone())
    }

    /// Starts putting the process `pid` into the existing group at
    /// `cgroup_path`: hands out the request and the operation that takes
    /// the reply.
    pub fn add_to_cgroup(&self, cgroup_path: &str, pid: u32) -> (r: (Enrolment, Request))
        ensures
            r.0.deep_view() == pid,
            r.1@ == enrol(cgroup_path@, pid),
    {
        (Enrolment { pid }, enrol_request(cgroup_path, pid))
    }

    /// Starts looking for the managed group that holds the process `pid`.
    /// The operation yields the group's name, if there is one.
    pub fn find_cgroup_for_pid(&self, pid: u32) -> (p: Progress<Scan, Option<String>>)
        ensures
            p.deep_view() == ScanView::begin(self.deep_view(), pid),
    {
        Scan::begin(self.base_path.as_str(), pid)
    }

    /// Starts putting `limit` on the running process `pid`.
    pub fn apply_limit(&self, pid: u32, limit: &Limit) -> (p: Progress<Application, ()>)
        ensures
            p.deep_view() == ApplicationView::begin(self.deep_view(), pid, limit@),
    {
        Application::begin(self.base_path.as_str(), pid, limit)
    }

    /// Starts taking the limits off the process `pid`: the group that was
    /// made for it is taken down.
    pub fn remove_limit(&self, pid: u32) -> (p: Progress<Cleanup, ()>)
        ensures
            p.deep_view() == CleanupView::begin(self.deep_view(), pid_group_name(pid)),
    {
        let own = pid_group(pid);
        Cleanup::begin(self.base_path.as_str(), own.as_str())
    }

    /// Starts taking down the group `name`.
    pub fn cleanup_cgroup(&self, name: &str) -> (p: Progress<Cleanup, ()>)
        ensures
            p.deep_view() == CleanupView::begin(self.deep_view(), name@),
    {
        Cleanup::begin(self.base_path.as_str(), name)
    }
}

/// A name is validated before any path is built from it: creating or
/// taking down a group under a name that is not valid asks the host for
/// nothing and fails with the reason.
pub proof fn lemma_refused_name_asks_nothing(base: Seq<char>, name: Seq<char>, limit: LimitView)
    requires
        !valid_name(name),
    ensures
        name_rejection(name).is_some(),
        PreparationView::begin(base, name, limit) == ProgressView::<
            PreparationView,
            Seq<char>,
        >::Done(Err(ErrorView::InvalidArgs(name_rejection(name).unwrap()))),
        CleanupView::begin(base, name) == ProgressView::<CleanupView, ()>::Done(
            Err(ErrorView::InvalidArgs(name_rejection(name).unwrap())),
        ),
{
    lemma_rejection_iff_invalid(name);
}

/// Every path that creating a group under a valid name first asks for lies
/// in the base directory: the base itself, then the group directly below it.
pub proof fn lemma_valid_name_stays_below_base(base: Seq<char>, name: Seq<char>, limit: LimitView)
    requires
        valid_name(name),
    ensures
        !has_char(name, '/'),
        match PreparationView::begin(base, name, limit) {
            ProgressView::Ask(state, request) => state.path == join(base, name) && request
                == (RequestView::CreateDirAll { path: base }),
            ProgressView::Done(_) => false,
        },
        match CleanupView::begin(base, name) {
            ProgressView::Ask(state, request) => state.path == join(base, name) && request
                == (RequestView::Exists { path: join(base, name) }),
            ProgressView::Done(_) => false,
        },
{
    lemma_rejection_iff_invalid(name);
    assert forall|i: int| 0 <= i < name.len() implies name[i] != '/' by {
        assert(is_name_char(name[i]));
    }
}

} // verus!
