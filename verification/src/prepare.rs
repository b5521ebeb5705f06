//! Creating a control group and setting its limits, before any process is
//! put into it.

use crate::error::{Error, ErrorView, IoFailureView, IoKind};
use crate::host::{Progress, ProgressView, Reply, ReplyView, Request, RequestView};
use crate::kernel::{
    join, join_path, name_rejection, sanitize_cgroup_name, subtree_control_content,
    subtree_control_text,
};
use crate::limit::{Limit, LimitView};
use crate::writer::{cgroup_failure, failed, LimitWriter, LimitWriterView};
use vstd::prelude::*;

verus! {

/// Which answer a [`Preparation`] waits for.
#[derive(Debug)]
pub enum PrepareStage {
    /// The base directory was asked for.
    EnsureBase,
    /// The list of available controllers was asked for.
    ReadControllers,
    /// The controllers were enabled for the groups below the base.
    EnableControllers,
    /// The group's directory was asked for.
    CreateGroup,
    /// The limits are being written.
    Limits(LimitWriter),
}

/// The mathematical content of a [`PrepareStage`].
pub enum PrepareStageView {
    EnsureBase,
    ReadControllers,
    EnableControllers,
    CreateGroup,
    Limits(LimitWriterView),
}

/// The operation that creates a control group and sets its limits.
#[derive(Debug)]
pub struct Preparation {
    base: String,
    path: String,
    limit: Limit,
    stage: PrepareStage,
}

/// The mathematical content of a [`Preparation`].
pub struct PreparationView {
    /// The directory under which managed groups are created.
    pub base: Seq<char>,
    /// The directory of the group being prepared.
    pub path: Seq<char>,
    /// The limit to set.
    pub limit: LimitView,
    /// The answer that is waited for.
    pub stage: PrepareStageView,
}

impl DeepView for Preparation {
    type V = PreparationView;

    closed spec fn deep_view(&self) -> PreparationView {
        PreparationView {
            base: self.base@,
            path: self.path@,
            limit: self.limit@,
            stage: match self.stage {
                PrepareStage::EnsureBase => PrepareStageView::EnsureBase,
                PrepareStage::ReadControllers => PrepareStageView::ReadControllers,
                PrepareStage::EnableControllers => PrepareStageView::EnableControllers,
                PrepareStage::CreateGroup => PrepareStageView::CreateGroup,
                PrepareStage::Limits(w) => PrepareStageView::Limits(w.deep_view()),
            },
        }
    }
}

/// Whether a failed creation of a directory is as good as success: the
/// directory was there already.
pub open spec fn already_there(f: IoFailureView) -> bool {
    f.kind == IoKind::AlreadyExists
}

impl PreparationView {
    /// The operation from its start: the name is checked before any path is
    /// built from it, then the base directory is asked for.
    pub open spec fn begin(base: Seq<char>, name: Seq<char>, limit: LimitView) -> ProgressView<
        PreparationView,
        Seq<char>,
    > {
        match name_rejection(name) {
            Some(reason) => ProgressView::Done(Err(ErrorView::InvalidArgs(reason))),
            None => ProgressView::Ask(
                PreparationView {
                    base,
                    path: join(base, name),
                    limit,
                    stage: PrepareStageView::EnsureBase,
                },
                RequestView::CreateDirAll { path: base },
            ),
        }
    }

    /// The operation at the point where the base directory exists.
    pub open spec fn enter_controllers(self) -> ProgressView<PreparationView, Seq<char>> {
        ProgressView::Ask(
            PreparationView { stage: PrepareStageView::ReadControllers, ..self },
            RequestView::Read { path: join(self.base, "cgroup.controllers"@) },
        )
    }

    /// The operation at the point where the group's directory exists.
    pub open spec fn enter_limits(self) -> ProgressView<PreparationView, Seq<char>> {
        self.lift(LimitWriterView::initial(self.path, self.limit).begin())
    }

    /// The progress of writing the limits, as progress of the preparation.
    pub open spec fn lift(self, p: ProgressView<LimitWriterView, ()>) -> ProgressView<
        PreparationView,
        Seq<char>,
    > {
        match p {
            ProgressView::Ask(w, r) => ProgressView::Ask(
                PreparationView { stage: PrepareStageView::Limits(w), ..self },
                r,
            ),
            ProgressView::Done(Ok(_)) => ProgressView::Done(Ok(self.path)),
            ProgressView::Done(Err(e)) => ProgressView::Done(Err(e)),
        }
    }

    /// The operation after the host's reply.
    ///
    /// A directory that exists already is as good as one just created. A
    /// refusal of access is reported with the path. Controllers that the
    /// base does not advertise are left out; if it advertises none, the
    /// operation fails.
    pub open spec fn resume(self, reply: ReplyView) -> ProgressView<PreparationView, Seq<char>> {
        match self.stage {
            PrepareStageView::EnsureBase => match reply.done() {
                Ok(_) => self.enter_controllers(),
                Err(f) => if f.kind == IoKind::PermissionDenied {
                    ProgressView::Done(Err(ErrorView::PermissionDenied { path: self.base }))
                } else if already_there(f) {
                    self.enter_controllers()
                } else {
                    ProgressView::Done(Err(ErrorView::Io(f)))
                },
            },
            PrepareStageView::ReadControllers => {
                let available = match reply.text() {
                    Ok(t) => t,
                    Err(_) => Seq::empty(),
                };
                match subtree_control_text(available) {
                    Some(tokens) => ProgressView::Ask(
                        PreparationView { stage: PrepareStageView::EnableControllers, ..self },
                        RequestView::Write {
                            path: join(self.base, "cgroup.subtree_control"@),
                            content: tokens,
                        },
                    ),
                    None => ProgressView::Done(
                        Err(
                            ErrorView::Cgroup(
                                "no controllers available - run as root or configure cgroup delegation"@,
                            ),
                        ),
                    ),
                }
            },
            PrepareStageView::EnableControllers => match reply.done() {
                Ok(_) => ProgressView::Ask(
                    PreparationView { stage: PrepareStageView::CreateGroup, ..self },
                    RequestView::CreateDir { path: self.path },
                ),
                Err(f) => if f.kind == IoKind::PermissionDenied {
                    ProgressView::Done(
                        Err(
                            ErrorView::Cgroup(
                                "cannot enable cgroup controllers - run as root or configure systemd cgroup delegation"@,
                            ),
                        ),
                    )
                } else {
                    ProgressView::Done(Err(cgroup_failure("failed to enable controllers: "@, f)))
                },
            },
            PrepareStageView::CreateGroup => match reply.done() {
                Ok(_) => self.enter_limits(),
                Err(f) => if already_there(f) {
                    self.enter_limits()
                } else if f.kind == IoKind::PermissionDenied {
                    ProgressView::Done(Err(ErrorView::PermissionDenied { path: self.path }))
                } else {
                    ProgressView::Done(Err(ErrorView::Io(f)))
                },
            },
            PrepareStageView::Limits(w) => self.lift(w.resume(reply)),
        }
    }
}

impl Preparation {
    /// Starts preparing the group `name` under `base` with `limit`.
    pub fn begin(base: &str, name: &str, limit: &Limit) -> (p: Progress<Preparation, String>)
        ensures
            p.deep_view() == PreparationView::begin(base@, name@, limit@),
    {
        match sanitize_cgroup_name(name) {
            Err(e) => Progress::Done(Err(e)),
            Ok(safe) => {
                let state = Preparation {
                    base: base.to_string(),
                    path: join_path(base, safe),
                    limit: limit.clone(),
                    stage: PrepareStage::EnsureBase,
                };
                Progress::Ask(state, Request::CreateDirAll { path: base.to_string() })
            },
        }
    }

    fn enter_controllers(self) -> (p: Progress<Preparation, String>)
        ensures
            p.deep_view() == self.deep_view().enter_controllers(),
    {
        let request = Request::Read { path: join_path(self.base.as_str(), "cgroup.controllers") };
        Progress::Ask(Preparation { stage: PrepareStage::ReadControllers, ..self }, request)
    }

    fn enter_limits(self) -> (p: Progress<Preparation, String>)
        ensures
            p.deep_view() == self.deep_view().enter_limits(),
    {
        let step = LimitWriter::begin(self.path.clone(), self.limit.clone());
        self.lift(step)
    }

    fn lift(self, step: Progress<LimitWriter, ()>) -> (p: Progress<Preparation, String>)
        ensures
            p.deep_view() == self.deep_view().lift(step.deep_view()),
    {
        match step {
            Progress::Ask(w, r) => Progress::Ask(
                Preparation {
                    base: self.base,
                    path: self.path,
                    limit: self.limit,
                    stage: PrepareStage::Limits(w),
                },
                r,
            ),
            Progress::Done(Ok(_)) => Progress::Done(Ok(self.path)),
            Progress::Done(Err(e)) => Progress::Done(Err(e)),
        }
    }

    /// Resumes the operation with the host's reply to its last request.
    pub fn resume(self, reply: Reply) -> (p: Progress<Preparation, String>)
        ensures
            p.deep_view() == self.deep_view().resume(reply@),
    {
        let Preparation { base, path, limit, stage } = self;
        match stage {
            PrepareStage::EnsureBase => {
                let state = Preparation { base, path, limit, stage: PrepareStage::EnsureBase };
                match reply.into_done() {
                    Ok(_) => state.enter_controllers(),
                    Err(f) => match f.kind {
                        IoKind::PermissionDenied => Progress::Done(
                            Err(Error::PermissionDenied { path: state.base }),
                        ),
                        IoKind::AlreadyExists => state.enter_controllers(),
                        _ => Progress::Done(Err(Error::Io(f))),
                    },
                }
            },
            PrepareStage::ReadControllers => {
                let available = match reply.into_text() {
                    Ok(t) => t,
                    Err(_) => String::new(),
                };
                match subtree_control_content(available.as_str()) {
                    Some(tokens) => {
                        let request = Request::Write {
                            path: join_path(base.as_str(), "cgroup.subtree_control"),
                            content: tokens,
                        };
                        Progress::Ask(
                            Preparation {
                                base,
                                path,
                                limit,
                                stage: PrepareStage::EnableControllers,
                            },
                            request,
                        )
                    },
                    None => Progress::Done(
                        Err(
                            Error::Cgroup(
                                "no controllers available - run as root or configure cgroup delegation".to_string(),
                            ),
                        ),
                    ),
                }
            },
            PrepareStage::EnableControllers => match reply.into_done() {
                Ok(_) => {
                    let request = Request::CreateDir { path: path.clone() };
                    Progress::Ask(
                        Preparation { base, path, limit, stage: PrepareStage::CreateGroup },
                        request,
                    )
                },
                Err(f) => match f.kind {
                    IoKind::PermissionDenied => Progress::Done(
                        Err(
                            Error::Cgroup(
                                "cannot enable cgroup controllers - run as root or configure systemd cgroup delegation".to_string(),
                            ),
                        ),
                    ),
                    _ => Progress::Done(Err(failed("failed to enable controllers: ", &f))),
                },
            },
            PrepareStage::CreateGroup => {
                let state = Preparation { base, path, limit, stage: PrepareStage::CreateGroup };
                match reply.into_done() {
                    Ok(_) => state.enter_limits(),
                    Err(f) => match f.kind {
                        IoKind::AlreadyExists => state.enter_limits(),
                        IoKind::PermissionDenied => Progress::Done(
                            Err(Error::PermissionDenied { path: state.path }),
                        ),
                        _ => Progress::Done(Err(Error::Io(f))),
                    },
                }
            },
            PrepareStage::Limits(w) => {
                let step = w.resume(reply);
                let state = Preparation { base, path, limit, stage: PrepareStage::EnsureBase };
                state.lift(step)
            },
        }
    }
}

} // verus!
