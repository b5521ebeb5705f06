//! The boundary between the library and the machine it runs on.
//!
//! The library never touches the file system. An operation that needs the
//! host is a small state machine: it hands out a [`Request`], the caller
//! performs it and hands back the [`Reply`], and the machine answers with
//! the next request or with its result. All decisions are taken here; the
//! caller only performs.

use crate::error::{Error, ErrorView, IoFailure, IoFailureView, IoKind};
use vstd::prelude::*;

verus! {

/// One thing the host is asked to do.
#[derive(Debug)]
pub enum Request {
    /// Tell whether anything exists at `path`.
    Exists { path: String },
    /// Read the file at `path` as text.
    Read { path: String },
    /// List the entries of the directory at `path`.
    List { path: String },
    /// Tell the base name of the executable that process `pid` runs.
    ExeName { pid: u32 },
    /// Create the directory `path`; its parent exists.
    CreateDir { path: String },
    /// Create the directory `path` and every missing parent.
    CreateDirAll { path: String },
    /// Write `content` to the file at `path`, replacing what it holds.
    Write { path: String, content: String },
    /// Remove the empty directory `path`.
    RemoveDir { path: String },
    /// Wait for `millis` milliseconds.
    Sleep { millis: u64 },
}

/// The mathematical content of a [`Request`].
pub enum RequestView {
    Exists { path: Seq<char> },
    Read { path: Seq<char> },
    List { path: Seq<char> },
    ExeName { pid: u32 },
    CreateDir { path: Seq<char> },
    CreateDirAll { path: Seq<char> },
    Write { path: Seq<char>, content: Seq<char> },
    RemoveDir { path: Seq<char> },
    Sleep { millis: u64 },
}

impl View for Request {
    type V = RequestView;

    open spec fn view(&self) -> RequestView {
        match self {
            Request::Exists { path } => RequestView::Exists { path: path@ },
            Request::Read { path } => RequestView::Read { path: path@ },
            Request::List { path } => RequestView::List { path: path@ },
            Request::ExeName { pid } => RequestView::ExeName { pid: *pid },
            Request::CreateDir { path } => RequestView::CreateDir { path: path@ },
            Request::CreateDirAll { path } => RequestView::CreateDirAll { path: path@ },
            Request::Write { path, content } => RequestView::Write {
                path: path@,
                content: content@,
            },
            Request::RemoveDir { path } => RequestView::RemoveDir { path: path@ },
            Request::Sleep { millis } => RequestView::Sleep { millis: *millis },
        }
    }
}

impl RequestView {
    /// The request changes nothing on the host.
    pub open spec fn is_read_only(self) -> bool {
        match self {
            RequestView::Exists { .. } => true,
            RequestView::Read { .. } => true,
            RequestView::List { .. } => true,
            RequestView::ExeName { .. } => true,
            _ => false,
        }
    }
}

/// One entry of a directory.
#[derive(Debug)]
pub struct DirEntry {
    /// The entry's name, without the directory's path.
    pub name: String,
    /// Whether the entry is itself a directory.
    pub is_dir: bool,
}

/// The mathematical content of a [`DirEntry`].
pub struct DirEntryView {
    pub name: Seq<char>,
    pub is_dir: bool,
}

impl View for DirEntry {
    type V = DirEntryView;

    open spec fn view(&self) -> DirEntryView {
        DirEntryView { name: self.name@, is_dir: self.is_dir }
    }
}

/// The contents of a list of directory entries.
pub open spec fn entry_views(entries: Seq<DirEntry>) -> Seq<DirEntryView> {
    Seq::new(entries.len(), |i: int| entries[i]@)
}

/// What the host answers.
#[derive(Debug)]
pub enum Reply {
    /// Answer to `Exists`.
    Found(bool),
    /// Answer to `Read` and `ExeName`.
    Text(String),
    /// Answer to `List`, in the order in which the host walks the directory.
    Entries(Vec<DirEntry>),
    /// The request was carried out; answer to those that yield no value.
    Done,
    /// The request failed.
    Failed(IoFailure),
}

/// The mathematical content of a [`Reply`].
pub enum ReplyView {
    Found(bool),
    Text(Seq<char>),
    Entries(Seq<DirEntryView>),
    Done,
    Failed(IoFailureView),
}

impl View for Reply {
    type V = ReplyView;

    open spec fn view(&self) -> ReplyView {
        match self {
            Reply::Found(b) => ReplyView::Found(*b),
            Reply::Text(t) => ReplyView::Text(t@),
            Reply::Entries(e) => ReplyView::Entries(entry_views(e@)),
            Reply::Done => ReplyView::Done,
            Reply::Failed(f) => ReplyView::Failed(f@),
        }
    }
}

/// The failure that stands for a reply of the wrong kind.
pub open spec fn mismatch() -> IoFailureView {
    IoFailureView { kind: IoKind::Other, message: "unexpected reply from the host"@ }
}

impl ReplyView {
    /// The reply read as the answer to a request that yields text.
    pub open spec fn text(self) -> Result<Seq<char>, IoFailureView> {
        match self {
            ReplyView::Text(t) => Ok(t),
            ReplyView::Failed(f) => Err(f),
            _ => Err(mismatch()),
        }
    }

    /// The reply read as the answer to a request that yields nothing.
    pub open spec fn done(self) -> Result<(), IoFailureView> {
        match self {
            ReplyView::Done => Ok(()),
            ReplyView::Failed(f) => Err(f),
            _ => Err(mismatch()),
        }
    }

    /// The reply read as the answer to `Exists`. A failure to find out
    /// counts as absence.
    pub open spec fn found(self) -> bool {
        self == ReplyView::Found(true)
    }

    /// The reply read as the answer to `List`.
    pub open spec fn entries(self) -> Result<Seq<DirEntryView>, IoFailureView> {
        match self {
            ReplyView::Entries(e) => Ok(e),
            ReplyView::Failed(f) => Err(f),
            _ => Err(mismatch()),
        }
    }
}

/// The failure that stands for a reply of the wrong kind.
pub fn mismatch_failure() -> (f: IoFailure)
    ensures
        f@ == mismatch(),
{
    IoFailure { kind: IoKind::Other, message: "unexpected reply from the host".to_string() }
}

impl Reply {
    /// Reads the reply as the answer to a request that yields text.
    pub fn into_text(self) -> (r: Result<String, IoFailure>)
        ensures
            match r {
                Ok(t) => self@.text() == Ok::<Seq<char>, IoFailureView>(t@),
                Err(f) => self@.text() == Err::<Seq<char>, IoFailureView>(f@),
            },
    {
        match self {
            Reply::Text(t) => Ok(t),
            Reply::Failed(f) => Err(f),
            _ => Err(mismatch_failure()),
        }
    }

    /// Reads the reply as the answer to a request that yields nothing.
    pub fn into_done(self) -> (r: Result<(), IoFailure>)
        ensures
            match r {
                Ok(_) => self@.done().is_ok(),
                Err(f) => self@.done() == Err::<(), IoFailureView>(f@),
            },
    {
        match self {
            Reply::Done => Ok(()),
            Reply::Failed(f) => Err(f),
            _ => Err(mismatch_failure()),
        }
    }

    /// Reads the reply as the answer to `Exists`.
    pub fn is_found(&self) -> (r: bool)
        ensures
            r == self@.found(),
    {
        match self {
            Reply::Found(b) => *b,
            _ => false,
        }
    }

    /// Reads the reply as the answer to `List`.
    pub fn into_entries(self) -> (r: Result<Vec<DirEntry>, IoFailure>)
        ensures
            match r {
                Ok(e) => self@.entries() == Ok::<Seq<DirEntryView>, IoFailureView>(
                    entry_views(e@),
                ),
                Err(f) => self@.entries() == Err::<Seq<DirEntryView>, IoFailureView>(f@),
            },
    {
        match self {
            Reply::Entries(e) => Ok(e),
            Reply::Failed(f) => Err(f),
            _ => Err(mismatch_failure()),
        }
    }
}

/// Where an operation stands after a step: it needs the host once more, or
/// it is over.
///
/// `M` is the operation under way, to be resumed with the host's reply; `T`
/// is what the operation yields.
#[derive(Debug)]
pub enum Progress<M, T> {
    /// The host is to perform this request; its reply resumes the operation.
    Ask(M, Request),
    /// The operation is over, with this result.
    Done(Result<T, Error>),
}

/// The mathematical content of a [`Progress`].
pub enum ProgressView<M, V> {
    Ask(M, RequestView),
    Done(Result<V, ErrorView>),
}

impl<M: DeepView, T: DeepView> DeepView for Progress<M, T> {
    type V = ProgressView<M::V, T::V>;

    open spec fn deep_view(&self) -> ProgressView<M::V, T::V> {
        match self {
            Progress::Ask(m, r) => ProgressView::Ask(m.deep_view(), r@),
            Progress::Done(Ok(v)) => ProgressView::Done(Ok(v.deep_view())),
            Progress::Done(Err(e)) => ProgressView::Done(Err(e@)),
        }
    }
}

impl<M, V> ProgressView<M, V> {
    /// The operation is over or asks for something that changes nothing on
    /// the host.
    pub open spec fn is_harmless(self) -> bool {
        match self {
            ProgressView::Ask(_, r) => r.is_read_only(),
            ProgressView::Done(_) => true,
        }
    }
}

/// The texts of a list of strings.
pub open spec fn string_views(v: Seq<String>) -> Seq<Seq<char>> {
    Seq::new(v.len(), |i: int| v[i]@)
}

} // verus!
