//! The failures that the library reports.

use crate::text::{chars_of, decimal_chars, decimal_digits, push_chars, push_str, string_of};
use vstd::prelude::*;

verus! {

/// How the host classified a failed file-system operation.
#[derive(Clone, Copy, Debug, PartialEq, Eq, Structural)]
pub enum IoKind {
    /// The path does not exist.
    NotFound,
    /// The caller may not perform the operation.
    PermissionDenied,
    /// The path exists already.
    AlreadyExists,
    /// Anything else, a busy directory among them.
    Other,
}

/// A failed file-system operation, as the host reported it.
#[derive(Debug)]
pub struct IoFailure {
    pub kind: IoKind,
    pub message: String,
}

/// The mathematical content of an [`IoFailure`].
pub struct IoFailureView {
    pub kind: IoKind,
    pub message: Seq<char>,
}

impl View for IoFailure {
    type V = IoFailureView;

    open spec fn view(&self) -> IoFailureView {
        IoFailureView { kind: self.kind, message: self.message@ }
    }
}

impl Clone for IoFailure {
    fn clone(&self) -> (r: Self)
        ensures
            r@ == self@,
    {
        IoFailure { kind: self.kind, message: self.message.clone() }
    }
}

/// Everything that can go wrong.
#[derive(Debug)]
pub enum Error {
    /// No process has this identifier.
    ProcessNotFound(u32),
    /// No process goes by this name.
    ProcessNameNotFound(String),
    /// A control-group operation failed; the text names the attempted action.
    Cgroup(String),
    /// A memory or bandwidth string is malformed.
    InvalidMemory(String),
    /// A CPU string is malformed.
    InvalidCpu(String),
    /// An argument is unusable: a bad name, or a conflict of ownership.
    InvalidArgs(String),
    /// The host refused access to this path.
    PermissionDenied { path: String },
    /// The unified hierarchy is not mounted at this path.
    CgroupsV2NotAvailable(String),
    /// The configuration is unusable.
    Config(String),
    /// A file-system failure that the library does not classify further.
    Io(IoFailure),
}

/// The mathematical content of an [`Error`].
pub enum ErrorView {
    ProcessNotFound(u32),
    ProcessNameNotFound(Seq<char>),
    Cgroup(Seq<char>),
    InvalidMemory(Seq<char>),
    InvalidCpu(Seq<char>),
    InvalidArgs(Seq<char>),
    PermissionDenied { path: Seq<char> },
    CgroupsV2NotAvailable(Seq<char>),
    Config(Seq<char>),
    Io(IoFailureView),
}

impl View for Error {
    type V = ErrorView;

    open spec fn view(&self) -> ErrorView {
        match self {
            Error::ProcessNotFound(pid) => ErrorView::ProcessNotFound(*pid),
            Error::ProcessNameNotFound(name) => ErrorView::ProcessNameNotFound(name@),
            Error::Cgroup(text) => ErrorView::Cgroup(text@),
            Error::InvalidMemory(text) => ErrorView::InvalidMemory(text@),
            Error::InvalidCpu(text) => ErrorView::InvalidCpu(text@),
            Error::InvalidArgs(text) => ErrorView::InvalidArgs(text@),
            Error::PermissionDenied { path } => ErrorView::PermissionDenied { path: path@ },
            Error::CgroupsV2NotAvailable(path) => ErrorView::CgroupsV2NotAvailable(path@),
            Error::Config(text) => ErrorView::Config(text@),
            Error::Io(failure) => ErrorView::Io(failure@),
        }
    }
}

impl ErrorView {
    /// The message shown to the user: what went wrong and, where one is
    /// known, a hint at the remedy.
    pub open spec fn message(self) -> Seq<char> {
        match self {
            ErrorView::ProcessNotFound(pid) => "process with pid "@ + decimal_digits(pid as nat)
                + " not found (process may have exited)"@,
            ErrorView::ProcessNameNotFound(name) => "no process found matching '"@ + name
                + "'\n  hint: check process name with `ps aux | grep "@ + name + "`"@,
            ErrorView::Cgroup(text) => "cgroup operation failed: "@ + text,
            ErrorView::InvalidMemory(text) => "invalid memory value: "@ + text
                + "\n  hint: use format like '512M', '2G', or '1024' (bytes)"@,
            ErrorView::InvalidCpu(text) => "invalid cpu value: "@ + text
                + "\n  hint: use percentage like '50%' or '150%' (for 1.5 cores)"@,
            ErrorView::InvalidArgs(text) => "invalid arguments: "@ + text,
            ErrorView::PermissionDenied { path } => "permission denied: "@ + path
                + "\n  hint: run as root, or enable cgroup delegation:\n  sudo mkdir -p /etc/systemd/system/user@.service.d\n  echo '[Service]\\nDelegate=cpu memory io' | sudo tee /etc/systemd/system/user@.service.d/delegate.conf\n  sudo systemctl daemon-reload && logout"@,
            ErrorView::CgroupsV2NotAvailable(path) => "cgroups v2 not available at "@ + path
                + "\n  hint: ensure your kernel supports cgroups v2 (Linux 4.5+) and it's mounted"@,
            ErrorView::Config(text) => "config error: "@ + text,
            ErrorView::Io(failure) => failure.message,
        }
    }
}

impl Error {
    /// The message shown to the user.
    pub fn message(&self) -> (r: String)
        ensures
            r@ == self@.message(),
    {
        let out = match self {
            Error::ProcessNotFound(pid) => {
                let mut out = chars_of("process with pid ");
                let digits = decimal_chars(*pid as u64);
                push_chars(&mut out, digits.as_slice());
                push_str(&mut out, " not found (process may have exited)");
                out
            },
            Error::ProcessNameNotFound(name) => {
                let mut out = chars_of("no process found matching '");
                push_str(&mut out, name.as_str());
                push_str(&mut out, "'\n  hint: check process name with `ps aux | grep ");
                push_str(&mut out, name.as_str());
                push_str(&mut out, "`");
                out
            },
            Error::Cgroup(text) => {
                let mut out = chars_of("cgroup operation failed: ");
                push_str(&mut out, text.as_str());
                out
            },
            Error::InvalidMemory(text) => {
                let mut out = chars_of("invalid memory value: ");
                push_str(&mut out, text.as_str());
                push_str(
                    &mut out,
                    "\n  hint: use format like '512M', '2G', or '1024' (bytes)",
                );
                out
            },
            Error::InvalidCpu(text) => {
                let mut out = chars_of("invalid cpu value: ");
                push_str(&mut out, text.as_str());
                push_str(
                    &mut out,
                    "\n  hint: use percentage like '50%' or '150%' (for 1.5 cores)",
                );
                out
            },
            Error::InvalidArgs(text) => {
                let mut out = chars_of("invalid arguments: ");
                push_str(&mut out, text.as_str());
                out
            },
            Error::PermissionDenied { path } => {
                let mut out = chars_of("permission denied: ");
                push_str(&mut out, path.as_str());
                push_str(
                    &mut out,
                    "\n  hint: run as root, or enable cgroup delegation:\n  sudo mkdir -p /etc/systemd/system/user@.service.d\n  echo '[Service]\\nDelegate=cpu memory io' | sudo tee /etc/systemd/system/user@.service.d/delegate.conf\n  sudo systemctl daemon-reload && logout",
                );
                out
            },
            Error::CgroupsV2NotAvailable(path) => {
                let mut out = chars_of("cgroups v2 not available at ");
                push_str(&mut out, path.as_str());
                push_str(
                    &mut out,
                    "\n  hint: ensure your kernel supports cgroups v2 (Linux 4.5+) and it's mounted",
                );
                out
            },
            Error::Config(text) => {
                let mut out = chars_of("config error: ");
                push_str(&mut out, text.as_str());
                out
            },
            Error::Io(failure) => chars_of(failure.message.as_str()),
        };
        string_of(out.as_slice())
    }
}

} // verus!
