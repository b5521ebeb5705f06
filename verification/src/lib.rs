//! Resource limits for running processes through the unified control-group
//! hierarchy of Linux.
//!
//! A caller builds a [`Limit`] from strings, finds its processes, and asks
//! the [`CgroupManager`] to apply, remove or prepare limits; the status of
//! what is managed is read back from the kernel's files alone. The library
//! decides everything and touches nothing: each operation that needs the
//! host hands out requests and is resumed with the replies (see [`host`]).

pub mod apply;
pub mod cgroup;
pub mod cleanup;
pub mod config;
pub mod desktop;
pub mod error;
pub mod host;
pub mod kernel;
pub mod launch;
pub mod limit;
pub mod prepare;
pub mod process;
pub mod reconcile;
pub mod scan;
pub mod status;
pub mod text;
pub mod util;
pub mod writer;

pub use cgroup::CgroupManager;
pub use config::{builtin_presets, Config, Profile};
pub use desktop::DesktopApp;
pub use error::Error;
pub use limit::{CpuLimit, IoLimit, Limit, MemoryLimit};
pub use process::ProcessInfo;
pub use status::ProcessStatus;
pub use util::{build_limit, format_bytes};
