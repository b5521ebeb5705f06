use rlm::apply::Application;
use rlm::cgroup::{CgroupManager, Discovery};
use rlm::cleanup::Cleanup;
use rlm::error::{Error, IoFailure, IoKind};
use rlm::host::{DirEntry, Progress, Reply, Request};
use rlm::limit::Limit;
use rlm::prepare::Preparation;
use rlm::process::{find_by_name, list_all, resolve_pids, Listing, NameSearch, ProcessInfo};
use rlm::reconcile::{get_managed_processes, Reconciliation};
use rlm::scan::Scan;
use rlm::status::ProcessStatus;
use rlm::util::build_limit;
use rlm::writer::LimitWriter;
use std::collections::{BTreeMap, BTreeSet};

const BASE: &str = "/sys/fs/cgroup/rlm";

/// A host in memory that behaves like the control-group file system as far
/// as the library looks at it.
struct FakeHost {
    dirs: BTreeSet<String>,
    files: BTreeMap<String, String>,
    alive: BTreeMap<u32, String>,
    exes: BTreeMap<u32, String>,
    has_kill: bool,
    read_only: BTreeSet<String>,
    busy_removals: u32,
    log: Vec<String>,
    slept: Vec<u64>,
}

fn failure(kind: IoKind, message: &str) -> Reply {
    Reply::Failed(IoFailure {
        kind,
        message: message.to_string(),
    })
}

fn parent_of(path: &str) -> String {
    match path.rfind('/') {
        Some(0) | None => "/".to_string(),
        Some(i) => path[..i].to_string(),
    }
}

impl FakeHost {
    fn new() -> FakeHost {
        let mut dirs = BTreeSet::new();
        for d in ["/", "/sys", "/sys/fs", "/sys/fs/cgroup", "/proc", "/sys/block"] {
            dirs.insert(d.to_string());
        }
        let mut files = BTreeMap::new();
        files.insert(
            "/sys/fs/cgroup/cgroup.controllers".to_string(),
            "cpuset cpu io memory pids\n".to_string(),
        );
        FakeHost {
            dirs,
            files,
            alive: BTreeMap::new(),
            exes: BTreeMap::new(),
            has_kill: false,
            read_only: BTreeSet::new(),
            busy_removals: 0,
            log: Vec::new(),
            slept: Vec::new(),
        }
    }

    fn spawn(&mut self, pid: u32, comm: &str, exe: &str) {
        self.alive.insert(pid, comm.to_string());
        self.exes.insert(pid, exe.to_string());
        self.dirs.insert(format!("/proc/{}", pid));
        self.files
            .insert(format!("/proc/{}/comm", pid), format!("{}\n", comm));
    }

    fn exit(&mut self, pid: u32) {
        self.alive.remove(&pid);
        self.exes.remove(&pid);
        self.dirs.remove(&format!("/proc/{}", pid));
        self.files.remove(&format!("/proc/{}/comm", pid));
        self.drop_member(pid);
    }

    fn drop_member(&mut self, pid: u32) {
        let line = pid.to_string();
        for (path, content) in self.files.iter_mut() {
            if path.ends_with("/cgroup.procs") {
                let kept: Vec<&str> = content.lines().filter(|l| *l != line).collect();
                let mut text = kept.join("\n");
                if !text.is_empty() {
                    text.push('\n');
                }
                *content = text;
            }
        }
    }

    fn add_device(&mut self, name: &str, numbers: &str) {
        self.dirs.insert(format!("/sys/block/{}", name));
        self.files
            .insert(format!("/sys/block/{}/dev", name), numbers.to_string());
    }

    fn is_group(&self, path: &str) -> bool {
        path.starts_with("/sys/fs/cgroup/")
    }

    fn make_group(&mut self, path: &str) {
        self.dirs.insert(path.to_string());
        if self.is_group(path) {
            let controllers = "cpu io memory\n".to_string();
            self.files
                .insert(format!("{}/cgroup.controllers", path), controllers);
            self.files
                .insert(format!("{}/cgroup.subtree_control", path), String::new());
            self.files
                .insert(format!("{}/cgroup.procs", path), String::new());
            self.files
                .insert(format!("{}/memory.max", path), "max\n".to_string());
            self.files
                .insert(format!("{}/cpu.max", path), "max 100000\n".to_string());
            self.files.insert(format!("{}/io.max", path), String::new());
            if self.has_kill {
                self.files
                    .insert(format!("{}/cgroup.kill", path), String::new());
            }
        }
    }

    fn members(&self, group: &str) -> Vec<u32> {
        self.files
            .get(&format!("{}/cgroup.procs", group))
            .map(|c| c.lines().filter_map(|l| l.parse().ok()).collect())
            .unwrap_or_default()
    }

    fn groups(&self) -> Vec<String> {
        let prefix = format!("{}/", BASE);
        self.dirs
            .iter()
            .filter(|d| d.starts_with(&prefix) && !d[prefix.len()..].contains('/'))
            .map(|d| d[prefix.len()..].to_string())
            .collect()
    }

    fn file(&self, path: &str) -> String {
        self.files.get(path).cloned().unwrap_or_default()
    }

    fn write(&mut self, path: &str, content: &str) -> Reply {
        if self.read_only.contains(path) {
            return failure(IoKind::PermissionDenied, "Permission denied (os error 13)");
        }
        if !self.dirs.contains(&parent_of(path)) {
            return failure(IoKind::NotFound, "No such file or directory (os error 2)");
        }
        if path.ends_with("/cgroup.procs") {
            let pid: u32 = match content.trim().parse() {
                Ok(p) => p,
                Err(_) => return failure(IoKind::Other, "Invalid argument (os error 22)"),
            };
            if !self.alive.contains_key(&pid) {
                return failure(IoKind::Other, "No such process (os error 3)");
            }
            self.drop_member(pid);
            let entry = self.files.entry(path.to_string()).or_default();
            entry.push_str(&format!("{}\n", pid));
            return Reply::Done;
        }
        if path.ends_with("/cgroup.kill") {
            let group = parent_of(path);
            for pid in self.members(&group) {
                self.exit(pid);
            }
            return Reply::Done;
        }
        let stored = if content.is_empty() || content.ends_with('\n') {
            content.to_string()
        } else {
            format!("{}\n", content)
        };
        self.files.insert(path.to_string(), stored);
        Reply::Done
    }

    fn perform(&mut self, request: Request) -> Reply {
        self.log.push(format!("{:?}", request));
        match request {
            Request::Exists { path } => {
                Reply::Found(self.dirs.contains(&path) || self.files.contains_key(&path))
            }
            Request::Read { path } => match self.files.get(&path) {
                Some(c) => Reply::Text(c.clone()),
                None => failure(IoKind::NotFound, "No such file or directory (os error 2)"),
            },
            Request::List { path } => {
                if !self.dirs.contains(&path) {
                    return failure(IoKind::NotFound, "No such file or directory (os error 2)");
                }
                let prefix = if path == "/" {
                    "/".to_string()
                } else {
                    format!("{}/", path)
                };
                let mut entries = Vec::new();
                for d in self.dirs.iter() {
                    if d.starts_with(&prefix) && d.len() > prefix.len() {
                        let name = &d[prefix.len()..];
                        if !name.contains('/') {
                            entries.push(DirEntry {
                                name: name.to_string(),
                                is_dir: true,
                            });
                        }
                    }
                }
                for f in self.files.keys() {
                    if f.starts_with(&prefix) {
                        let name = &f[prefix.len()..];
                        if !name.contains('/') {
                            entries.push(DirEntry {
                                name: name.to_string(),
                                is_dir: false,
                            });
                        }
                    }
                }
                Reply::Entries(entries)
            }
            Request::ExeName { pid } => match self.exes.get(&pid) {
                Some(e) => Reply::Text(e.clone()),
                None => failure(IoKind::NotFound, "No such file or directory (os error 2)"),
            },
            Request::CreateDir { path } => {
                if self.read_only.contains(&path) {
                    return failure(IoKind::PermissionDenied, "Permission denied (os error 13)");
                }
                if self.dirs.contains(&path) {
                    return failure(IoKind::AlreadyExists, "File exists (os error 17)");
                }
                if !self.dirs.contains(&parent_of(&path)) {
                    return failure(IoKind::NotFound, "No such file or directory (os error 2)");
                }
                self.make_group(&path);
                Reply::Done
            }
            Request::CreateDirAll { path } => {
                if self.read_only.contains(&path) {
                    return failure(IoKind::PermissionDenied, "Permission denied (os error 13)");
                }
                let mut missing = Vec::new();
                let mut at = path.clone();
                while !self.dirs.contains(&at) {
                    missing.push(at.clone());
                    at = parent_of(&at);
                }
                for d in missing.iter().rev() {
                    self.make_group(d);
                }
                Reply::Done
            }
            Request::Write { path, content } => self.write(&path, &content),
            Request::RemoveDir { path } => {
                if !self.dirs.contains(&path) {
                    return failure(IoKind::NotFound, "No such file or directory (os error 2)");
                }
                if self.busy_removals > 0 {
                    self.busy_removals -= 1;
                    return failure(IoKind::Other, "Device or resource busy (os error 16)");
                }
                if !self.members(&path).is_empty() {
                    return failure(IoKind::Other, "Device or resource busy (os error 16)");
                }
                let prefix = format!("{}/", path);
                self.files.retain(|f, _| !f.starts_with(&prefix));
                self.dirs.remove(&path);
                Reply::Done
            }
            Request::Sleep { millis } => {
                self.slept.push(millis);
                Reply::Done
            }
        }
    }

    fn made_changes(&self) -> bool {
        self.log.iter().any(|r| {
            !(r.starts_with("Exists")
                || r.starts_with("Read")
                || r.starts_with("List")
                || r.starts_with("ExeName"))
        })
    }
}

fn run_prepare(host: &mut FakeHost, start: Progress<Preparation, String>) -> Result<String, Error> {
    let mut step = start;
    loop {
        match step {
            Progress::Ask(m, r) => step = m.resume(host.perform(r)),
            Progress::Done(r) => return r,
        }
    }
}

fn run_writer(host: &mut FakeHost, start: Progress<LimitWriter, ()>) -> Result<(), Error> {
    let mut step = start;
    loop {
        match step {
            Progress::Ask(m, r) => step = m.resume(host.perform(r)),
            Progress::Done(r) => return r,
        }
    }
}

fn run_cleanup(host: &mut FakeHost, start: Progress<Cleanup, ()>) -> Result<(), Error> {
    let mut step = start;
    loop {
        match step {
            Progress::Ask(m, r) => step = m.resume(host.perform(r)),
            Progress::Done(r) => return r,
        }
    }
}

fn run_apply(host: &mut FakeHost, start: Progress<Application, ()>) -> Result<(), Error> {
    let mut step = start;
    loop {
        match step {
            Progress::Ask(m, r) => step = m.resume(host.perform(r)),
            Progress::Done(r) => return r,
        }
    }
}

fn run_scan(host: &mut FakeHost, start: Progress<Scan, Option<String>>) -> Option<String> {
    let mut step = start;
    loop {
        match step {
            Progress::Ask(m, r) => step = m.resume(host.perform(r)),
            Progress::Done(r) => return r.unwrap(),
        }
    }
}

fn run_status(
    host: &mut FakeHost,
    start: Progress<Reconciliation, Vec<ProcessStatus>>,
) -> Result<Vec<ProcessStatus>, Error> {
    let mut step = start;
    loop {
        match step {
            Progress::Ask(m, r) => step = m.resume(host.perform(r)),
            Progress::Done(r) => return r,
        }
    }
}

fn run_search(host: &mut FakeHost, start: Progress<NameSearch, Vec<u32>>) -> Result<Vec<u32>, Error> {
    let mut step = start;
    loop {
        match step {
            Progress::Ask(m, r) => step = m.resume(host.perform(r)),
            Progress::Done(r) => return r,
        }
    }
}

fn run_listing(
    host: &mut FakeHost,
    start: Progress<Listing, Vec<ProcessInfo>>,
) -> Result<Vec<ProcessInfo>, Error> {
    let mut step = start;
    loop {
        match step {
            Progress::Ask(m, r) => step = m.resume(host.perform(r)),
            Progress::Done(r) => return r,
        }
    }
}

fn run_discovery(
    host: &mut FakeHost,
    start: Progress<Discovery, CgroupManager>,
) -> Result<CgroupManager, Error> {
    let mut step = start;
    loop {
        match step {
            Progress::Ask(m, r) => step = m.resume(host.perform(r)),
            Progress::Done(r) => return r,
        }
    }
}

fn manager() -> CgroupManager {
    CgroupManager::with_base_path(BASE)
}

fn limit(memory: Option<&str>, cpu: Option<&str>, read: Option<&str>, write: Option<&str>) -> Limit {
    build_limit(memory, cpu, read, write).unwrap()
}

// ---------------------------------------------------------------------------
// Construction
// ---------------------------------------------------------------------------

#[test]
fn manager_needs_the_hierarchy() {
    let mut host = FakeHost::new();
    host.files.remove("/sys/fs/cgroup/cgroup.controllers");
    match run_discovery(&mut host, CgroupManager::new(Some("1000"))) {
        Err(Error::CgroupsV2NotAvailable(path)) => assert_eq!(path, "/sys/fs/cgroup"),
        other => panic!("unexpected {:?}", other),
    }
    assert_eq!(host.log.len(), 1);
}

#[test]
fn manager_prefers_the_delegated_directory() {
    let mut host = FakeHost::new();
    host.dirs.insert("/sys/fs/cgroup/user.slice".to_string());
    host.dirs
        .insert("/sys/fs/cgroup/user.slice/user-1000.slice".to_string());
    host.dirs
        .insert("/sys/fs/cgroup/user.slice/user-1000.slice/user@1000.service".to_string());
    let m = run_discovery(&mut host, CgroupManager::new(Some("1000"))).unwrap();
    assert_eq!(
        m.base_path(),
        "/sys/fs/cgroup/user.slice/user-1000.slice/user@1000.service/rlm"
    );
    // The base is not created at construction.
    assert!(!host.made_changes());
}

#[test]
fn manager_falls_back_to_the_root() {
    let mut host = FakeHost::new();
    let m = run_discovery(&mut host, CgroupManager::new(Some("1000"))).unwrap();
    assert_eq!(m.base_path(), "/sys/fs/cgroup/rlm");
}

#[test]
fn manager_reads_the_user_from_the_status() {
    let mut host = FakeHost::new();
    host.dirs.insert("/proc/self".to_string());
    host.files.insert(
        "/proc/self/status".to_string(),
        "Name:\tcat\nUmask:\t0022\nUid:\t1234\t1234\t1234\t1234\nGid:\t100\t100\n".to_string(),
    );
    host.dirs.insert("/sys/fs/cgroup/user.slice".to_string());
    host.dirs
        .insert("/sys/fs/cgroup/user.slice/user-1234.slice".to_string());
    host.dirs
        .insert("/sys/fs/cgroup/user.slice/user-1234.slice/user@1234.service".to_string());
    let m = run_discovery(&mut host, CgroupManager::new(None)).unwrap();
    assert_eq!(
        m.base_path(),
        "/sys/fs/cgroup/user.slice/user-1234.slice/user@1234.service/rlm"
    );
}

#[test]
fn manager_without_any_user_falls_back() {
    let mut host = FakeHost::new();
    let m = run_discovery(&mut host, CgroupManager::new(None)).unwrap();
    assert_eq!(m.base_path(), "/sys/fs/cgroup/rlm");
}

// ---------------------------------------------------------------------------
// Preparation
// ---------------------------------------------------------------------------

#[test]
fn prepare_writes_every_limit() {
    let mut host = FakeHost::new();
    host.add_device("sda", "8:0\n");
    host.add_device("loop0", "7:0\n");
    host.add_device("nvme0n1", "259:0\n");
    host.add_device("dm-0", "253:0\n");
    host.add_device("zram0", "252:0\n");
    host.add_device("ram1", "1:1\n");
    host.add_device("nbd3", "43:3\n");
    let l = limit(Some("512M"), Some("150%"), Some("10M"), Some("1K"));
    let path = run_prepare(&mut host, manager().prepare_cgroup("run-77", &l)).unwrap();
    assert_eq!(path, "/sys/fs/cgroup/rlm/run-77");
    assert_eq!(
        host.file("/sys/fs/cgroup/rlm/cgroup.subtree_control"),
        "+memory +cpu +io\n"
    );
    assert_eq!(host.file("/sys/fs/cgroup/rlm/run-77/memory.max"), "536870912\n");
    assert_eq!(host.file("/sys/fs/cgroup/rlm/run-77/cpu.max"), "150000 100000\n");
    assert_eq!(
        host.file("/sys/fs/cgroup/rlm/run-77/io.max"),
        "259:0 rbps=10485760 wbps=1024\n8:0 rbps=10485760 wbps=1024\n"
    );
}

#[test]
fn prepare_is_idempotent() {
    let mut host = FakeHost::new();
    let l = limit(Some("1G"), None, None, None);
    let first = run_prepare(&mut host, manager().prepare_cgroup("run-1", &l)).unwrap();
    let second = run_prepare(&mut host, manager().prepare_cgroup("run-1", &l)).unwrap();
    assert_eq!(first, second);
    assert_eq!(host.groups(), vec!["run-1".to_string()]);
    assert_eq!(host.file("/sys/fs/cgroup/rlm/run-1/memory.max"), "1073741824\n");
    assert_eq!(host.file("/sys/fs/cgroup/rlm/run-1/cpu.max"), "max 100000\n");
}

#[test]
fn prepare_rejects_bad_names_before_touching_anything() {
    for name in ["../etc", "a/b", "", "a\\b", "a b", "é"] {
        let mut host = FakeHost::new();
        let l = limit(Some("1G"), None, None, None);
        match run_prepare(&mut host, manager().prepare_cgroup(name, &l)) {
            Err(Error::InvalidArgs(_)) => {}
            other => panic!("unexpected {:?} for {:?}", other, name),
        }
        assert!(host.log.is_empty());
    }
}

#[test]
fn prepare_skips_controllers_that_are_not_advertised() {
    let mut host = FakeHost::new();
    host.make_group(BASE);
    host.files.insert(
        format!("{}/cgroup.controllers", BASE),
        "cpuset memory pids\n".to_string(),
    );
    let l = limit(Some("1G"), None, None, None);
    run_prepare(&mut host, manager().prepare_cgroup("run-1", &l)).unwrap();
    assert_eq!(host.file("/sys/fs/cgroup/rlm/cgroup.subtree_control"), "+memory\n");
}

#[test]
fn prepare_fails_without_any_controller() {
    let mut host = FakeHost::new();
    host.make_group(BASE);
    host.files
        .insert(format!("{}/cgroup.controllers", BASE), "pids\n".to_string());
    let l = limit(Some("1G"), None, None, None);
    match run_prepare(&mut host, manager().prepare_cgroup("run-1", &l)) {
        Err(Error::Cgroup(text)) => assert_eq!(
            text,
            "no controllers available - run as root or configure cgroup delegation"
        ),
        other => panic!("unexpected {:?}", other),
    }
    assert!(host.groups().is_empty());
}

#[test]
fn prepare_reports_refused_access_with_the_path() {
    let mut host = FakeHost::new();
    host.read_only.insert(BASE.to_string());
    let l = limit(Some("1G"), None, None, None);
    match run_prepare(&mut host, manager().prepare_cgroup("run-1", &l)) {
        Err(Error::PermissionDenied { path }) => assert_eq!(path, BASE),
        other => panic!("unexpected {:?}", other),
    }

    let mut host = FakeHost::new();
    host.read_only.insert(format!("{}/run-1", BASE));
    match run_prepare(&mut host, manager().prepare_cgroup("run-1", &l)) {
        Err(Error::PermissionDenied { path }) => assert_eq!(path, format!("{}/run-1", BASE)),
        other => panic!("unexpected {:?}", other),
    }

    let mut host = FakeHost::new();
    host.read_only
        .insert(format!("{}/cgroup.subtree_control", BASE));
    match run_prepare(&mut host, manager().prepare_cgroup("run-1", &l)) {
        Err(Error::Cgroup(text)) => assert_eq!(
            text,
            "cannot enable cgroup controllers - run as root or configure systemd cgroup delegation"
        ),
        other => panic!("unexpected {:?}", other),
    }
}

#[test]
fn prepare_names_the_limit_file_that_failed() {
    let mut host = FakeHost::new();
    host.read_only.insert(format!("{}/run-1/cpu.max", BASE));
    let l = limit(Some("1G"), Some("50"), None, None);
    match run_prepare(&mut host, manager().prepare_cgroup("run-1", &l)) {
        Err(Error::Cgroup(text)) => assert_eq!(
            text,
            "failed to set cpu.max: Permission denied (os error 13)"
        ),
        other => panic!("unexpected {:?}", other),
    }
    assert_eq!(host.file("/sys/fs/cgroup/rlm/run-1/memory.max"), "1073741824\n");
}

#[test]
fn io_limit_is_left_out_without_physical_devices() {
    let mut host = FakeHost::new();
    host.add_device("loop0", "7:0\n");
    let l = limit(None, None, Some("1M"), None);
    run_prepare(&mut host, manager().prepare_cgroup("run-1", &l)).unwrap();
    assert_eq!(host.file("/sys/fs/cgroup/rlm/run-1/io.max"), "");
    assert!(!host.log.iter().any(|r| r.contains("io.max")));
}

#[test]
fn io_limit_with_one_direction_only() {
    let mut host = FakeHost::new();
    host.add_device("sda", " 8:0 \n");
    host.add_device("sdb", "garbage");
    let l = limit(None, None, None, Some("2K"));
    run_prepare(&mut host, manager().prepare_cgroup("run-1", &l)).unwrap();
    assert_eq!(host.file("/sys/fs/cgroup/rlm/run-1/io.max"), "8:0 wbps=2048\n");
}

#[test]
fn set_limits_rewrites_an_existing_group() {
    let mut host = FakeHost::new();
    let l = limit(Some("1G"), Some("50"), None, None);
    let path = run_prepare(&mut host, manager().prepare_cgroup("run-1", &l)).unwrap();
    let l2 = limit(Some("2G"), None, None, None);
    run_writer(&mut host, manager().set_limits(&path, &l2)).unwrap();
    assert_eq!(host.file("/sys/fs/cgroup/rlm/run-1/memory.max"), "2147483648\n");
    assert_eq!(host.file("/sys/fs/cgroup/rlm/run-1/cpu.max"), "50000 100000\n");
}

// ---------------------------------------------------------------------------
// Membership
// ---------------------------------------------------------------------------

#[test]
fn add_to_cgroup_moves_the_process() {
    let mut host = FakeHost::new();
    host.spawn(4242, "sleep", "sleep");
    let l = limit(Some("1G"), None, None, None);
    let path = run_prepare(&mut host, manager().prepare_cgroup("run-9", &l)).unwrap();
    let (op, request) = manager().add_to_cgroup(&path, 4242);
    let reply = host.perform(request);
    op.resume(reply).unwrap();
    assert_eq!(host.members(&path), vec![4242]);
    assert_eq!(
        run_scan(&mut host, manager().find_cgroup_for_pid(4242)),
        Some("run-9".to_string())
    );
    assert_eq!(run_scan(&mut host, manager().find_cgroup_for_pid(1)), None);
}

#[test]
fn add_to_cgroup_reports_a_missing_process() {
    let mut host = FakeHost::new();
    let l = limit(Some("1G"), None, None, None);
    let path = run_prepare(&mut host, manager().prepare_cgroup("run-9", &l)).unwrap();
    let (op, request) = manager().add_to_cgroup(&path, 4242);
    let reply = host.perform(request);
    match op.resume(reply) {
        Err(Error::Cgroup(text)) => assert_eq!(
            text,
            "failed to add process 4242: No such process (os error 3)"
        ),
        other => panic!("unexpected {:?}", other),
    }
}

#[test]
fn find_cgroup_without_a_base_finds_nothing() {
    let mut host = FakeHost::new();
    assert_eq!(run_scan(&mut host, manager().find_cgroup_for_pid(1)), None);
    assert!(!host.made_changes());
}

// ---------------------------------------------------------------------------
// Applying limits
// ---------------------------------------------------------------------------

#[test]
fn apply_creates_and_populates_the_group_of_the_process() {
    let mut host = FakeHost::new();
    host.spawn(1234, "worker", "worker");
    let l = limit(Some("64M"), Some("25%"), None, None);
    run_apply(&mut host, manager().apply_limit(1234, &l)).unwrap();
    assert_eq!(host.groups(), vec!["pid-1234".to_string()]);
    assert_eq!(host.members("/sys/fs/cgroup/rlm/pid-1234"), vec![1234]);
    assert_eq!(host.file("/sys/fs/cgroup/rlm/pid-1234/memory.max"), "67108864\n");
    assert_eq!(host.file("/sys/fs/cgroup/rlm/pid-1234/cpu.max"), "25000 100000\n");
}

#[test]
fn applying_twice_leaves_one_group_with_the_second_limit() {
    let mut host = FakeHost::new();
    host.spawn(1234, "worker", "worker");
    host.add_device("sda", "8:0\n");
    let first = limit(Some("64M"), Some("25%"), Some("1M"), Some("2M"));
    let second = limit(Some("128M"), Some("300%"), Some("3M"), Some("4M"));
    run_apply(&mut host, manager().apply_limit(1234, &first)).unwrap();
    host.log.clear();
    run_apply(&mut host, manager().apply_limit(1234, &second)).unwrap();
    assert_eq!(host.groups(), vec!["pid-1234".to_string()]);
    assert_eq!(host.members("/sys/fs/cgroup/rlm/pid-1234"), vec![1234]);
    // The update made no directory and did not move the process.
    assert!(!host.log.iter().any(|r| r.starts_with("CreateDir")));
    assert!(!host
        .log
        .iter()
        .any(|r| r.starts_with("Write") && r.contains("cgroup.procs")));
    let statuses = run_status(&mut host, get_managed_processes(&manager())).unwrap();
    assert_eq!(statuses.len(), 1);
    assert_eq!(statuses[0].pid, 1234);
    assert_eq!(statuses[0].name, "worker");
    assert_eq!(statuses[0].memory_max, Some(128 * 1024 * 1024));
    assert_eq!(statuses[0].cpu_quota, Some(300));
    assert_eq!(statuses[0].io_read_bps, Some(3 * 1024 * 1024));
    assert_eq!(statuses[0].io_write_bps, Some(4 * 1024 * 1024));
}

#[test]
fn applying_a_partial_limit_keeps_the_other_files() {
    let mut host = FakeHost::new();
    host.spawn(7, "w", "w");
    run_apply(
        &mut host,
        manager().apply_limit(7, &limit(Some("64M"), None, None, None)),
    )
    .unwrap();
    run_apply(
        &mut host,
        manager().apply_limit(7, &limit(None, Some("10"), None, None)),
    )
    .unwrap();
    let statuses = run_status(&mut host, get_managed_processes(&manager())).unwrap();
    assert_eq!(statuses[0].memory_max, Some(64 * 1024 * 1024));
    assert_eq!(statuses[0].cpu_quota, Some(10));
}

#[test]
fn apply_refuses_a_process_in_a_launch_group() {
    let mut host = FakeHost::new();
    host.spawn(555, "child", "child");
    let l = limit(Some("1G"), None, None, None);
    let path = run_prepare(&mut host, manager().prepare_cgroup("run-100", &l)).unwrap();
    let (op, request) = manager().add_to_cgroup(&path, 555);
    let reply = host.perform(request);
    op.resume(reply).unwrap();
    host.log.clear();
    match run_apply(&mut host, manager().apply_limit(555, &limit(Some("2G"), None, None, None))) {
        Err(Error::InvalidArgs(text)) => {
            assert_eq!(text, "process 555 is already managed in cgroup 'run-100'")
        }
        other => panic!("unexpected {:?}", other),
    }
    assert!(!host.made_changes());
    assert_eq!(host.members(&path), vec![555]);
    assert_eq!(host.groups(), vec!["run-100".to_string()]);
    assert_eq!(host.file("/sys/fs/cgroup/rlm/run-100/memory.max"), "1073741824\n");
}

#[test]
fn apply_to_a_vanished_process_cleans_up_and_says_so() {
    let mut host = FakeHost::new();
    match run_apply(&mut host, manager().apply_limit(999, &limit(Some("1G"), None, None, None))) {
        Err(Error::ProcessNotFound(pid)) => assert_eq!(pid, 999),
        other => panic!("unexpected {:?}", other),
    }
    assert!(host.groups().is_empty());
}

#[test]
fn apply_keeps_the_cause_when_the_process_lives() {
    let mut host = FakeHost::new();
    host.spawn(42, "w", "w");
    host.read_only
        .insert(format!("{}/pid-42/cgroup.procs", BASE));
    match run_apply(&mut host, manager().apply_limit(42, &limit(Some("1G"), None, None, None))) {
        Err(Error::Cgroup(text)) => assert_eq!(
            text,
            "failed to add process 42: Permission denied (os error 13)"
        ),
        other => panic!("unexpected {:?}", other),
    }
    assert!(host.groups().is_empty());
}

// ---------------------------------------------------------------------------
// Cleanup
// ---------------------------------------------------------------------------

#[test]
fn cleanup_of_a_name_never_created_succeeds() {
    let mut host = FakeHost::new();
    run_cleanup(&mut host, manager().cleanup_cgroup("run-404")).unwrap();
    run_cleanup(&mut host, manager().remove_limit(404)).unwrap();
    assert!(!host.made_changes());
    assert_eq!(host.log.len(), 2);
}

#[test]
fn cleanup_rejects_bad_names() {
    let mut host = FakeHost::new();
    match run_cleanup(&mut host, manager().cleanup_cgroup("../etc")) {
        Err(Error::InvalidArgs(text)) => assert_eq!(text, "cgroup name contains invalid characters"),
        other => panic!("unexpected {:?}", other),
    }
    match run_cleanup(&mut host, manager().cleanup_cgroup("")) {
        Err(Error::InvalidArgs(text)) => assert_eq!(text, "cgroup name cannot be empty"),
        other => panic!("unexpected {:?}", other),
    }
    match run_cleanup(&mut host, manager().cleanup_cgroup("a b")) {
        Err(Error::InvalidArgs(text)) => assert_eq!(
            text,
            "cgroup name must contain only alphanumeric characters, dashes, or underscores"
        ),
        other => panic!("unexpected {:?}", other),
    }
    assert!(host.log.is_empty());
}

#[test]
fn remove_limit_drains_the_process_into_the_refuge() {
    let mut host = FakeHost::new();
    host.spawn(1234, "worker", "worker");
    run_apply(
        &mut host,
        manager().apply_limit(1234, &limit(Some("64M"), None, None, None)),
    )
    .unwrap();
    run_cleanup(&mut host, manager().remove_limit(1234)).unwrap();
    assert_eq!(host.groups(), vec!["unlimit".to_string()]);
    assert_eq!(host.members("/sys/fs/cgroup/rlm/unlimit"), vec![1234]);
    assert!(host.alive.contains_key(&1234));
    assert!(host.slept.is_empty());
}

#[test]
fn cleanup_prefers_the_kill_file() {
    let mut host = FakeHost::new();
    host.has_kill = true;
    host.spawn(10, "a", "a");
    host.spawn(11, "b", "b");
    let l = limit(Some("1G"), None, None, None);
    let path = run_prepare(&mut host, manager().prepare_cgroup("run-5", &l)).unwrap();
    for pid in [10, 11] {
        let (op, request) = manager().add_to_cgroup(&path, pid);
        let reply = host.perform(request);
        op.resume(reply).unwrap();
    }
    host.log.clear();
    run_cleanup(&mut host, manager().cleanup_cgroup("run-5")).unwrap();
    assert!(host.groups().is_empty());
    assert!(host.alive.is_empty());
    assert!(host
        .log
        .iter()
        .any(|r| r.contains("cgroup.kill") && r.contains("content: \"1\"")));
    assert!(!host.log.iter().any(|r| r.contains("unlimit")));
}

#[test]
fn cleanup_resets_limits_when_a_member_cannot_be_moved() {
    let mut host = FakeHost::new();
    host.spawn(10, "a", "a");
    run_apply(
        &mut host,
        manager().apply_limit(10, &limit(Some("64M"), Some("50"), None, None)),
    )
    .unwrap();
    host.read_only
        .insert(format!("{}/unlimit/cgroup.procs", BASE));
    run_cleanup(&mut host, manager().remove_limit(10)).unwrap();
    // The member stays, so the directory cannot go; its limits are lifted.
    assert_eq!(host.members("/sys/fs/cgroup/rlm/pid-10"), vec![10]);
    assert_eq!(host.file("/sys/fs/cgroup/rlm/pid-10/memory.max"), "max\n");
    assert_eq!(host.file("/sys/fs/cgroup/rlm/pid-10/cpu.max"), "max\n");
    assert_eq!(host.file("/sys/fs/cgroup/rlm/pid-10/io.max"), "");
    // Three removals were tried, with a doubling wait between them.
    assert_eq!(host.slept, vec![50, 100]);
    assert_eq!(
        host.log.iter().filter(|r| r.starts_with("RemoveDir")).count(),
        3
    );
}

#[test]
fn cleanup_retries_a_busy_directory() {
    let mut host = FakeHost::new();
    let l = limit(Some("1G"), None, None, None);
    run_prepare(&mut host, manager().prepare_cgroup("run-5", &l)).unwrap();
    host.busy_removals = 1;
    run_cleanup(&mut host, manager().cleanup_cgroup("run-5")).unwrap();
    assert!(host.groups().is_empty());
    assert_eq!(host.slept, vec![50]);
}

// ---------------------------------------------------------------------------
// Reconciliation
// ---------------------------------------------------------------------------

#[test]
fn status_without_a_base_is_empty() {
    let mut host = FakeHost::new();
    let statuses = run_status(&mut host, get_managed_processes(&manager())).unwrap();
    assert!(statuses.is_empty());
    assert_eq!(host.log.len(), 1);
}

#[test]
fn status_reads_direct_and_launched_groups() {
    let mut host = FakeHost::new();
    host.spawn(100, "direct", "direct");
    host.spawn(200, "launched", "launched");
    host.spawn(300, "gui", "gui");
    run_apply(
        &mut host,
        manager().apply_limit(100, &limit(Some("1M"), None, None, None)),
    )
    .unwrap();
    for (name, pid) in [("run-1", 200), ("gtk-1-0", 300)] {
        let path = run_prepare(
            &mut host,
            manager().prepare_cgroup(name, &limit(None, Some("75%"), None, None)),
        )
        .unwrap();
        let (op, request) = manager().add_to_cgroup(&path, pid);
        let reply = host.perform(request);
        op.resume(reply).unwrap();
    }
    host.make_group(&format!("{}/other", BASE));
    let mut statuses = run_status(&mut host, get_managed_processes(&manager())).unwrap();
    statuses.sort_by_key(|s| s.pid);
    assert_eq!(statuses.len(), 3);
    assert_eq!(statuses[0].pid, 100);
    assert_eq!(statuses[0].name, "direct");
    assert_eq!(statuses[0].memory_max, Some(1024 * 1024));
    assert_eq!(statuses[0].cpu_quota, None);
    assert_eq!(statuses[1].pid, 200);
    assert_eq!(statuses[1].cpu_quota, Some(75));
    assert_eq!(statuses[1].memory_max, None);
    assert_eq!(statuses[1].io_read_bps, None);
    assert_eq!(statuses[2].pid, 300);
    assert_eq!(statuses[2].name, "gui");
    // A group that is not named as the managed ones are is left alone.
    assert!(host.groups().contains(&"other".to_string()));
}

#[test]
fn status_drops_and_removes_the_groups_of_vanished_processes() {
    let mut host = FakeHost::new();
    host.spawn(100, "stays", "stays");
    host.spawn(200, "goes", "goes");
    host.spawn(300, "launched", "launched");
    for pid in [100, 200] {
        run_apply(
            &mut host,
            manager().apply_limit(pid, &limit(Some("1M"), None, None, None)),
        )
        .unwrap();
    }
    let path = run_prepare(
        &mut host,
        manager().prepare_cgroup("run-3", &limit(Some("1M"), None, None, None)),
    )
    .unwrap();
    let (op, request) = manager().add_to_cgroup(&path, 300);
    let reply = host.perform(request);
    op.resume(reply).unwrap();
    host.make_group(&format!("{}/pid-junk", BASE));
    host.exit(200);
    host.exit(300);

    let statuses = run_status(&mut host, get_managed_processes(&manager())).unwrap();
    assert_eq!(statuses.len(), 1);
    assert_eq!(statuses[0].pid, 100);
    assert_eq!(host.groups(), vec!["pid-100".to_string()]);

    host.log.clear();
    let again = run_status(&mut host, get_managed_processes(&manager())).unwrap();
    assert_eq!(again.len(), 1);
    assert_eq!(again[0].pid, 100);
    assert!(!host.made_changes());
}

#[test]
fn status_fails_when_the_base_cannot_be_listed() {
    let start = get_managed_processes(&manager());
    let state = match start {
        Progress::Ask(m, Request::Exists { path }) => {
            assert_eq!(path, BASE);
            m
        }
        other => panic!("unexpected {:?}", other),
    };
    let state = match state.resume(Reply::Found(true)) {
        Progress::Ask(m, Request::List { path }) => {
            assert_eq!(path, BASE);
            m
        }
        other => panic!("unexpected {:?}", other),
    };
    match state.resume(failure(IoKind::PermissionDenied, "denied")) {
        Progress::Done(Err(Error::Io(f))) => {
            assert_eq!(f.kind, IoKind::PermissionDenied);
            assert_eq!(f.message, "denied");
        }
        other => panic!("unexpected {:?}", other),
    }
}

// ---------------------------------------------------------------------------
// Processes
// ---------------------------------------------------------------------------

#[test]
fn find_by_name_matches_short_and_executable_names() {
    let mut host = FakeHost::new();
    host.spawn(1, "systemd", "systemd");
    host.spawn(20, "firefox", "firefox-bin");
    host.spawn(21, "Web Content", "firefox");
    host.spawn(30, "very-long-proce", "very-long-process-name");
    host.spawn(31, "very-long-proce", "very-long-process-other");
    host.dirs.insert("/proc/sys".to_string());

    assert_eq!(
        run_search(&mut host, find_by_name("firefox")).unwrap(),
        vec![20, 21]
    );
    assert_eq!(
        run_search(&mut host, find_by_name("very-long-process-name")).unwrap(),
        vec![30]
    );
    assert_eq!(
        run_search(&mut host, find_by_name("very-long-proce")).unwrap(),
        vec![30, 31]
    );
    match run_search(&mut host, find_by_name("nothing")) {
        Err(Error::ProcessNameNotFound(name)) => assert_eq!(name, "nothing"),
        other => panic!("unexpected {:?}", other),
    }
    assert!(!host.made_changes());
}

#[test]
fn find_by_name_reads_the_executable_only_when_needed() {
    let mut host = FakeHost::new();
    host.spawn(5, "bash", "bash");
    run_search(&mut host, find_by_name("bash")).unwrap();
    assert!(!host.log.iter().any(|r| r.starts_with("ExeName")));
}

#[test]
fn list_all_orders_by_name() {
    let mut host = FakeHost::new();
    host.spawn(3, "zsh", "zsh");
    host.spawn(1, "init", "init");
    host.spawn(2, "bash", "bash");
    host.spawn(9, "bash", "bash");
    host.spawn(4, "Xorg", "Xorg");
    host.dirs.insert("/proc/10".to_string());
    let all = run_listing(&mut host, list_all()).unwrap();
    let got: Vec<(u32, &str)> = all.iter().map(|p| (p.pid, p.name.as_str())).collect();
    assert_eq!(
        got,
        vec![(4, "Xorg"), (2, "bash"), (9, "bash"), (1, "init"), (3, "zsh")]
    );
}

#[test]
fn resolve_pids_by_number_name_or_neither() {
    let mut host = FakeHost::new();
    host.spawn(8, "htop", "htop");
    assert_eq!(run_search(&mut host, resolve_pids(Some(77), None)).unwrap(), vec![77]);
    assert!(host.log.is_empty());
    assert_eq!(
        run_search(&mut host, resolve_pids(None, Some("htop"))).unwrap(),
        vec![8]
    );
    match run_search(&mut host, resolve_pids(None, None)) {
        Err(Error::InvalidArgs(text)) => assert_eq!(text, "specify either --pid or --name"),
        other => panic!("unexpected {:?}", other),
    }
}
