//! Writing a limit into the files of one control group.

use crate::error::{Error, ErrorView, IoFailure, IoFailureView};
use crate::host::{
    entry_views, string_views, DirEntry, DirEntryView, Progress, ProgressView, Reply, ReplyView,
    Request, RequestView,
};
use crate::kernel::{
    cpu_max_content, cpu_max_text, device_numbers, io_max_content, io_max_text,
    is_virtual_device, join, join_path, memory_max_content, memory_max_text,
    parse_device_numbers, virtual_device,
};
use crate::limit::{IoLimit, Limit, LimitView};
use crate::text::{chars_of, push_str, string_of};
use vstd::prelude::*;

verus! {

/// The error of a control-group operation that the host failed to perform:
/// the attempted action, then what the host said.
pub open spec fn cgroup_failure(action: Seq<char>, failure: IoFailureView) -> ErrorView {
    ErrorView::Cgroup(action + failure.message)
}

/// Builds the error of a control-group operation that the host failed to
/// perform.
pub fn failed(action: &str, failure: &IoFailure) -> (e: Error)
    ensures
        e@ == cgroup_failure(action@, failure@),
{
    let mut out = chars_of(action);
    push_str(&mut out, failure.message.as_str());
    Error::Cgroup(string_of(out.as_slice()))
}

/// The names of the entries that stand for physical block devices, in the
/// order of the listing.
pub open spec fn physical_names(entries: Seq<DirEntryView>) -> Seq<Seq<char>>
    decreases entries.len(),
{
    if entries.len() == 0 {
        Seq::empty()
    } else if is_virtual_device(entries.last().name) {
        physical_names(entries.drop_last())
    } else {
        physical_names(entries.drop_last()).push(entries.last().name)
    }
}

/// Picks the names of the physical block devices from a listing.
fn physical_devices(entries: Vec<DirEntry>) -> (names: Vec<String>)
    ensures
        string_views(names@) == physical_names(entry_views(entries@)),
{
    let mut names: Vec<String> = Vec::new();
    let mut i: usize = 0;
    assert(string_views(names@) =~= Seq::<Seq<char>>::empty());
    while i < entries.len()
        invariant
            i <= entries@.len(),
            string_views(names@) == physical_names(entry_views(entries@).subrange(0, i as int)),
        decreases entries@.len() - i,
    {
        let ghost before = string_views(names@);
        let ghost next = entry_views(entries@).subrange(0, i + 1);
        assert(next.drop_last() == entry_views(entries@).subrange(0, i as int));
        assert(next.last() == entries@[i as int]@);
        if !virtual_device(entries[i].name.as_str()) {
            names.push(entries[i].name.clone());
            assert(string_views(names@) =~= before.push(entries@[i as int]@.name));
        }
        i += 1;
    }
    assert(entry_views(entries@).subrange(0, entries@.len() as int) == entry_views(entries@));
    names
}

/// Which answer a [`LimitWriter`] waits for.
#[derive(Clone, Copy, Debug, PartialEq, Eq, Structural)]
pub enum WriterStage {
    /// The memory ceiling was sent.
    Memory,
    /// The CPU quota was sent.
    Cpu,
    /// The host was asked whether it exposes block devices.
    ProbeDevices,
    /// The host was asked for the block devices.
    ListDevices,
    /// The host was asked for the numbers of the device at `next`.
    ReadDevice,
    /// The I/O ceilings were sent.
    Io,
}

/// The operation that writes a limit into the files of one control group:
/// the memory ceiling, then the CPU quota, then the I/O ceilings for every
/// physical block device. Absent parts are skipped.
#[derive(Debug)]
pub struct LimitWriter {
    path: String,
    limit: Limit,
    stage: WriterStage,
    names: Vec<String>,
    next: usize,
    devices: Vec<(u32, u32)>,
}

/// The mathematical content of a [`LimitWriter`].
pub struct LimitWriterView {
    /// The directory of the control group.
    pub path: Seq<char>,
    /// The limit being written.
    pub limit: LimitView,
    /// The answer that is waited for.
    pub stage: WriterStage,
    /// The physical block devices that the host listed.
    pub names: Seq<Seq<char>>,
    /// How many of them were asked for their numbers.
    pub next: int,
    /// The device numbers learnt so far.
    pub devices: Seq<(u32, u32)>,
}

impl DeepView for LimitWriter {
    type V = LimitWriterView;

    closed spec fn deep_view(&self) -> LimitWriterView {
        LimitWriterView {
            path: self.path@,
            limit: self.limit@,
            stage: self.stage,
            names: string_views(self.names@),
            next: self.next as int,
            devices: self.devices@,
        }
    }
}

/// Where the host exposes its block devices.
pub open spec fn block_dir() -> Seq<char> {
    "/sys/block"@
}

/// The file that holds the numbers of the block device `name`.
pub open spec fn device_file(name: Seq<char>) -> Seq<char> {
    join(join(block_dir(), name), "dev"@)
}

impl LimitWriterView {
    /// The first state of the operation, before anything was asked.
    pub open spec fn initial(path: Seq<char>, limit: LimitView) -> LimitWriterView {
        LimitWriterView {
            path,
            limit,
            stage: WriterStage::Memory,
            names: Seq::empty(),
            next: 0,
            devices: Seq::empty(),
        }
    }

    /// The operation from its start.
    pub open spec fn begin(self) -> ProgressView<LimitWriterView, ()> {
        match self.limit.memory {
            Some(bytes) => ProgressView::Ask(
                LimitWriterView { stage: WriterStage::Memory, ..self },
                RequestView::Write {
                    path: join(self.path, "memory.max"@),
                    content: memory_max_text(bytes),
                },
            ),
            None => self.enter_cpu(),
        }
    }

    /// The operation from the CPU part on.
    pub open spec fn enter_cpu(self) -> ProgressView<LimitWriterView, ()> {
        match self.limit.cpu {
            Some(percent) => ProgressView::Ask(
                LimitWriterView { stage: WriterStage::Cpu, ..self },
                RequestView::Write {
                    path: join(self.path, "cpu.max"@),
                    content: cpu_max_text(percent),
                },
            ),
            None => self.enter_io(),
        }
    }

    /// The limit asks for an I/O ceiling in at least one direction.
    pub open spec fn wants_io(self) -> bool {
        self.limit.io matches Some(io) && !(io.read_bps.is_none() && io.write_bps.is_none())
    }

    /// The I/O ceilings of the limit; none in either direction if the limit
    /// has no I/O part.
    pub open spec fn io(self) -> IoLimit {
        match self.limit.io {
            Some(io) => io,
            None => IoLimit { read_bps: None, write_bps: None },
        }
    }

    /// The operation from the I/O part on.
    pub open spec fn enter_io(self) -> ProgressView<LimitWriterView, ()> {
        if self.wants_io() {
            ProgressView::Ask(
                LimitWriterView { stage: WriterStage::ProbeDevices, ..self },
                RequestView::Exists { path: block_dir() },
            )
        } else {
            ProgressView::Done(Ok(()))
        }
    }

    /// The operation from the device at `next` on.
    pub open spec fn enter_device(self) -> ProgressView<LimitWriterView, ()> {
        if 0 <= self.next < self.names.len() {
            ProgressView::Ask(
                LimitWriterView { stage: WriterStage::ReadDevice, ..self },
                RequestView::Read { path: device_file(self.names[self.next]) },
            )
        } else if self.devices.len() == 0 {
            ProgressView::Done(Ok(()))
        } else {
            ProgressView::Ask(
                LimitWriterView { stage: WriterStage::Io, ..self },
                RequestView::Write {
                    path: join(self.path, "io.max"@),
                    content: io_max_text(self.devices, self.io()),
                },
            )
        }
    }

    /// The operation after the host's reply.
    ///
    /// A limit file that cannot be written ends the operation with an error
    /// that names the file. Without block devices no I/O ceiling is written
    /// and the operation succeeds. A device whose numbers cannot be read is
    /// left out.
    pub open spec fn resume(self, reply: ReplyView) -> ProgressView<LimitWriterView, ()> {
        match self.stage {
            WriterStage::Memory => match reply.done() {
                Ok(_) => self.enter_cpu(),
                Err(f) => ProgressView::Done(Err(cgroup_failure("failed to set memory.max: "@, f))),
            },
            WriterStage::Cpu => match reply.done() {
                Ok(_) => self.enter_io(),
                Err(f) => ProgressView::Done(Err(cgroup_failure("failed to set cpu.max: "@, f))),
            },
            WriterStage::ProbeDevices => if reply.found() {
                ProgressView::Ask(
                    LimitWriterView { stage: WriterStage::ListDevices, ..self },
                    RequestView::List { path: block_dir() },
                )
            } else {
                ProgressView::Done(Ok(()))
            },
            WriterStage::ListDevices => match reply.entries() {
                Ok(entries) => LimitWriterView {
                    names: physical_names(entries),
                    next: 0,
                    devices: Seq::empty(),
                    ..self
                }.enter_device(),
                Err(f) => ProgressView::Done(Err(ErrorView::Io(f))),
            },
            WriterStage::ReadDevice => {
                let devices = match reply.text() {
                    Ok(content) => match device_numbers(content) {
                        Some(d) => self.devices.push(d),
                        None => self.devices,
                    },
                    Err(_) => self.devices,
                };
                let next = if self.next < self.names.len() {
                    self.next + 1
                } else {
                    self.next
                };
                LimitWriterView { next, devices, ..self }.enter_device()
            },
            WriterStage::Io => match reply.done() {
                Ok(_) => ProgressView::Done(Ok(())),
                Err(f) => ProgressView::Done(Err(cgroup_failure("failed to set io.max: "@, f))),
            },
        }
    }
}

/// The request writes one of the three limit files of the control group at
/// `path`, or changes nothing at all.
pub open spec fn touches_only_limits(path: Seq<char>, request: RequestView) -> bool {
    match request {
        RequestView::Write { path: file, .. } => file == join(path, "memory.max"@) || file
            == join(path, "cpu.max"@) || file == join(path, "io.max"@),
        other => other.is_read_only(),
    }
}

/// Whatever the host replies, writing a limit touches nothing but the three
/// limit files of its control group.
pub open spec fn stays_inside(w: LimitWriterView, p: ProgressView<LimitWriterView, ()>) -> bool {
    match p {
        ProgressView::Ask(next, request) => touches_only_limits(w.path, request) && next.path
            == w.path && next.limit == w.limit,
        ProgressView::Done(_) => true,
    }
}

/// Whatever the host replies, writing a limit touches nothing but the three
/// limit files of its control group.
pub proof fn lemma_writer_stays_inside(w: LimitWriterView, reply: ReplyView)
    ensures
        stays_inside(w, w.begin()),
        stays_inside(w, w.resume(reply)),
{
}

impl LimitWriter {
    /// Starts writing `limit` into the control group at `path`.
    pub fn begin(path: String, limit: Limit) -> (p: Progress<LimitWriter, ()>)
        ensures
            p.deep_view() == LimitWriterView::initial(path@, limit@).begin(),
    {
        let w = LimitWriter {
            path,
            limit,
            stage: WriterStage::Memory,
            names: Vec::new(),
            next: 0,
            devices: Vec::new(),
        };
        assert(string_views(w.names@) =~= Seq::<Seq<char>>::empty());
        match w.limit.memory {
            Some(m) => {
                let request = Request::Write {
                    path: join_path(w.path.as_str(), "memory.max"),
                    content: memory_max_content(m.bytes()),
                };
                Progress::Ask(w, request)
            },
            None => w.enter_cpu(),
        }
    }

    fn enter_cpu(self) -> (p: Progress<LimitWriter, ()>)
        ensures
            p.deep_view() == self.deep_view().enter_cpu(),
    {
        match self.limit.cpu {
            Some(c) => {
                let request = Request::Write {
                    path: join_path(self.path.as_str(), "cpu.max"),
                    content: cpu_max_content(c.percent()),
                };
                Progress::Ask(LimitWriter { stage: WriterStage::Cpu, ..self }, request)
            },
            None => self.enter_io(),
        }
    }

    fn enter_io(self) -> (p: Progress<LimitWriter, ()>)
        ensures
            p.deep_view() == self.deep_view().enter_io(),
    {
        let wanted = match &self.limit.io {
            Some(io) => !io.is_empty(),
            None => false,
        };
        if wanted {
            Progress::Ask(
                LimitWriter { stage: WriterStage::ProbeDevices, ..self },
                Request::Exists { path: "/sys/block".to_string() },
            )
        } else {
            Progress::Done(Ok(()))
        }
    }

    fn enter_device(self) -> (p: Progress<LimitWriter, ()>)
        ensures
            p.deep_view() == self.deep_view().enter_device(),
    {
        if self.next < self.names.len() {
            let dir = join_path("/sys/block", self.names[self.next].as_str());
            let request = Request::Read { path: join_path(dir.as_str(), "dev") };
            Progress::Ask(LimitWriter { stage: WriterStage::ReadDevice, ..self }, request)
        } else if self.devices.len() == 0 {
            Progress::Done(Ok(()))
        } else {
            let io = match &self.limit.io {
                Some(io) => *io,
                None => IoLimit { read_bps: None, write_bps: None },
            };
            let request = Request::Write {
                path: join_path(self.path.as_str(), "io.max"),
                content: io_max_content(&self.devices, &io),
            };
            Progress::Ask(LimitWriter { stage: WriterStage::Io, ..self }, request)
        }
    }

    /// Resumes the operation with the host's reply to its last request.
    pub fn resume(self, reply: Reply) -> (p: Progress<LimitWriter, ()>)
        ensures
            p.deep_view() == self.deep_view().resume(reply@),
    {
        match self.stage {
            WriterStage::Memory => match reply.into_done() {
                Ok(_) => self.enter_cpu(),
                Err(f) => Progress::Done(Err(failed("failed to set memory.max: ", &f))),
            },
            WriterStage::Cpu => match reply.into_done() {
                Ok(_) => self.enter_io(),
                Err(f) => Progress::Done(Err(failed("failed to set cpu.max: ", &f))),
            },
            WriterStage::ProbeDevices => if reply.is_found() {
                Progress::Ask(
                    LimitWriter { stage: WriterStage::ListDevices, ..self },
                    Request::List { path: "/sys/block".to_string() },
                )
            } else {
                Progress::Done(Ok(()))
            },
            WriterStage::ListDevices => match reply.into_entries() {
                Ok(entries) => {
                    let names = physical_devices(entries);
                    let w = LimitWriter { names, next: 0, devices: Vec::new(), ..self };
                    w.enter_device()
                },
                Err(f) => Progress::Done(Err(Error::Io(f))),
            },
            WriterStage::ReadDevice => {
                let mut devices = self.devices;
                match reply.into_text() {
                    Ok(content) => match parse_device_numbers(content.as_str()) {
                        Some(d) => {
                            devices.push(d);
                        },
                        None => {},
                    },
                    Err(_) => {},
                }
                let next = if self.next < self.names.len() {
                    self.next + 1
                } else {
                    self.next
                };
                let w = LimitWriter {
                    path: self.path,
                    limit: self.limit,
                    stage: self.stage,
                    names: self.names,
                    next,
                    devices,
                };
                w.enter_device()
            },
            WriterStage::Io => match reply.into_done() {
                Ok(_) => Progress::Done(Ok(())),
                Err(f) => Progress::Done(Err(failed("failed to set io.max: ", &f))),
            },
        }
    }
}

} // verus!
