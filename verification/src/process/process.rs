//! Processes: what the kernel keeps for each, and how the kernel process and user
//! processes come into being in the process tree.
use vstd::prelude::*;
use crate::mem::virt::VirtualMemoryManager;
use crate::mem::Size;
use crate::process::attributes::{Attributes, IdCounter, ProcessId, RealGroupId, RealUserId};
use crate::process::files::OpenFiles;
use crate::process::scheduler::thread::Thread;
use crate::process::scheduler::Scheduler;
use crate::process::task::TaskId;
use crate::process::tree::{set_at, ProcessTree};

verus! {

/// The start of every process's own virtual memory.
pub const PROCESS_VMM_START: u64 = 0x1111_1111_0000;

/// A process: the page table root of its address space, its virtual memory, its name
/// and id, whether it was told to end, its open files, its ids, and the executable it
/// runs, if any.
pub struct Process<N> {
    cr3_value: usize,
    virtual_memory_manager: VirtualMemoryManager,
    name: String,
    pid: ProcessId,
    should_terminate: bool,
    open_files: OpenFiles<N>,
    attributes: Attributes,
    executable_file: Option<String>,
}

impl<N> Process<N> {
    pub closed spec fn spec_cr3(&self) -> usize {
        self.cr3_value
    }

    pub closed spec fn spec_name(&self) -> Seq<char> {
        self.name@
    }

    pub closed spec fn spec_pid(&self) -> ProcessId {
        self.pid
    }

    pub closed spec fn spec_should_terminate(&self) -> bool {
        self.should_terminate
    }

    pub closed spec fn spec_attributes(&self) -> Attributes {
        self.attributes
    }

    pub open spec fn spec_files(&self) -> Map<usize, crate::process::fd::FileDescriptor<N>> {
        self.spec_open_files().spec_fds()
    }

    pub closed spec fn spec_executable(&self) -> Option<Seq<char>> {
        match self.executable_file {
            Some(p) => Some(p@),
            None => None,
        }
    }

    /// The process's virtual memory manager covers 100 TiB from the common start, with
    /// nothing reserved.
    pub closed spec fn fresh_vmm(&self) -> bool {
        &&& self.virtual_memory_manager.wf()
        &&& self.virtual_memory_manager@ == Seq::<crate::mem::virt::Interval>::empty()
        &&& self.virtual_memory_manager.spec_mem_start() == PROCESS_VMM_START
        &&& self.virtual_memory_manager.spec_mem_size() == 100 * 1024 * 1024 * 1024 * 1024
    }

    fn fresh(cr3_value: usize, name: String, pid: ProcessId, attributes: Attributes, executable_file: Option<String>) -> (r: Self)
        requires
            100 * 1024 * 1024 * 1024 * 1024 <= usize::MAX,
        ensures
            r.spec_cr3() == cr3_value,
            r.spec_name() == name@,
            r.spec_pid() == pid,
            !r.spec_should_terminate(),
            r.spec_attributes() == attributes,
            r.spec_files() == Map::<usize, crate::process::fd::FileDescriptor<N>>::empty(),
            r.executable_file == executable_file,
            r.fresh_vmm(),
    {
        let size = Size::TiB(100).bytes();
        Process {
            cr3_value,
            virtual_memory_manager: VirtualMemoryManager::new(PROCESS_VMM_START, size),
            name,
            pid,
            should_terminate: false,
            open_files: OpenFiles::new(),
            attributes,
            executable_file,
        }
    }

    /// The kernel process, with the page table root `cr3_value`: process id 0 from the
    /// fresh counter `ids`, name `kernel`, every id 0; it becomes the root of `tree`.
    pub fn create_kernel(cr3_value: usize, ids: &mut IdCounter, tree: &mut ProcessTree<Process<N>>)
        requires
            old(ids)@ == 0,
            old(tree).spec_root() is None,
            100 * 1024 * 1024 * 1024 * 1024 <= usize::MAX,
        ensures
            final(ids)@ == 1,
            final(tree).spec_root() == Some(0u64),
            final(tree).spec_processes().dom() == old(tree).spec_processes().dom().insert(0),
            ({
                let p = final(tree).spec_processes()[0];
                &&& p.spec_cr3() == cr3_value
                &&& p.spec_name() == "kernel"@
                &&& p.spec_pid() == ProcessId(0)
                &&& !p.spec_should_terminate()
                &&& p.spec_attributes() == Attributes::spec_kernel()
                &&& p.spec_files() == Map::<usize, crate::process::fd::FileDescriptor<N>>::empty()
                &&& p.spec_executable() is None
                &&& p.fresh_vmm()
            }),
            forall|k: u64| k != 0 && old(tree).spec_processes().contains_key(k) ==> #[trigger] final(tree).spec_processes()[k] == old(tree).spec_processes()[k],
            final(tree).spec_parents() == old(tree).spec_parents(),
            final(tree).spec_children() == old(tree).spec_children(),
            final(tree).spec_tasks() == old(tree).spec_tasks(),
    {
        let pid = ProcessId::new(ids);
        let p = Process::fresh(cr3_value, String::from_str("kernel"), pid, Attributes::kernel(), None);
        tree.set_root(pid, p);
    }

    /// A user process of `parent`, with the page table root `cr3_value`, the next process
    /// id from `ids`, and the given name, ids and executable; it becomes a child of
    /// `parent` in `tree`. Returns its id. Every id in `tree` came from `ids` before, so
    /// the new id is not in `tree` yet.
    pub fn create_user(
        parent: ProcessId,
        cr3_value: usize,
        executable_file: Option<String>,
        name: String,
        uid: RealUserId,
        gid: RealGroupId,
        ids: &mut IdCounter,
        tree: &mut ProcessTree<Process<N>>,
    ) -> (r: ProcessId)
        requires
            100 * 1024 * 1024 * 1024 * 1024 <= usize::MAX,
            forall|k: u64| #[trigger] old(tree).spec_processes().contains_key(k) ==> k < old(ids)@,
        ensures
            r.0 == old(ids)@,
            !old(tree).spec_processes().contains_key(r.0),
            old(ids)@ < u64::MAX ==> forall|k: u64| #[trigger] final(tree).spec_processes().contains_key(k) ==> k < final(ids)@,
            final(ids)@ == (if old(ids)@ == u64::MAX {
                0
            } else {
                old(ids)@ + 1
            }),
            final(tree).spec_root() == old(tree).spec_root(),
            final(tree).spec_processes().dom() == old(tree).spec_processes().dom().insert(r.0),
            ({
                let p = final(tree).spec_processes()[r.0];
                &&& p.spec_cr3() == cr3_value
                &&& p.spec_name() == name@
                &&& p.spec_pid() == r
                &&& !p.spec_should_terminate()
                &&& p.spec_attributes() == Attributes::spec_user(uid, gid)
                &&& p.spec_files() == Map::<usize, crate::process::fd::FileDescriptor<N>>::empty()
                &&& p.spec_executable() == match executable_file {
                    Some(e) => Some(e@),
                    None => None::<Seq<char>>,
                }
                &&& p.fresh_vmm()
            }),
            forall|k: u64| k != r.0 && old(tree).spec_processes().contains_key(k) ==> #[trigger] final(tree).spec_processes()[k] == old(tree).spec_processes()[k],
            final(tree).spec_parents() == old(tree).spec_parents().insert(r.0, parent.0),
            final(tree).spec_children() == old(tree).spec_children().insert(
                parent.0,
                crate::process::tree::set_at(old(tree).spec_children(), parent.0).insert(r.0),
            ),
            final(tree).spec_tasks() == old(tree).spec_tasks(),
    {
        let pid = ProcessId::new(ids);
        let p = Process::fresh(cr3_value, name, pid, Attributes::user(uid, gid), executable_file);
        tree.insert_process(parent, pid, p);
        pid
    }

    pub fn pid(&self) -> (r: &ProcessId)
        ensures
            *r == self.spec_pid(),
    {
        &self.pid
    }

    pub fn name(&self) -> (r: &str)
        ensures
            r@ == self.spec_name(),
    {
        self.name.as_str()
    }

    pub fn cr3_value(&self) -> (r: usize)
        ensures
            r == self.spec_cr3(),
    {
        self.cr3_value
    }

    pub fn attributes(&self) -> (r: &Attributes)
        ensures
            *r == self.spec_attributes(),
    {
        &self.attributes
    }

    pub fn should_terminate(&self) -> (r: bool)
        ensures
            r == self.spec_should_terminate(),
    {
        self.should_terminate
    }

    /// The process's virtual memory manager, to read.
    pub fn memory(&self) -> (r: &VirtualMemoryManager)
        ensures
            *r == self.spec_vmm(),
    {
        &self.virtual_memory_manager
    }

    /// The process's open files, to read.
    pub fn files(&self) -> (r: &OpenFiles<N>)
        ensures
            *r == self.spec_open_files(),
    {
        &self.open_files
    }

    /// How many ranges of the process's virtual memory are reserved.
    pub fn reserved_range_count(&self) -> (r: usize)
        ensures
            r == self.spec_vmm()@.len(),
    {
        self.virtual_memory_manager.reserved_count()
    }

    /// How many files the process has open.
    pub fn open_file_count(&self) -> (r: usize)
        ensures
            r == self.spec_open_files().spec_fds().dom().len(),
    {
        self.open_files.open_count()
    }

    /// The process's virtual memory manager.
    pub closed spec fn spec_vmm(&self) -> VirtualMemoryManager {
        self.virtual_memory_manager
    }

    /// The process's open files.
    pub closed spec fn spec_open_files(&self) -> OpenFiles<N> {
        self.open_files
    }

    /// The process's virtual memory manager, to reserve and release memory in; nothing
    /// else of the process changes.
    pub fn vmm(&mut self) -> (r: &mut VirtualMemoryManager)
        ensures
            *r == old(self).spec_vmm(),
            final(self).spec_vmm() == *final(r),
            final(self).spec_open_files() == old(self).spec_open_files(),
            final(self).spec_pid() == old(self).spec_pid(),
            final(self).spec_name() == old(self).spec_name(),
            final(self).spec_cr3() == old(self).spec_cr3(),
            final(self).spec_attributes() == old(self).spec_attributes(),
            final(self).spec_should_terminate() == old(self).spec_should_terminate(),
            final(self).spec_executable() == old(self).spec_executable(),
    {
        &mut self.virtual_memory_manager
    }

    /// The process's open files, to open, use and close files in; nothing else of the
    /// process changes.
    pub fn open_files(&mut self) -> (r: &mut OpenFiles<N>)
        ensures
            *r == old(self).spec_open_files(),
            final(self).spec_open_files() == *final(r),
            final(self).spec_vmm() == old(self).spec_vmm(),
            final(self).spec_pid() == old(self).spec_pid(),
            final(self).spec_name() == old(self).spec_name(),
            final(self).spec_cr3() == old(self).spec_cr3(),
            final(self).spec_attributes() == old(self).spec_attributes(),
            final(self).spec_should_terminate() == old(self).spec_should_terminate(),
            final(self).spec_executable() == old(self).spec_executable(),
    {
        &mut self.open_files
    }

    /// Tells the process to end: its open files are closed, and it is marked to terminate.
    pub fn terminate(&mut self)
        ensures
            final(self).spec_should_terminate(),
            final(self).spec_files() == Map::<usize, crate::process::fd::FileDescriptor<N>>::empty(),
            final(self).spec_pid() == old(self).spec_pid(),
            final(self).spec_name() == old(self).spec_name(),
            final(self).spec_cr3() == old(self).spec_cr3(),
    {
        self.open_files = OpenFiles::new();
        self.should_terminate = true;
    }
}

/// Sets up processes: the kernel process becomes the root of `tree`, the thread that
/// runs now becomes its first thread, and a scheduler starts with that thread running.
pub fn init<N>(cr3_value: usize, pids: &mut IdCounter, tids: &mut IdCounter, tree: &mut ProcessTree<Process<N>>) -> (r: Scheduler)
    requires
        old(pids)@ == 0,
        old(tree).spec_root() is None,
        100 * 1024 * 1024 * 1024 * 1024 <= usize::MAX,
    ensures
        r.wf(),
        final(pids)@ == 1,
        final(tree).spec_processes().dom() == old(tree).spec_processes().dom().insert(0),
        final(tree).spec_root() == Some(0u64),
        final(tree).spec_processes().contains_key(0),
        final(tree).spec_processes()[0].spec_pid() == ProcessId(0),
        final(tree).spec_processes()[0].spec_cr3() == cr3_value,
        r.spec_current().id.0 == old(tids)@,
        r.spec_current().process == ProcessId(0),
        r.spec_current().cr3_value == cr3_value,
        set_at(final(tree).spec_tasks(), 0) == set_at(old(tree).spec_tasks(), 0).insert(old(tids)@),
        r.spec_ready() == Seq::new(4, |i: int| Seq::<Thread>::empty()),
{
    Process::create_kernel(cr3_value, pids, tree);
    let thread = Thread::kernel_thread(ProcessId(0), cr3_value, tids);
    tree.add_task(&ProcessId(0), &TaskId(thread.id.0));
    Scheduler::new(thread)
}

} // verus!
