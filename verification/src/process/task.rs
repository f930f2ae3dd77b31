//! Tasks: a process's units of execution with a stack of their own, which start at an
//! entry point without an argument.
use vstd::prelude::*;
use crate::process::attributes::{IdCounter, ProcessId};
use crate::process::scheduler::thread::{initial_stack, setup_stack, stack_size, ThreadState, THREAD_STATE_SIZE};

verus! {

/// The identifier of a task.
#[derive(Debug, Clone, Copy, PartialEq, Eq, Structural)]
pub struct TaskId(pub u64);

impl TaskId {
    /// The next task id from the given counter.
    pub fn new(counter: &mut IdCounter) -> (r: Self)
        ensures
            r.0 == old(counter)@,
            final(counter)@ == (if old(counter)@ == u64::MAX {
                0
            } else {
                old(counter)@ + 1
            }),
    {
        TaskId(counter.next())
    }
}

/// A scheduling state that a task can be in.
pub trait State {}

/// The task waits to be run.
#[derive(Debug, Clone, Copy, PartialEq, Eq, Structural)]
pub struct Ready;

/// The task runs.
#[derive(Debug, Clone, Copy, PartialEq, Eq, Structural)]
pub struct Running;

/// The task has ended.
#[derive(Debug, Clone, Copy, PartialEq, Eq, Structural)]
pub struct Finished;

impl State for Ready {}

impl State for Running {}

impl State for Finished {}

/// The registers that a task's first switch restores from its stack; a task saves the
/// same registers as a thread.
pub type TaskState = ThreadState;

/// A task of a process.
#[derive(Debug)]
pub struct Task {
    pub id: TaskId,
    pub process: ProcessId,
    pub last_stack_ptr: usize,
    pub stack: Option<Vec<u8>>,
}

impl Task {
    /// A ready task whose 32 KiB stack `stack` lies at `stack_addr`, set up so that the
    /// first switch to it enters `entry_point` with no argument, and returns to
    /// `return_address` from there.
    pub fn new(process: ProcessId, entry_point: u64, return_address: u64, stack: Vec<u8>, stack_addr: u64, ids: &mut IdCounter) -> (r: Task)
        requires
            stack.len() == stack_size(),
            stack_addr + stack_size() <= usize::MAX,
        ensures
            r.id.0 == old(ids)@,
            final(ids)@ == (if old(ids)@ == u64::MAX {
                0
            } else {
                old(ids)@ + 1
            }),
            r.process == process,
            r.last_stack_ptr == stack_addr + stack_size() - 16 - THREAD_STATE_SIZE,
            r.stack matches Some(s) && s@ == initial_stack(stack_size() as int, r.last_stack_ptr as u64, entry_point, 0, return_address),
    {
        let id = TaskId::new(ids);
        let (stack, rsp) = setup_stack(stack, stack_addr, entry_point, 0, return_address);
        Task { id, process, last_stack_ptr: rsp, stack: Some(stack) }
    }

    /// The task that is already running when tasks are set up: the kernel's own, without
    /// a stack of its own.
    pub fn kernel_task(kernel_process: ProcessId, ids: &mut IdCounter) -> (r: Task)
        ensures
            r.id.0 == old(ids)@,
            final(ids)@ == (if old(ids)@ == u64::MAX {
                0
            } else {
                old(ids)@ + 1
            }),
            r.process == kernel_process,
            r.last_stack_ptr == 0,
            r.stack is None,
    {
        let id = TaskId::new(ids);
        Task { id, process: kernel_process, last_stack_ptr: 0, stack: None }
    }
}

} // verus!
