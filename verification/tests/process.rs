use std::collections::VecDeque;

use kernel::process::attributes::{Attributes, IdCounter, ProcessId, RealGroupId, RealUserId};
use kernel::process::elf::{ElfLoader, LoadHeader};
use kernel::process::fd::{FileDescriptor, Fileno, FilenoAllocator};
use kernel::process::scheduler::queues::{AtomicPriority, Priority, Queues};
use kernel::process::scheduler::thread::{setup_stack, State, Thread, ThreadId, ThreadState, STACK_MARKER, THREAD_STATE_SIZE};
use kernel::process::scheduler::round_robin::RoundRobinScheduler;
use kernel::process::scheduler::Scheduler;
use kernel::process::syscall::{sys_close, sys_open, sys_read, sys_write};
use kernel::process::task::{Task, TaskId};
use kernel::process::files::{lowest_free_fd, FileError, OpenFiles};
use kernel::process::process::{init, Process};
use kernel::process::tree::{free_thread, ProcessTree};

#[test]
fn id_counters_wrap_around() {
    let mut ids = IdCounter::new();
    assert_eq!(ProcessId::new(&mut ids), ProcessId(0));
    assert_eq!(ThreadId::new(&mut ids), ThreadId(1));
    assert_eq!(TaskId::new(&mut ids), TaskId(2));
    assert_eq!(ids.next(), 3);
    let k = Attributes::kernel();
    assert_eq!(k.uid.0, 0);
    let u = Attributes::user(RealUserId(1000), RealGroupId(100));
    assert_eq!(u.uid.0, 1000);
    assert_eq!(u.gid.0, 100);
}

#[test]
fn priorities() {
    assert_eq!(Priority::Realtime.into_usize(), 3);
    assert_eq!(Priority::try_from_primitive(0), Ok(Priority::Low));
    assert!(Priority::try_from_primitive(4).is_err());
    let mut p = AtomicPriority::new(Priority::Low);
    assert_eq!(p.swap(Priority::High), Priority::Low);
    p.store(Priority::Normal);
    assert_eq!(p.swap(Priority::Low), Priority::Normal);
    let q = Queues::new(1, 2, 3, 4);
    assert_eq!(*q.index(Priority::High), 3);
}

fn read_u64(data: &[u8], at: usize) -> u64 {
    u64::from_le_bytes(data[at..at + 8].try_into().unwrap())
}

#[test]
fn initial_stack_layout() {
    let n = 256;
    let (stack, rsp) = setup_stack(vec![0; n], 0x10_0000, 0xAAAA, 0x55, 0xBBBB);
    assert_eq!(rsp, 0x10_0000 + n - 16 - THREAD_STATE_SIZE);
    assert_eq!(read_u64(&stack, n - 8), STACK_MARKER);
    assert_eq!(read_u64(&stack, n - 16), 0xBBBB);
    let state = n - 16 - THREAD_STATE_SIZE;
    // the registers in memory order: r15 first, rip last
    assert_eq!(read_u64(&stack, state), 0);
    assert_eq!(read_u64(&stack, state + 8 * 8), 0x55); // rdi
    assert_eq!(read_u64(&stack, state + 10 * 8), rsp as u64); // rsp
    assert_eq!(read_u64(&stack, state + 11 * 8), rsp as u64); // rbp
    assert_eq!(read_u64(&stack, state + 16 * 8), 0x1200); // rflags
    assert_eq!(read_u64(&stack, state + 17 * 8), 0xAAAA); // rip
    assert!(stack[..state].iter().all(|b| *b == 0xCD));
    assert_eq!(ThreadState::default().to_words(), vec![0u64; 18]);
}

#[test]
fn threads_and_tasks() {
    let mut ids = IdCounter::new();
    let t = Thread::new_ready(ProcessId(7), 0x1000, "worker".to_string(), Priority::High, 0xAAAA, 1, 0xBBBB, vec![0; 32 * 1024], 0x20_0000, &mut ids);
    assert_eq!(t.id(), &ThreadId(0));
    assert_eq!(t.name(), "worker");
    assert_eq!(t.state(), State::Ready);
    assert_eq!(t.priority(), Priority::High);
    assert_eq!(t.process(), ProcessId(7));
    assert_eq!(t.last_stack_ptr(), 0x20_0000 + 32 * 1024 - 16 - THREAD_STATE_SIZE);
    let k = Thread::kernel_thread(ProcessId(0), 0x2000, &mut ids);
    assert_eq!(k.name(), "kernel");
    assert_eq!(k.state(), State::Running);
    assert!(k.stack.is_none());

    let task = Task::new(ProcessId(3), 0xCCCC, 0xDDDD, vec![0; 32 * 1024], 0x40_0000, &mut ids);
    assert_eq!(task.id, TaskId(2));
    let stack = task.stack.unwrap();
    let state = 32 * 1024 - 16 - THREAD_STATE_SIZE;
    assert_eq!(read_u64(&stack, state + 8 * 8), 0); // a task starts without an argument
    assert_eq!(read_u64(&stack, state + 17 * 8), 0xCCCC);
    let kt = Task::kernel_task(ProcessId(0), &mut ids);
    assert_eq!(kt.id, TaskId(3));
    assert_eq!(kt.last_stack_ptr, 0);
}

#[test]
fn reschedule_switches_to_a_new_thread_and_queues_the_old_one() {
    let mut ids = IdCounter::new();
    let kernel = Thread::kernel_thread(ProcessId(0), 0x1000, &mut ids);
    let mut sched = Scheduler::new(kernel);
    let worker = Thread::new_ready(ProcessId(1), 0x5000, "w".to_string(), Priority::Normal, 0xAAAA, 0, 0xBBBB, vec![0; 32 * 1024], 0x20_0000, &mut ids);
    let worker_sp = worker.last_stack_ptr();
    let mut in_reschedule = false;
    let mut new_threads = VecDeque::new();
    new_threads.push_back(worker);
    let mut finished = VecDeque::new();
    let switch = sched.reschedule(&mut in_reschedule, &mut new_threads, &mut finished).unwrap();
    assert_eq!(switch.old_thread, ThreadId(0));
    assert!(switch.save_old_stack_ptr);
    assert_eq!(switch.new_stack_ptr, worker_sp);
    assert_eq!(switch.cr3_value, 0x5000);
    assert_eq!(sched.current_thread().id(), &ThreadId(1));
    assert_eq!(sched.current_pid(), ProcessId(1));
    assert!(new_threads.is_empty());
    assert!(finished.is_empty());

    // the worker exits; the kernel thread runs again and the worker is handed back
    sched.exit_current_thread();
    let switch = sched.reschedule(&mut in_reschedule, &mut new_threads, &mut finished).unwrap();
    assert_eq!(switch.old_thread, ThreadId(1));
    assert!(!switch.save_old_stack_ptr);
    assert_eq!(sched.current_thread().id(), &ThreadId(0));
    assert_eq!(finished.len(), 1);
    assert_eq!(finished[0].id(), &ThreadId(1));
    assert_eq!(finished[0].state(), State::Finished);

    // while a rescheduling runs, nothing happens
    let mut busy = true;
    new_threads.push_back(Thread::new_ready(ProcessId(2), 0x6000, "x".to_string(), Priority::Low, 0, 0, 0, vec![0; 32 * 1024], 0x30_0000, &mut ids));
    assert!(sched.reschedule(&mut busy, &mut new_threads, &mut finished).is_none());
    assert_eq!(new_threads.len(), 1);
}

#[test]
fn file_numbers_and_offsets() {
    let mut alloc = FilenoAllocator::new();
    assert_eq!(alloc.next(), Fileno(0));
    assert_eq!(alloc.next().as_usize(), 1);
    assert_eq!(usize::from(Fileno::new(9)), 9);
    let mut fd = FileDescriptor::new("node");
    assert_eq!(fd.offset(), 0);
    assert_eq!(fd.read::<()>(Ok(10)), Ok(10));
    assert_eq!(fd.offset(), 10);
    assert_eq!(fd.write(Err::<usize, &str>("full")), Err("full"));
    assert_eq!(fd.offset(), 10);
    assert_eq!(fd.write::<()>(Ok(5)), Ok(5));
    assert_eq!(fd.offset(), 15);
    assert_eq!(*fd.node(), "node");
    assert_eq!(fd.into_node(), "node");
}

#[test]
fn elf_image() {
    let mut loader = ElfLoader::new();
    loader.allocate(&vec![LoadHeader { virtual_addr: 0x10, mem_size: 0x20 }, LoadHeader { virtual_addr: 0, mem_size: 0x8 }]);
    loader.load(0x10, &[1, 2, 3]);
    loader.load(0x2E, &[9, 9]);
    let image = loader.into_inner();
    assert_eq!(image.len(), 0x30);
    assert_eq!(&image[0x10..0x13], &[1, 2, 3]);
    assert_eq!(&image[0x2E..], &[9, 9]);
    assert_eq!(image[0], 0);
}

#[test]
fn process_tree() {
    let mut tree: ProcessTree<&str> = ProcessTree::new();
    let root = ProcessId(0);
    let child = ProcessId(1);
    tree.set_root(root, "init");
    tree.insert_process(root, child, "shell");
    assert_eq!(tree.process_by_id(&child), Some(&"shell"));
    assert_eq!(tree.child_count(&root), 1);
    assert!(!tree.has_tasks(&child));
    tree.add_task(&child, &TaskId(5));
    tree.add_task(&child, &TaskId(6));
    assert!(tree.has_tasks(&child));
    assert_eq!(tree.task_count(&child), 2);
    tree.remove_task(&child, &TaskId(5));
    tree.remove_task(&child, &TaskId(6));
    assert!(!tree.has_tasks(&child));
    assert_eq!(tree.remove_process(&child), Some("shell"));
    assert_eq!(tree.process_by_id(&child), None);
    assert_eq!(tree.remove_process(&ProcessId(9)), None);
}

#[test]
fn first_system_calls_answer_zero() {
    let mut buf = [7u8; 4];
    assert_eq!(sys_read(0, &mut buf), 0);
    assert_eq!(buf, [7; 4]);
    assert_eq!(sys_write(1, &buf), 0);
    assert_eq!(sys_open("/bin/sh", 0, 0), 0);
    assert_eq!(sys_close(3), 0);
}

#[test]
fn open_files_of_a_process() {
    let mut files: OpenFiles<&str> = OpenFiles::new();
    let a = files.get_fileno_for("a");
    let b = files.get_fileno_for("b");
    assert_eq!((a, b), (Fileno(0), Fileno(1)));
    assert_eq!(files.read::<()>(a, Ok(4)), Ok(4));
    assert_eq!(files.read::<()>(a, Ok(2)), Ok(2));
    assert_eq!(files.descriptor(a).unwrap().offset(), 6);
    assert_eq!(files.descriptor(b).unwrap().offset(), 0);
    assert_eq!(files.write(b, Err::<usize, &str>("io")), Err(FileError::Fs("io")));
    assert_eq!(files.read::<()>(Fileno(7), Ok(1)), Err(FileError::HandleClosed));
    assert_eq!(files.close_fd(a), Ok("a"));
    assert_eq!(files.close_fd(a), Err(FileError::HandleClosed));
    assert!(files.descriptor(a).is_none());
    assert_eq!(files.allocate_fileno(), Fileno(2));
}

#[test]
fn lowest_free_descriptor_number() {
    assert_eq!(lowest_free_fd(&vec![]), 0);
    assert_eq!(lowest_free_fd(&vec![0, 1, 2]), 3);
    assert_eq!(lowest_free_fd(&vec![0, 1, 3, 4]), 2);
    assert_eq!(lowest_free_fd(&vec![1, 2]), 0);
}

#[test]
fn freeing_the_last_thread_frees_the_process() {
    let mut tree: ProcessTree<&str> = ProcessTree::new();
    tree.set_root(ProcessId(0), "init");
    tree.insert_process(ProcessId(0), ProcessId(1), "job");
    tree.add_task(&ProcessId(1), &TaskId(10));
    tree.add_task(&ProcessId(1), &TaskId(11));
    assert_eq!(free_thread(&mut tree, ProcessId(1), TaskId(10)), None);
    assert_eq!(tree.process_by_id(&ProcessId(1)), Some(&"job"));
    assert_eq!(free_thread(&mut tree, ProcessId(1), TaskId(11)), Some("job"));
    assert_eq!(tree.process_by_id(&ProcessId(1)), None);
}

#[test]
fn kernel_and_user_processes() {
    let mut pids = IdCounter::new();
    let mut tids = IdCounter::new();
    let mut tree: ProcessTree<Process<&str>> = ProcessTree::new();
    let sched = init(0x1000, &mut pids, &mut tids, &mut tree);
    assert_eq!(sched.current_pid(), ProcessId(0));
    assert_eq!(sched.current_thread().name(), "kernel");
    let kernel = tree.process_by_id(&ProcessId(0)).unwrap();
    assert_eq!(kernel.name(), "kernel");
    assert_eq!(kernel.cr3_value(), 0x1000);
    assert_eq!(kernel.attributes().uid.0, 0);
    assert!(tree.has_tasks(&ProcessId(0)));

    let pid = Process::create_user(ProcessId(0), 0x2000, Some("/bin/sh".to_string()), "sh".to_string(), RealUserId(5), RealGroupId(6), &mut pids, &mut tree);
    assert_eq!(pid, ProcessId(1));
    assert_eq!(tree.child_count(&ProcessId(0)), 1);
    let sh = tree.process_by_id(&pid).unwrap();
    assert_eq!(sh.name(), "sh");
    assert_eq!(sh.attributes().euid.0, 5);
    assert_eq!(sh.attributes().sgid.0, 6);
    assert!(!sh.should_terminate());
}

#[test]
fn round_robin_serves_threads_in_turn() {
    let mut ids = IdCounter::new();
    let kernel = Thread::kernel_thread(ProcessId(0), 0x1000, &mut ids);
    let mut sched = RoundRobinScheduler::new(kernel);
    let mut new_threads = VecDeque::new();
    let mut finished = VecDeque::new();
    // nothing ready: nothing happens
    assert!(sched.reschedule(&mut new_threads, &mut finished).is_none());
    assert_eq!(sched.current_thread().id(), &ThreadId(0));

    new_threads.push_back(Thread::new_ready(ProcessId(1), 0x2000, "a".to_string(), Priority::Low, 0, 0, 0, vec![0; 32 * 1024], 0x10_0000, &mut ids));
    new_threads.push_back(Thread::new_ready(ProcessId(2), 0x3000, "b".to_string(), Priority::High, 0, 0, 0, vec![0; 32 * 1024], 0x20_0000, &mut ids));
    let s = sched.reschedule(&mut new_threads, &mut finished).unwrap();
    assert_eq!(s.old_thread, ThreadId(0));
    assert_eq!(s.cr3_value, 0x2000);
    assert_eq!(sched.current_pid(), ProcessId(1));
    let s = sched.reschedule(&mut new_threads, &mut finished).unwrap();
    assert_eq!(s.old_thread, ThreadId(1));
    assert_eq!(sched.current_pid(), ProcessId(2));
    sched.exit_current_thread();
    let s = sched.reschedule(&mut new_threads, &mut finished).unwrap();
    assert!(!s.save_old_stack_ptr);
    assert_eq!(sched.current_pid(), ProcessId(0));
    assert_eq!(finished.len(), 1);
    assert_eq!(finished[0].id(), &ThreadId(2));
    let s = sched.reschedule(&mut new_threads, &mut finished).unwrap();
    assert_eq!(s.old_thread, ThreadId(0));
    assert_eq!(sched.current_pid(), ProcessId(1));
}

#[test]
fn new_user_process_has_no_ranges_or_files() {
    let mut pids = IdCounter::new();
    let mut tids = IdCounter::new();
    let mut tree: ProcessTree<Process<&str>> = ProcessTree::new();
    let _ = init(0x1000, &mut pids, &mut tids, &mut tree);
    let pid = Process::create_user(ProcessId(0), 0x2000, None, "sh".to_string(), RealUserId(5), RealGroupId(6), &mut pids, &mut tree);
    let sh = tree.process_by_id(&pid).unwrap();
    assert_eq!(sh.reserved_range_count(), 0);
    assert_eq!(sh.open_file_count(), 0);
    let mut files: OpenFiles<&str> = OpenFiles::new();
    files.get_fileno_for("a");
    files.get_fileno_for("b");
    assert_eq!(files.open_count(), 2);
}

#[test]
fn shared_positions_are_claimed_in_turn() {
    assert_eq!(kernel::process::fd::claim_position(10, 5), (10, 15));
    assert_eq!(kernel::process::fd::claim_position(u64::MAX, 2), (u64::MAX, 1));
}

#[test]
fn filenos_count_up_from_zero() {
    let mut a = FilenoAllocator::new();
    let handed: Vec<usize> = (0..5).map(|_| a.next().0).collect();
    assert_eq!(handed, vec![0, 1, 2, 3, 4]);
}

#[test]
fn open_files_are_listed_by_number() {
    let mut files: OpenFiles<&str> = OpenFiles::new();
    let a = files.get_fileno_for("a");
    let b = files.get_fileno_for("b");
    let c = files.get_fileno_for("c");
    assert_eq!(files.open_filenos(), vec![a.0, b.0, c.0]);
    assert!(files.close_fd(b).is_ok());
    assert_eq!(files.open_filenos(), vec![a.0, c.0]);
}
