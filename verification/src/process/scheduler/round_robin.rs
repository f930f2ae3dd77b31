//! The first scheduler of the kernel: one queue of ready threads, served in turn.
use vstd::prelude::*;
use std::collections::VecDeque;
use crate::process::attributes::ProcessId;
use crate::process::scheduler::thread::{State, Thread};
use crate::process::scheduler::thread::ThreadId;
use crate::process::scheduler::{id_count, is_id, Switch};

verus! {

/// The running thread, whether it asked to exit, and the ready threads in the order in
/// which they run.
pub struct RoundRobinScheduler {
    current_thread: Thread,
    current_thread_should_exit: bool,
    ready: VecDeque<Thread>,
}

impl RoundRobinScheduler {
    pub closed spec fn spec_current(&self) -> Thread {
        self.current_thread
    }

    pub closed spec fn spec_should_exit(&self) -> bool {
        self.current_thread_should_exit
    }

    pub closed spec fn spec_ready(&self) -> Seq<Thread> {
        self.ready@
    }

    /// A scheduler whose running thread is `kernel_thread`, with no thread ready.
    pub fn new(kernel_thread: Thread) -> (r: Self)
        ensures
            r.spec_current() == kernel_thread,
            !r.spec_should_exit(),
            r.spec_ready() == Seq::<Thread>::empty(),
    {
        RoundRobinScheduler { current_thread: kernel_thread, current_thread_should_exit: false, ready: VecDeque::new() }
    }

    /// Marks the running thread as finished; it is not queued again at the next switch.
    pub fn exit_current_thread(&mut self)
        ensures
            final(self).spec_should_exit(),
            final(self).spec_current() == old(self).spec_current(),
            final(self).spec_ready() == old(self).spec_ready(),
    {
        self.current_thread_should_exit = true;
    }

    pub fn current_thread(&self) -> (r: &Thread)
        ensures
            *r == self.spec_current(),
    {
        &self.current_thread
    }

    pub fn current_pid(&self) -> (r: ProcessId)
        ensures
            r == self.spec_current().process,
    {
        self.current_thread.process
    }

    /// Decides the next switch: new threads join the back of the ready queue; if then no
    /// thread is ready, nothing happens. Otherwise the first ready thread runs, and the
    /// previously running one joins the back of the queue, or goes to `finished` if it
    /// asked to exit.
    pub fn reschedule(&mut self, new_threads: &mut VecDeque<Thread>, finished: &mut VecDeque<Thread>) -> (r: Option<Switch>)
        ensures
            final(new_threads)@ == Seq::<Thread>::empty(),
            ({
                let q = old(self).spec_ready() + old(new_threads)@;
                let prev = old(self).spec_current();
                if q.len() == 0 {
                    &&& r is None
                    &&& final(self).spec_ready() == q
                    &&& final(self).spec_current() == prev
                    &&& final(self).spec_should_exit() == old(self).spec_should_exit()
                    &&& final(finished)@ == old(finished)@
                } else {
                    let next = q[0];
                    &&& r == Some(Switch {
                        old_thread: prev.id,
                        save_old_stack_ptr: !old(self).spec_should_exit(),
                        new_stack_ptr: next.last_stack_ptr,
                        cr3_value: next.cr3_value,
                    })
                    &&& final(self).spec_current() == (Thread { state: State::Running, ..next })
                    &&& !final(self).spec_should_exit()
                    &&& if old(self).spec_should_exit() {
                        &&& final(finished)@ == old(finished)@.push(Thread { state: State::Finished, ..prev })
                        &&& final(self).spec_ready() == q.drop_first()
                    } else {
                        &&& final(finished)@ == old(finished)@
                        &&& final(self).spec_ready() == q.drop_first().push(Thread { state: State::Ready, ..prev })
                    }
                }
            }),
    {
        let ghost q0 = self.ready@;
        let ghost n0 = new_threads@;
        while new_threads.len() > 0
            invariant
                self.ready@ + new_threads@ == q0 + n0,
                self.current_thread == old(self).current_thread,
                self.current_thread_should_exit == old(self).current_thread_should_exit,
                q0 == old(self).ready@,
                n0 == old(new_threads)@,
                *finished == *old(finished),
            decreases new_threads@.len(),
        {
            let ghost before = self.ready@;
            let ghost nbefore = new_threads@;
            let t = new_threads.pop_front().unwrap();
            self.ready.push_back(t);
            proof {
                assert(self.ready@ + new_threads@ =~= before + nbefore);
            }
        }
        proof {
            assert(self.ready@ =~= q0 + n0);
        }
        let next = match self.ready.pop_front() {
            None => {
                return None;
            },
            Some(t) => t,
        };
        let mut old_thread = next;
        std::mem::swap(&mut self.current_thread, &mut old_thread);
        self.current_thread.set_state(State::Running);
        let should_exit = self.current_thread_should_exit;
        self.current_thread_should_exit = false;
        let old_id = old_thread.id;
        let save_old_stack_ptr = if should_exit {
            old_thread.set_state(State::Finished);
            finished.push_back(old_thread);
            false
        } else {
            old_thread.set_state(State::Ready);
            self.ready.push_back(old_thread);
            true
        };
        let new_stack_ptr = self.current_thread.last_stack_ptr();
        let cr3_value = self.current_thread.cr3_value;
        Some(Switch { old_thread: old_id, save_old_stack_ptr, new_stack_ptr, cr3_value })
    }
}

/// A round-robin switch neither loses nor duplicates threads: every thread id occurs as
/// often among the running thread, the ready queue, the new threads and the finished
/// threads before the switch as after it.
pub proof fn lemma_round_robin_keeps_every_thread(
    ready: Seq<Thread>,
    new: Seq<Thread>,
    prev: Thread,
    finished: Seq<Thread>,
    should_exit: bool,
    id: ThreadId,
)
    requires
        (ready + new).len() > 0,
    ensures
        ({
            let q = ready + new;
            let next = q[0];
            let running = Thread { state: State::Running, ..next };
            let (ready2, finished2) = if should_exit {
                (q.drop_first(), finished.push(Thread { state: State::Finished, ..prev }))
            } else {
                (q.drop_first().push(Thread { state: State::Ready, ..prev }), finished)
            };
            is_id(running, id) + id_count(ready2, id) + id_count(finished2, id)
                == is_id(prev, id) + id_count(ready, id) + id_count(new, id) + id_count(finished, id)
        }),
{
    let q = ready + new;
    crate::process::scheduler::lemma_id_count_add(ready, new, id);
    crate::process::scheduler::lemma_id_count_first(q, id);
    let rest = q.drop_first();
    let p_ready = Thread { state: State::Ready, ..prev };
    let p_fin = Thread { state: State::Finished, ..prev };
    assert(rest.push(p_ready).drop_last() =~= rest);
    assert(finished.push(p_fin).drop_last() =~= finished);
}

} // verus!
