//! The scheduler's decisions: which thread runs next, and where the previous one goes.
use vstd::prelude::*;
use std::collections::VecDeque;
use crate::process::attributes::ProcessId;

pub mod lfill;
pub mod queues;
pub mod round_robin;
pub mod thread;

pub use queues::Priority;
use queues::{priority_number, AtomicPriority, Queues};
use thread::{State, Thread, ThreadId};

verus! {

/// The number of entries of the scheduling strategy.
pub const STRATEGY_LENGTH: usize = 10;

/// The scheduling strategy: the priorities whose queues are looked at, in turn, cycled
/// through forever.
pub open spec fn strategy_at(i: int) -> Priority {
    if i == 0 {
        Priority::Realtime
    } else if i == 1 {
        Priority::High
    } else if i == 2 {
        Priority::Normal
    } else if i == 3 {
        Priority::Realtime
    } else if i == 4 {
        Priority::High
    } else if i == 5 {
        Priority::Low
    } else if i == 6 {
        Priority::Realtime
    } else if i == 7 {
        Priority::High
    } else if i == 8 {
        Priority::Realtime
    } else {
        Priority::Normal
    }
}

fn strategy_entry(i: usize) -> (r: Priority)
    requires
        i < STRATEGY_LENGTH,
    ensures
        r == strategy_at(i as int),
{
    if i == 0 {
        Priority::Realtime
    } else if i == 1 {
        Priority::High
    } else if i == 2 {
        Priority::Normal
    } else if i == 3 {
        Priority::Realtime
    } else if i == 4 {
        Priority::High
    } else if i == 5 {
        Priority::Low
    } else if i == 6 {
        Priority::Realtime
    } else if i == 7 {
        Priority::High
    } else if i == 8 {
        Priority::Realtime
    } else {
        Priority::Normal
    }
}

/// Every priority occurs among any ten consecutive entries of the strategy.
proof fn lemma_strategy_covers(pos: int, p: Priority) -> (j: int)
    requires
        0 <= pos < 10,
    ensures
        0 <= j < 10,
        strategy_at((pos + j) % 10) == p,
{
    let idx: int = match p {
        Priority::Realtime => 0,
        Priority::High => 1,
        Priority::Normal => 2,
        Priority::Low => 5,
    };
    let j = if idx >= pos { idx - pos } else { idx + 10 - pos };
    assert((pos + j) % 10 == idx);
    j
}

/// The strategy takes the queues in the cycle Realtime, High, Normal, Realtime, High,
/// Low, Realtime, High, Realtime, Normal: of every ten turns Realtime gets four, High
/// three, Normal two and Low one.
pub proof fn lemma_strategy_cycle()
    ensures
        forall|i: int| 0 <= i < 10 ==> #[trigger] strategy_at(i) == seq![
            Priority::Realtime,
            Priority::High,
            Priority::Normal,
            Priority::Realtime,
            Priority::High,
            Priority::Low,
            Priority::Realtime,
            Priority::High,
            Priority::Realtime,
            Priority::Normal,
        ][i],
{
    let cycle = seq![
        Priority::Realtime,
        Priority::High,
        Priority::Normal,
        Priority::Realtime,
        Priority::High,
        Priority::Low,
        Priority::Realtime,
        Priority::High,
        Priority::Realtime,
        Priority::Normal,
    ];
    assert forall|i: int| 0 <= i < 10 implies #[trigger] strategy_at(i) == cycle[i] by {
        if i == 0 {
        } else if i == 1 {
        } else if i == 2 {
        } else if i == 3 {
        } else if i == 4 {
        } else if i == 5 {
        } else if i == 6 {
        } else if i == 7 {
        } else if i == 8 {
        } else {
        }
    }
}

/// While a Realtime thread is ready, the search picks a Low thread only when it starts
/// at the strategy's Low turn (position 5), or at the High turn just before it while no
/// High thread is ready. The queues are numbered by priority: Low 0, Normal 1, High 2,
/// Realtime 3.
pub proof fn lemma_low_waits_for_realtime(q: Seq<Seq<Thread>>, pos: int)
    requires
        q.len() == 4,
        0 <= pos < 10,
        q[3].len() > 0,
        picked_priority(q, pos) == Priority::Low,
    ensures
        pos == 5 || (pos == 4 && q[2].len() == 0),
{
    reveal_with_fuel(first_nonempty_offset, 11);
    assert(q[priority_number(Priority::Realtime) as int].len() > 0);
}

/// Keeps only the threads with the given priority.
pub open spec fn has_priority(p: Priority) -> spec_fn(Thread) -> bool {
    |t: Thread| t.priority == p
}

/// The priority that the number `i` stands for.
pub open spec fn priority_of(i: int) -> Priority {
    if i == 0 {
        Priority::Low
    } else if i == 1 {
        Priority::Normal
    } else if i == 2 {
        Priority::High
    } else {
        Priority::Realtime
    }
}

/// The ready queues after the new threads were appended, each to the queue of its
/// priority, in the order in which they came.
pub open spec fn with_new_threads(q: Seq<Seq<Thread>>, new: Seq<Thread>) -> Seq<Seq<Thread>> {
    Seq::new(4, |i: int| q[i] + new.filter(has_priority(priority_of(i))))
}

/// The number of strategy steps from position `pos`, counting from `k`, until a
/// non-empty queue is reached (10 if there is none within reach).
pub open spec fn first_nonempty_offset(q: Seq<Seq<Thread>>, pos: int, k: int) -> int
    decreases 10 - k,
{
    if k >= 10 || k < 0 {
        10
    } else if q[priority_number(strategy_at((pos + k) % 10)) as int].len() > 0 {
        k
    } else {
        first_nonempty_offset(q, pos, k + 1)
    }
}

/// The number of strategy steps until the search from `pos` reaches a non-empty queue.
pub open spec fn pick_offset(q: Seq<Seq<Thread>>, pos: int) -> int {
    first_nonempty_offset(q, pos, 0)
}

/// The priority of the queue from which the next thread is taken.
pub open spec fn picked_priority(q: Seq<Seq<Thread>>, pos: int) -> Priority {
    strategy_at((pos + pick_offset(q, pos)) % 10)
}

/// The thread that runs next: the first of the picked queue.
pub open spec fn picked_thread(q: Seq<Seq<Thread>>, pos: int) -> Thread {
    q[priority_number(picked_priority(q, pos)) as int][0]
}

/// The ready queues without the thread that runs next.
pub open spec fn without_picked(q: Seq<Seq<Thread>>, pos: int) -> Seq<Seq<Thread>> {
    let i = priority_number(picked_priority(q, pos)) as int;
    q.update(i, q[i].drop_first())
}

/// The strategy position after the search from `pos`.
pub open spec fn next_position(q: Seq<Seq<Thread>>, pos: int) -> int {
    (pos + pick_offset(q, pos) + 1) % 10
}

/// Some queue holds a thread.
pub open spec fn some_ready(q: Seq<Seq<Thread>>) -> bool {
    exists|i: int| 0 <= i < 4 && #[trigger] q[i].len() > 0
}

/// What the scheduler hands to the context switch.
#[derive(Debug, Clone, Copy, PartialEq, Eq, Structural)]
pub struct Switch {
    /// The thread that stops running.
    pub old_thread: ThreadId,
    /// Whether the old thread's stack pointer must be saved; it need not be for a thread
    /// that finished.
    pub save_old_stack_ptr: bool,
    /// The stack pointer of the thread that runs next.
    pub new_stack_ptr: usize,
    /// The page table root of the process of the thread that runs next.
    pub cr3_value: usize,
}

/// The scheduler: the running thread and the ready queues, one per priority.
pub struct Scheduler {
    current_thread: Thread,
    current_thread_should_exit: bool,
    current_thread_prio: AtomicPriority,
    strategy: usize,
    ready: Queues<VecDeque<Thread>>,
}

impl Scheduler {
    pub closed spec fn spec_current(&self) -> Thread {
        self.current_thread
    }

    pub closed spec fn spec_should_exit(&self) -> bool {
        self.current_thread_should_exit
    }

    /// The priority with which the running thread is queued again.
    pub closed spec fn spec_current_prio(&self) -> Priority {
        self.current_thread_prio@
    }

    /// The position in the strategy at which the next search starts.
    pub closed spec fn spec_strategy(&self) -> int {
        self.strategy as int
    }

    /// The ready queues, by priority number.
    pub closed spec fn spec_ready(&self) -> Seq<Seq<Thread>> {
        Seq::new(4, |i: int| self.ready@[i]@)
    }

    pub closed spec fn wf(&self) -> bool {
        &&& self.strategy < STRATEGY_LENGTH
        &&& self.ready@.len() == 4
        &&& self.current_thread.state == State::Running
    }

    /// A scheduler whose running thread is `kernel_thread` and whose queues are empty.
    pub fn new(kernel_thread: Thread) -> (r: Self)
        requires
            kernel_thread.state == State::Running,
        ensures
            r.wf(),
            r.spec_current() == kernel_thread,
            !r.spec_should_exit(),
            r.spec_current_prio() == kernel_thread.priority,
            r.spec_strategy() == 0,
            r.spec_ready() == Seq::new(4, |i: int| Seq::<Thread>::empty()),
    {
        let priority = kernel_thread.priority();
        let r = Scheduler {
            current_thread: kernel_thread,
            current_thread_should_exit: false,
            current_thread_prio: AtomicPriority::new(priority),
            strategy: 0,
            ready: Queues::new(VecDeque::new(), VecDeque::new(), VecDeque::new(), VecDeque::new()),
        };
        assert(r.spec_ready() =~= Seq::new(4, |i: int| Seq::<Thread>::empty()));
        r
    }

    /// Marks the running thread as finished; it is not queued again at the next switch.
    pub fn exit_current_thread(&mut self)
        requires
            old(self).wf(),
        ensures
            final(self).wf(),
            final(self).spec_should_exit(),
            final(self).spec_current() == old(self).spec_current(),
            final(self).spec_current_prio() == old(self).spec_current_prio(),
            final(self).spec_strategy() == old(self).spec_strategy(),
            final(self).spec_ready() == old(self).spec_ready(),
    {
        self.current_thread_should_exit = true;
    }

    /// Changes the priority with which the running thread is queued again.
    pub fn change_current_thread_prio(&mut self, prio: Priority)
        requires
            old(self).wf(),
        ensures
            final(self).wf(),
            final(self).spec_current_prio() == prio,
            final(self).spec_should_exit() == old(self).spec_should_exit(),
            final(self).spec_current() == old(self).spec_current(),
            final(self).spec_strategy() == old(self).spec_strategy(),
            final(self).spec_ready() == old(self).spec_ready(),
    {
        self.current_thread_prio.store(prio);
    }

    pub fn current_thread(&self) -> (r: &Thread)
        ensures
            *r == self.spec_current(),
    {
        &self.current_thread
    }

    /// The process of the running thread.
    pub fn current_pid(&self) -> (r: ProcessId)
        ensures
            r == self.spec_current().process,
    {
        self.current_thread.process()
    }

    /// The process of the running thread.
    pub fn current_process(&self) -> (r: ProcessId)
        ensures
            r == self.spec_current().process,
    {
        self.current_thread.process()
    }

    /// Moves all new threads, in order, to the back of the ready queue of their priority.
    pub fn take_new_threads(&mut self, new_threads: &mut VecDeque<Thread>)
        requires
            old(self).wf(),
        ensures
            final(self).wf(),
            final(new_threads)@ == Seq::<Thread>::empty(),
            final(self).spec_ready() == with_new_threads(old(self).spec_ready(), old(new_threads)@),
            final(self).spec_current() == old(self).spec_current(),
            final(self).spec_should_exit() == old(self).spec_should_exit(),
            final(self).spec_current_prio() == old(self).spec_current_prio(),
            final(self).spec_strategy() == old(self).spec_strategy(),
    {
        let ghost q0 = self.spec_ready();
        let ghost n0 = new_threads@;
        let ghost mut k: int = 0;
        proof {
            assert(self.spec_ready() =~= with_new_threads(q0, n0.subrange(0, 0))) by {
                assert forall|i: int| 0 <= i < 4 implies n0.subrange(0, 0).filter(
                    has_priority(priority_of(i)),
                ) =~= Seq::<Thread>::empty() by {
                    reveal(Seq::filter);
                }
            }
        }
        loop
            invariant
                self.wf(),
                0 <= k <= n0.len(),
                new_threads@ == n0.subrange(k, n0.len() as int),
                self.spec_ready() == with_new_threads(q0, n0.subrange(0, k)),
                self.current_thread == old(self).current_thread,
                self.current_thread_should_exit == old(self).current_thread_should_exit,
                self.current_thread_prio == old(self).current_thread_prio,
                self.strategy == old(self).strategy,
            ensures
                new_threads@ == Seq::<Thread>::empty(),
                self.wf(),
                self.spec_ready() == with_new_threads(q0, n0),
                self.current_thread == old(self).current_thread,
                self.current_thread_should_exit == old(self).current_thread_should_exit,
                self.current_thread_prio == old(self).current_thread_prio,
                self.strategy == old(self).strategy,
            decreases n0.len() - k,
        {
            match new_threads.pop_front() {
                None => {
                    assert(n0.subrange(0, k) =~= n0);
                    break;
                },
                Some(t) => {
                    let ghost before = self.spec_ready();
                    let ghost ready_before = self.ready@;
                    let p = t.priority();
                    self.ready.index_mut(p).push_back(t);
                    proof {
                        let pn = priority_number(p) as int;
                        assert(self.ready@[pn]@ == ready_before[pn]@.push(t));
                        assert(forall|i: int| 0 <= i < 4 && i != pn ==> self.ready@[i] == ready_before[i]);
                        assert(n0[k] == t);
                        assert(n0.subrange(0, k + 1) =~= n0.subrange(0, k).push(t));
                        assert forall|i: int| 0 <= i < 4 implies #[trigger] self.spec_ready()[i]
                            == with_new_threads(q0, n0.subrange(0, k + 1))[i] by {
                            let f = has_priority(priority_of(i));
                            n0.subrange(0, k).lemma_filter_push(t, f);
                            assert(before[i] == q0[i] + n0.subrange(0, k).filter(f));
                            if i == pn {
                                assert(priority_of(i) == p);
                                assert(f(t));
                                assert(self.spec_ready()[i] == before[i].push(t));
                                assert(self.spec_ready()[i] =~= q0[i] + n0.subrange(0, k).filter(f).push(t));
                            } else {
                                assert(priority_of(i) != p);
                                assert(!f(t));
                                assert(self.spec_ready()[i] == before[i]);
                            }
                        }
                        assert(self.spec_ready() =~= with_new_threads(q0, n0.subrange(0, k + 1)));
                        k = k + 1;
                    }
                },
            }
        }
    }

    /// Takes the next thread: the strategy is followed from its current position, and
    /// the first thread of the first non-empty queue it reaches is removed and returned.
    pub fn next_thread(&mut self) -> (r: Thread)
        requires
            old(self).wf(),
            some_ready(old(self).spec_ready()),
        ensures
            final(self).wf(),
            r == picked_thread(old(self).spec_ready(), old(self).spec_strategy()),
            final(self).spec_ready() == without_picked(old(self).spec_ready(), old(self).spec_strategy()),
            final(self).spec_strategy() == next_position(old(self).spec_ready(), old(self).spec_strategy()),
            final(self).spec_current() == old(self).spec_current(),
            final(self).spec_should_exit() == old(self).spec_should_exit(),
            final(self).spec_current_prio() == old(self).spec_current_prio(),
    {
        let ghost q = self.spec_ready();
        let ghost pos0 = self.strategy as int;
        let mut steps: usize = 0;
        loop
            invariant
                self.wf(),
                self.spec_ready() == q,
                steps <= 10,
                0 <= pos0 < 10,
                self.strategy as int == (pos0 + steps) % 10,
                some_ready(q),
                first_nonempty_offset(q, pos0, 0) == first_nonempty_offset(q, pos0, steps as int),
                forall|j: int| 0 <= j < steps ==> #[trigger] q[priority_number(strategy_at((pos0 + j) % 10)) as int].len() == 0,
                self.current_thread == old(self).current_thread,
                self.current_thread_should_exit == old(self).current_thread_should_exit,
                self.current_thread_prio == old(self).current_thread_prio,
                q == old(self).spec_ready(),
                pos0 == old(self).strategy,
            decreases 10 - steps,
        {
            proof {
                if steps == 10 {
                    let i = choose|i: int| 0 <= i < 4 && #[trigger] q[i].len() > 0;
                    let j = lemma_strategy_covers(pos0, priority_of(i));
                    assert(q[priority_number(strategy_at((pos0 + j) % 10)) as int].len() == 0);
                    assert(priority_number(priority_of(i)) == i);
                    assert(false);
                }
            }
            let ghost ready_before = self.ready@;
            let p = strategy_entry(self.strategy);
            self.strategy = (self.strategy + 1) % STRATEGY_LENGTH;
            let popped = self.ready.index_mut(p).pop_front();
            match popped {
                Some(t) => {
                    proof {
                        let pn = priority_number(p) as int;
                        assert((pos0 + steps) % 10 == (pos0 + steps as int) % 10);
                        assert(q[pn].len() > 0);
                        assert(first_nonempty_offset(q, pos0, steps as int) == steps);
                        assert(pick_offset(q, pos0) == steps);
                        assert(self.strategy as int == (pos0 + steps + 1) % 10);
                        assert(self.spec_ready() =~= without_picked(q, pos0));
                    }
                    return t;
                },
                None => {
                    proof {
                        let pn = priority_number(p) as int;
                        assert(self.ready@[pn]@ == ready_before[pn]@);
                        assert(self.spec_ready() =~= q);
                        assert(q[pn].len() == 0);
                        assert(first_nonempty_offset(q, pos0, steps as int) == first_nonempty_offset(q, pos0, steps + 1));
                    }
                    steps = steps + 1;
                },
            }
        }
    }

    /// Makes `next` the running thread; returns the priority with which the previously
    /// running thread is to be queued, and that thread.
    fn swap_current_thread(&mut self, next: Thread) -> (r: (Priority, Thread))
        requires
            old(self).wf(),
        ensures
            final(self).wf(),
            final(self).spec_current() == (Thread { state: State::Running, ..next }),
            final(self).spec_current_prio() == next.priority,
            r.0 == old(self).spec_current_prio(),
            r.1 == old(self).spec_current(),
            final(self).spec_ready() == old(self).spec_ready(),
            final(self).spec_strategy() == old(self).spec_strategy(),
            final(self).spec_should_exit() == old(self).spec_should_exit(),
    {
        let mut next_thread = next;
        next_thread.set_state(State::Running);
        let new_priority_for_old_task = self.current_thread_prio.swap(next_thread.priority());
        std::mem::swap(&mut self.current_thread, &mut next_thread);
        (new_priority_for_old_task, next_thread)
    }

    /// Whether a thread can be found once `new_threads` join the ready queues, which a
    /// switch needs.
    pub fn can_reschedule(&self, new_threads: &VecDeque<Thread>) -> (r: bool)
        requires
            self.wf(),
        ensures
            r == some_ready(with_new_threads(self.spec_ready(), new_threads@)),
    {
        let ghost q1 = with_new_threads(self.spec_ready(), new_threads@);
        if new_threads.len() > 0 {
            proof {
                let t = new_threads@[0];
                let i = priority_number(t.priority) as int;
                assert(priority_of(i) == t.priority);
                let f = has_priority(priority_of(i));
                assert(f(t));
                assert(new_threads@.filter(f).contains(t)) by {
                    broadcast use vstd::seq_lib::group_filter_ensures;
                    assert(new_threads@.contains(t));
                }
                assert(q1[i].len() > 0);
            }
            return true;
        }
        proof {
            assert forall|i: int| 0 <= i < 4 implies q1[i] == self.spec_ready()[i] by {
                let f = has_priority(priority_of(i));
                assert(new_threads@.filter(f) =~= Seq::<Thread>::empty()) by {
                    reveal(Seq::filter);
                }
            }
        }
        let n0 = self.ready.index(Priority::Low).len();
        let n1 = self.ready.index(Priority::Normal).len();
        let n2 = self.ready.index(Priority::High).len();
        let n3 = self.ready.index(Priority::Realtime).len();
        proof {
            assert(self.spec_ready()[0].len() == n0);
            assert(self.spec_ready()[1].len() == n1);
            assert(self.spec_ready()[2].len() == n2);
            assert(self.spec_ready()[3].len() == n3);
            if some_ready(q1) {
                let i = choose|i: int| 0 <= i < 4 && #[trigger] q1[i].len() > 0;
                assert(q1[i] == self.spec_ready()[i]);
            }
            assert(q1[0] == self.spec_ready()[0]);
            assert(q1[1] == self.spec_ready()[1]);
            assert(q1[2] == self.spec_ready()[2]);
            assert(q1[3] == self.spec_ready()[3]);
            if n0 > 0 {
                assert(q1[0].len() > 0);
            }
            if n1 > 0 {
                assert(q1[1].len() > 0);
            }
            if n2 > 0 {
                assert(q1[2].len() > 0);
            }
            if n3 > 0 {
                assert(q1[3].len() > 0);
            }
        }
        n0 > 0 || n1 > 0 || n2 > 0 || n3 > 0
    }

    /// Decides the next switch: new threads join the ready queues, the next thread is
    /// taken from them and runs, and the previously running thread is queued again with
    /// its current priority, or handed to `finished` if it asked to exit. Nothing happens
    /// while another rescheduling is in progress.
    pub fn reschedule(
        &mut self,
        in_reschedule: &mut bool,
        new_threads: &mut VecDeque<Thread>,
        finished: &mut VecDeque<Thread>,
    ) -> (r: Option<Switch>)
        requires
            old(self).wf(),
            !*old(in_reschedule) ==> some_ready(with_new_threads(old(self).spec_ready(), old(new_threads)@)),
        ensures
            final(self).wf(),
            *final(in_reschedule) == *old(in_reschedule),
            *old(in_reschedule) ==> {
                &&& r is None
                &&& final(self).spec_current() == old(self).spec_current()
                &&& final(self).spec_ready() == old(self).spec_ready()
                &&& final(self).spec_strategy() == old(self).spec_strategy()
                &&& final(self).spec_should_exit() == old(self).spec_should_exit()
                &&& final(self).spec_current_prio() == old(self).spec_current_prio()
                &&& final(new_threads)@ == old(new_threads)@
                &&& final(finished)@ == old(finished)@
            },
            !*old(in_reschedule) ==> {
                let q1 = with_new_threads(old(self).spec_ready(), old(new_threads)@);
                let pos = old(self).spec_strategy();
                let next = picked_thread(q1, pos);
                let q2 = without_picked(q1, pos);
                let prev = old(self).spec_current();
                let prio = priority_number(old(self).spec_current_prio()) as int;
                &&& r == Some(Switch {
                    old_thread: prev.id,
                    save_old_stack_ptr: !old(self).spec_should_exit(),
                    new_stack_ptr: next.last_stack_ptr,
                    cr3_value: next.cr3_value,
                })
                &&& final(self).spec_current() == (Thread { state: State::Running, ..next })
                &&& final(self).spec_current_prio() == next.priority
                &&& !final(self).spec_should_exit()
                &&& final(self).spec_strategy() == next_position(q1, pos)
                &&& final(new_threads)@ == Seq::<Thread>::empty()
                &&& if old(self).spec_should_exit() {
                    &&& final(finished)@ == old(finished)@.push(Thread { state: State::Finished, ..prev })
                    &&& final(self).spec_ready() == q2
                } else {
                    &&& final(finished)@ == old(finished)@
                    &&& final(self).spec_ready() == q2.update(prio, q2[prio].push(Thread { state: State::Ready, ..prev }))
                }
            },
    {
        if *in_reschedule {
            return None;
        }
        *in_reschedule = true;

        self.take_new_threads(new_threads);
        let next_thread = self.next_thread();
        let (priority, mut old_thread) = self.swap_current_thread(next_thread);

        let should_exit = self.current_thread_should_exit;
        self.current_thread_should_exit = false;
        let old_id = old_thread.id;
        let save_old_stack_ptr = if should_exit {
            old_thread.set_state(State::Finished);
            finished.push_back(old_thread);
            false
        } else {
            old_thread.set_state(State::Ready);
            let ghost ready_before = self.ready@;
            self.ready.index_mut(priority).push_back(old_thread);
            proof {
                let pn = priority_number(priority) as int;
                assert(self.ready@ == ready_before.update(pn, self.ready@[pn]));
            }
            true
        };

        let new_stack_ptr = self.current_thread.last_stack_ptr();
        let cr3_value = self.current_thread.cr3_value;

        *in_reschedule = false;
        proof {
            assert(self.spec_ready() =~= (if should_exit {
                without_picked(with_new_threads(old(self).spec_ready(), old(new_threads)@), old(self).spec_strategy())
            } else {
                let q2 = without_picked(with_new_threads(old(self).spec_ready(), old(new_threads)@), old(self).spec_strategy());
                let prio = priority_number(old(self).spec_current_prio()) as int;
                q2.update(prio, q2[prio].push(Thread { state: State::Ready, ..old(self).spec_current() }))
            }));
        }
        Some(Switch { old_thread: old_id, save_old_stack_ptr, new_stack_ptr, cr3_value })
    }
}

/// How often the thread id `id` occurs in `s`.
pub open spec fn id_count(s: Seq<Thread>, id: ThreadId) -> nat
    decreases s.len(),
{
    if s.len() == 0 {
        0
    } else {
        id_count(s.drop_last(), id) + (if s.last().id == id {
            1nat
        } else {
            0nat
        })
    }
}

/// How often the thread id `id` occurs in the four queues.
pub open spec fn queues_id_count(q: Seq<Seq<Thread>>, id: ThreadId) -> nat {
    id_count(q[0], id) + id_count(q[1], id) + id_count(q[2], id) + id_count(q[3], id)
}

/// 1 if `t` has the id `id`, else 0.
pub open spec fn is_id(t: Thread, id: ThreadId) -> nat {
    if t.id == id {
        1
    } else {
        0
    }
}

proof fn lemma_id_count_add(a: Seq<Thread>, b: Seq<Thread>, id: ThreadId)
    ensures
        id_count(a + b, id) == id_count(a, id) + id_count(b, id),
    decreases b.len(),
{
    if b.len() > 0 {
        lemma_id_count_add(a, b.drop_last(), id);
        assert((a + b).drop_last() =~= a + b.drop_last());
    } else {
        assert(a + b =~= a);
    }
}

proof fn lemma_id_count_first(s: Seq<Thread>, id: ThreadId)
    requires
        s.len() > 0,
    ensures
        id_count(s, id) == is_id(s[0], id) + id_count(s.drop_first(), id),
{
    let one = seq![s[0]];
    lemma_id_count_add(one, s.drop_first(), id);
    assert(one + s.drop_first() =~= s);
    assert(one.drop_last() =~= Seq::<Thread>::empty());
    assert(id_count(one.drop_last(), id) == 0);
    assert(one.last() == s[0]);
    assert(id_count(one, id) == is_id(s[0], id));
}

/// Splitting a sequence of threads by priority keeps every thread exactly once.
proof fn lemma_id_count_partition(s: Seq<Thread>, id: ThreadId)
    ensures
        id_count(s, id) == id_count(s.filter(has_priority(priority_of(0))), id) + id_count(
            s.filter(has_priority(priority_of(1))),
            id,
        ) + id_count(s.filter(has_priority(priority_of(2))), id) + id_count(
            s.filter(has_priority(priority_of(3))),
            id,
        ),
    decreases s.len(),
{
    reveal(Seq::filter);
    if s.len() > 0 {
        lemma_id_count_partition(s.drop_last(), id);
        let t = s.last();
        assert(s.drop_last().push(t) =~= s);
        let f0 = has_priority(priority_of(0));
        let f1 = has_priority(priority_of(1));
        let f2 = has_priority(priority_of(2));
        let f3 = has_priority(priority_of(3));
        s.drop_last().lemma_filter_push(t, f0);
        s.drop_last().lemma_filter_push(t, f1);
        s.drop_last().lemma_filter_push(t, f2);
        s.drop_last().lemma_filter_push(t, f3);
        let fs = s.drop_last().filter(f0);
        assert(fs.push(t).drop_last() =~= fs);
        let fs1 = s.drop_last().filter(f1);
        assert(fs1.push(t).drop_last() =~= fs1);
        let fs2 = s.drop_last().filter(f2);
        assert(fs2.push(t).drop_last() =~= fs2);
        let fs3 = s.drop_last().filter(f3);
        assert(fs3.push(t).drop_last() =~= fs3);
    }
}

/// Within ten strategy steps the search reaches every priority, so it finds a thread
/// whenever some queue holds one.
proof fn lemma_pick_nonempty(q: Seq<Seq<Thread>>, pos: int)
    requires
        q.len() == 4,
        0 <= pos < 10,
        some_ready(q),
    ensures
        0 <= pick_offset(q, pos) < 10,
        q[priority_number(picked_priority(q, pos)) as int].len() > 0,
{
    let i = choose|i: int| 0 <= i < 4 && #[trigger] q[i].len() > 0;
    let j = lemma_strategy_covers(pos, priority_of(i));
    assert(priority_number(priority_of(i)) == i);
    lemma_first_nonempty_found(q, pos, 0, j);
}

proof fn lemma_first_nonempty_found(q: Seq<Seq<Thread>>, pos: int, k: int, j: int)
    requires
        0 <= k <= j < 10,
        q[priority_number(strategy_at((pos + j) % 10)) as int].len() > 0,
    ensures
        k <= first_nonempty_offset(q, pos, k) <= j,
        q[priority_number(strategy_at((pos + first_nonempty_offset(q, pos, k)) % 10)) as int].len() > 0,
    decreases j - k,
{
    if q[priority_number(strategy_at((pos + k) % 10)) as int].len() == 0 {
        lemma_first_nonempty_found(q, pos, k + 1, j);
    }
}

proof fn lemma_with_new_count(q0: Seq<Seq<Thread>>, new: Seq<Thread>, id: ThreadId)
    requires
        q0.len() == 4,
    ensures
        queues_id_count(with_new_threads(q0, new), id) == queues_id_count(q0, id) + id_count(new, id),
{
    let q1 = with_new_threads(q0, new);
    lemma_id_count_partition(new, id);
    lemma_id_count_add(q0[0], new.filter(has_priority(priority_of(0))), id);
    lemma_id_count_add(q0[1], new.filter(has_priority(priority_of(1))), id);
    lemma_id_count_add(q0[2], new.filter(has_priority(priority_of(2))), id);
    lemma_id_count_add(q0[3], new.filter(has_priority(priority_of(3))), id);
}

proof fn lemma_without_picked_count(q1: Seq<Seq<Thread>>, pos: int, id: ThreadId)
    requires
        q1.len() == 4,
        0 <= pos < 10,
        some_ready(q1),
    ensures
        queues_id_count(q1, id) == is_id(picked_thread(q1, pos), id) + queues_id_count(
            without_picked(q1, pos),
            id,
        ),
{
    lemma_pick_nonempty(q1, pos);
    let k = priority_number(picked_priority(q1, pos)) as int;
    lemma_id_count_first(q1[k], id);
    let q2 = without_picked(q1, pos);
    assert(q2[k] == q1[k].drop_first());
    assert forall|i: int| 0 <= i < 4 && i != k implies q2[i] == q1[i] by {}
}

proof fn lemma_push_queue_count(q2: Seq<Seq<Thread>>, pn: int, t: Thread, id: ThreadId)
    requires
        q2.len() == 4,
        0 <= pn < 4,
    ensures
        queues_id_count(q2.update(pn, q2[pn].push(t)), id) == queues_id_count(q2, id) + is_id(t, id),
{
    let q3 = q2.update(pn, q2[pn].push(t));
    let qp = q2[pn].push(t);
    assert(qp.drop_last() =~= q2[pn]);
    assert forall|i: int| 0 <= i < 4 && i != pn implies q3[i] == q2[i] by {}
}

/// A switch neither loses nor duplicates threads: every thread id occurs as often
/// among the running thread, the ready queues, the new threads and the finished threads
/// before the switch as it does after it.
pub proof fn lemma_reschedule_keeps_every_thread(
    q0: Seq<Seq<Thread>>,
    new: Seq<Thread>,
    pos: int,
    prev: Thread,
    prio: Priority,
    should_exit: bool,
    finished: Seq<Thread>,
    id: ThreadId,
)
    requires
        q0.len() == 4,
        0 <= pos < 10,
        some_ready(with_new_threads(q0, new)),
    ensures
        ({
            let q1 = with_new_threads(q0, new);
            let next = picked_thread(q1, pos);
            let q2 = without_picked(q1, pos);
            let pn = priority_number(prio) as int;
            let (q3, finished3) = if should_exit {
                (q2, finished.push(Thread { state: State::Finished, ..prev }))
            } else {
                (q2.update(pn, q2[pn].push(Thread { state: State::Ready, ..prev })), finished)
            };
            is_id(prev, id) + queues_id_count(q0, id) + id_count(new, id) + id_count(finished, id)
                == is_id(next, id) + queues_id_count(q3, id) + id_count(finished3, id)
        }),
{
    let q1 = with_new_threads(q0, new);
    let q2 = without_picked(q1, pos);
    let pn = priority_number(prio) as int;
    lemma_with_new_count(q0, new, id);
    lemma_without_picked_count(q1, pos, id);
    if should_exit {
        let pf = Thread { state: State::Finished, ..prev };
        let fin = finished.push(pf);
        assert(fin.drop_last() =~= finished);
    } else {
        lemma_push_queue_count(q2, pn, Thread { state: State::Ready, ..prev }, id);
    }
}

} // verus!
