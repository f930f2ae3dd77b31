//! The process tree: every process by its id, each process's parent and children, and
//! the tasks that belong to each process.
use vstd::prelude::*;
use std::collections::{BTreeMap, BTreeSet};
use crate::process::attributes::ProcessId;
use crate::process::task::TaskId;

verus! {

broadcast use vstd::std_specs::btree::group_btree_axioms;

/// The processes of the system and how they relate.
pub struct ProcessTree<P> {
    root_pid: Option<u64>,
    processes_by_id: BTreeMap<u64, P>,
    parents: BTreeMap<u64, u64>,
    children: BTreeMap<u64, BTreeSet<u64>>,
    tasks: BTreeMap<u64, BTreeSet<u64>>,
}

/// The set held under `key`, or the empty set.
pub open spec fn set_at(m: Map<u64, Set<u64>>, key: u64) -> Set<u64> {
    if m.contains_key(key) {
        m[key]
    } else {
        Set::empty()
    }
}

impl<P> ProcessTree<P> {
    /// The id of the root process, once it is set.
    pub closed spec fn spec_root(&self) -> Option<u64> {
        self.root_pid
    }

    /// The processes by their ids.
    pub closed spec fn spec_processes(&self) -> Map<u64, P> {
        self.processes_by_id@
    }

    /// The parent of each process that has one.
    pub closed spec fn spec_parents(&self) -> Map<u64, u64> {
        self.parents@
    }

    /// The children of each process that has an entry for them.
    pub closed spec fn spec_children(&self) -> Map<u64, Set<u64>> {
        self.children@.map_values(|s: BTreeSet<u64>| s@)
    }

    /// The tasks of each process that has an entry for them.
    pub closed spec fn spec_tasks(&self) -> Map<u64, Set<u64>> {
        self.tasks@.map_values(|s: BTreeSet<u64>| s@)
    }

    /// An empty tree without a root.
    pub fn new() -> (r: Self)
        ensures
            r.spec_root() is None,
            r.spec_processes() == Map::<u64, P>::empty(),
            r.spec_parents() == Map::<u64, u64>::empty(),
            r.spec_children() == Map::<u64, Set<u64>>::empty(),
            r.spec_tasks() == Map::<u64, Set<u64>>::empty(),
    {
        let r = ProcessTree {
            root_pid: None,
            processes_by_id: BTreeMap::new(),
            parents: BTreeMap::new(),
            children: BTreeMap::new(),
            tasks: BTreeMap::new(),
        };
        proof {
            assert(r.spec_children() =~= Map::<u64, Set<u64>>::empty());
            assert(r.spec_tasks() =~= Map::<u64, Set<u64>>::empty());
        }
        r
    }

    /// The process with the given id.
    pub fn process_by_id(&self, process_id: &ProcessId) -> (r: Option<&P>)
        ensures
            match r {
                Some(p) => self.spec_processes().contains_key(process_id.0) && *p == self.spec_processes()[process_id.0],
                None => !self.spec_processes().contains_key(process_id.0),
            },
    {
        self.processes_by_id.get(&process_id.0)
    }

    /// Makes `process` the root of the tree.
    pub fn set_root(&mut self, process_id: ProcessId, process: P)
        requires
            old(self).spec_root() is None,
        ensures
            final(self).spec_root() == Some(process_id.0),
            final(self).spec_processes() == old(self).spec_processes().insert(process_id.0, process),
            final(self).spec_parents() == old(self).spec_parents(),
            final(self).spec_children() == old(self).spec_children(),
            final(self).spec_tasks() == old(self).spec_tasks(),
    {
        self.root_pid = Some(process_id.0);
        self.processes_by_id.insert(process_id.0, process);
    }

    /// Adds `process` as a child of the process `parent`.
    pub fn insert_process(&mut self, parent: ProcessId, process_id: ProcessId, process: P)
        ensures
            final(self).spec_root() == old(self).spec_root(),
            final(self).spec_processes() == old(self).spec_processes().insert(process_id.0, process),
            final(self).spec_parents() == old(self).spec_parents().insert(process_id.0, parent.0),
            final(self).spec_children() == old(self).spec_children().insert(
                parent.0,
                set_at(old(self).spec_children(), parent.0).insert(process_id.0),
            ),
            final(self).spec_tasks() == old(self).spec_tasks(),
    {
        self.processes_by_id.insert(process_id.0, process);
        let mut siblings = match self.children.remove(&parent.0) {
            Some(s) => s,
            None => BTreeSet::new(),
        };
        siblings.insert(process_id.0);
        let ghost before = self.children@;
        self.children.insert(parent.0, siblings);
        self.parents.insert(process_id.0, parent.0);
        proof {
            assert(self.spec_children() =~= old(self).spec_children().insert(
                parent.0,
                set_at(old(self).spec_children(), parent.0).insert(process_id.0),
            ));
        }
    }

    /// Removes the process with the given id, which has no entry for children, and hands
    /// it back.
    pub fn remove_process(&mut self, process_id: &ProcessId) -> (r: Option<P>)
        requires
            !old(self).spec_children().contains_key(process_id.0),
        ensures
            r == (if old(self).spec_processes().contains_key(process_id.0) {
                Some(old(self).spec_processes()[process_id.0])
            } else {
                None::<P>
            }),
            final(self).spec_root() == old(self).spec_root(),
            final(self).spec_processes() == old(self).spec_processes().remove(process_id.0),
            final(self).spec_parents() == old(self).spec_parents().remove(process_id.0),
            final(self).spec_children() == old(self).spec_children(),
            final(self).spec_tasks() == old(self).spec_tasks().remove(process_id.0),
    {
        let p = self.processes_by_id.remove(&process_id.0);
        self.parents.remove(&process_id.0);
        self.tasks.remove(&process_id.0);
        proof {
            assert(self.spec_tasks() =~= old(self).spec_tasks().remove(process_id.0));
        }
        p
    }

    /// Records that the task `task_id` belongs to the process `process_id`.
    pub fn add_task(&mut self, process_id: &ProcessId, task_id: &TaskId)
        ensures
            final(self).spec_root() == old(self).spec_root(),
            final(self).spec_processes() == old(self).spec_processes(),
            final(self).spec_parents() == old(self).spec_parents(),
            final(self).spec_children() == old(self).spec_children(),
            final(self).spec_tasks() == old(self).spec_tasks().insert(
                process_id.0,
                set_at(old(self).spec_tasks(), process_id.0).insert(task_id.0),
            ),
    {
        let mut set = match self.tasks.remove(&process_id.0) {
            Some(s) => s,
            None => BTreeSet::new(),
        };
        set.insert(task_id.0);
        self.tasks.insert(process_id.0, set);
        proof {
            assert(self.spec_tasks() =~= old(self).spec_tasks().insert(
                process_id.0,
                set_at(old(self).spec_tasks(), process_id.0).insert(task_id.0),
            ));
        }
    }

    /// Records that the task `task_id` no longer belongs to the process `process_id`; the
    /// process keeps an entry for its tasks, empty or not.
    pub fn remove_task(&mut self, process_id: &ProcessId, task_id: &TaskId)
        ensures
            final(self).spec_root() == old(self).spec_root(),
            final(self).spec_processes() == old(self).spec_processes(),
            final(self).spec_parents() == old(self).spec_parents(),
            final(self).spec_children() == old(self).spec_children(),
            final(self).spec_tasks() == old(self).spec_tasks().insert(
                process_id.0,
                set_at(old(self).spec_tasks(), process_id.0).remove(task_id.0),
            ),
    {
        let mut set = match self.tasks.remove(&process_id.0) {
            Some(s) => s,
            None => BTreeSet::new(),
        };
        set.remove(&task_id.0);
        self.tasks.insert(process_id.0, set);
        proof {
            assert(self.spec_tasks() =~= old(self).spec_tasks().insert(
                process_id.0,
                set_at(old(self).spec_tasks(), process_id.0).remove(task_id.0),
            ));
        }
    }

    /// Whether the process `process_id` has an entry for children, empty or not.
    pub fn has_children_entry(&self, process_id: &ProcessId) -> (r: bool)
        ensures
            r == self.spec_children().contains_key(process_id.0),
    {
        self.children.contains_key(&process_id.0)
    }

    /// Whether the process `process_id` is left without a task once `task_id` is gone.
    pub fn would_free(&self, process_id: &ProcessId, task_id: &TaskId) -> (r: bool)
        ensures
            r == set_at(self.spec_tasks(), process_id.0).remove(task_id.0).is_empty(),
    {
        match self.tasks.get(&process_id.0) {
            Some(set) => {
                let mut rest = set.clone();
                rest.remove(&task_id.0);
                rest.is_empty()
            },
            None => {
                proof {
                    assert(Set::<u64>::empty().remove(task_id.0) =~= Set::<u64>::empty());
                }
                true
            },
        }
    }

    /// Whether the process `process_id` has a task.
    pub fn has_tasks(&self, process_id: &ProcessId) -> (r: bool)
        ensures
            r == !set_at(self.spec_tasks(), process_id.0).is_empty(),
    {
        match self.tasks.get(&process_id.0) {
            Some(set) => !set.is_empty(),
            None => false,
        }
    }

    /// How many tasks the process `process_id` has.
    pub fn task_count(&self, process_id: &ProcessId) -> (r: usize)
        ensures
            r == set_at(self.spec_tasks(), process_id.0).len(),
    {
        match self.tasks.get(&process_id.0) {
            Some(set) => set.len(),
            None => 0,
        }
    }

    /// How many children the process `process_id` has.
    pub fn child_count(&self, process_id: &ProcessId) -> (r: usize)
        ensures
            r == set_at(self.spec_children(), process_id.0).len(),
    {
        match self.children.get(&process_id.0) {
            Some(set) => set.len(),
            None => 0,
        }
    }
}

/// Forgets the finished thread `thread` of the process `process_id`; once the process
/// has no thread left, it leaves the tree too and is handed back.
pub fn free_thread<P>(tree: &mut ProcessTree<P>, process_id: ProcessId, thread: TaskId) -> (r: Option<P>)
    requires
        set_at(old(tree).spec_tasks(), process_id.0).remove(thread.0).is_empty() ==> {
            &&& old(tree).spec_processes().contains_key(process_id.0)
            &&& !old(tree).spec_children().contains_key(process_id.0)
        },
    ensures
        final(tree).spec_root() == old(tree).spec_root(),
        final(tree).spec_children() == old(tree).spec_children(),
        ({
            let left = set_at(old(tree).spec_tasks(), process_id.0).remove(thread.0);
            if left.is_empty() {
                &&& r == Some(old(tree).spec_processes()[process_id.0])
                &&& final(tree).spec_processes() == old(tree).spec_processes().remove(process_id.0)
                &&& final(tree).spec_parents() == old(tree).spec_parents().remove(process_id.0)
                &&& final(tree).spec_tasks() == old(tree).spec_tasks().remove(process_id.0)
            } else {
                &&& r is None
                &&& final(tree).spec_processes() == old(tree).spec_processes()
                &&& final(tree).spec_parents() == old(tree).spec_parents()
                &&& final(tree).spec_tasks() == old(tree).spec_tasks().insert(process_id.0, left)
            }
        }),
{
    tree.remove_task(&process_id, &thread);
    if !tree.has_tasks(&process_id) {
        let ghost mid = tree.spec_tasks();
        let p = tree.remove_process(&process_id);
        proof {
            assert(tree.spec_tasks() =~= old(tree).spec_tasks().remove(process_id.0));
        }
        p
    } else {
        None
    }
}

/// Removing a process right after inserting it under a new id leaves the processes,
/// their parents and their tasks as they were.
pub proof fn lemma_remove_undoes_insert<P>(
    processes: Map<u64, P>,
    parents: Map<u64, u64>,
    tasks: Map<u64, Set<u64>>,
    pid: u64,
    parent: u64,
    process: P,
)
    requires
        !processes.contains_key(pid),
        !parents.contains_key(pid),
        !tasks.contains_key(pid),
    ensures
        processes.insert(pid, process).remove(pid) == processes,
        parents.insert(pid, parent).remove(pid) == parents,
        tasks.remove(pid) == tasks,
{
    assert(processes.insert(pid, process).remove(pid) =~= processes);
    assert(parents.insert(pid, parent).remove(pid) =~= parents);
    assert(tasks.remove(pid) =~= tasks);
}

/// A process has a task right after one was added to it, and has none once the only one
/// it had is removed again.
pub proof fn lemma_task_added_then_removed(tasks: Map<u64, Set<u64>>, pid: u64, tid: u64)
    requires
        set_at(tasks, pid).is_empty(),
    ensures
        !set_at(tasks.insert(pid, set_at(tasks, pid).insert(tid)), pid).is_empty(),
        set_at({
            let added = tasks.insert(pid, set_at(tasks, pid).insert(tid));
            added.insert(pid, set_at(added, pid).remove(tid))
        }, pid).is_empty(),
{
    let added = tasks.insert(pid, set_at(tasks, pid).insert(tid));
    assert(set_at(added, pid).contains(tid));
    let removed = added.insert(pid, set_at(added, pid).remove(tid));
    assert(set_at(removed, pid) =~= Set::<u64>::empty());
}

} // verus!
