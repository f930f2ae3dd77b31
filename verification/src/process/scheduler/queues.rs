//! Thread priorities and one queue per priority.
use vstd::prelude::*;

verus! {

/// The priority of a thread.
#[derive(Debug, Copy, Clone, PartialEq, Eq, Structural)]
pub enum Priority {
    Low,
    Normal,
    High,
    Realtime,
}

/// The number that stands for a priority.
pub open spec fn priority_number(p: Priority) -> usize {
    match p {
        Priority::Low => 0,
        Priority::Normal => 1,
        Priority::High => 2,
        Priority::Realtime => 3,
    }
}

/// The error for a number that stands for no priority.
#[derive(Debug, Copy, Clone, PartialEq, Eq, Structural)]
pub struct TryFromPriorityError {
    pub number: usize,
}

impl Priority {
    /// The number that stands for this priority.
    pub fn into_usize(self) -> (r: usize)
        ensures
            r == priority_number(self),
    {
        match self {
            Priority::Low => 0,
            Priority::Normal => 1,
            Priority::High => 2,
            Priority::Realtime => 3,
        }
    }

    /// The priority that the number stands for.
    pub fn try_from_primitive(number: usize) -> (r: Result<Priority, TryFromPriorityError>)
        ensures
            number < 4 ==> (r matches Ok(p) && priority_number(p) == number),
            number >= 4 ==> r == Err::<Priority, TryFromPriorityError>(
                TryFromPriorityError { number },
            ),
    {
        if number == 0 {
            Ok(Priority::Low)
        } else if number == 1 {
            Ok(Priority::Normal)
        } else if number == 2 {
            Ok(Priority::High)
        } else if number == 3 {
            Ok(Priority::Realtime)
        } else {
            Err(TryFromPriorityError { number })
        }
    }

    /// The name of this priority.
    pub fn name(&self) -> (r: &'static str)
        ensures
            r@ == match *self {
                Priority::Low => "Low"@,
                Priority::Normal => "Normal"@,
                Priority::High => "High"@,
                Priority::Realtime => "Realtime"@,
            },
    {
        match self {
            Priority::Low => "Low",
            Priority::Normal => "Normal",
            Priority::High => "High",
            Priority::Realtime => "Realtime",
        }
    }
}

/// A priority that can be read and replaced.
pub struct AtomicPriority {
    inner: usize,
}

impl AtomicPriority {
    #[verifier::type_invariant]
    closed spec fn inv(self) -> bool {
        self.inner < 4
    }

    /// The stored priority.
    pub closed spec fn view(&self) -> Priority {
        match self.inner {
            0 => Priority::Low,
            1 => Priority::Normal,
            2 => Priority::High,
            _ => Priority::Realtime,
        }
    }

    pub fn new(priority: Priority) -> (r: Self)
        ensures
            r@ == priority,
    {
        AtomicPriority { inner: priority.into_usize() }
    }

    /// Replaces the stored priority.
    pub fn store(&mut self, priority: Priority)
        ensures
            final(self)@ == priority,
    {
        self.inner = priority.into_usize();
    }

    /// Replaces the stored priority and returns the one stored before.
    pub fn swap(&mut self, priority: Priority) -> (r: Priority)
        ensures
            final(self)@ == priority,
            r == old(self)@,
    {
        proof {
            use_type_invariant(&*self);
        }
        let old = self.inner;
        self.inner = priority.into_usize();
        match Priority::try_from_primitive(old) {
            Ok(p) => p,
            Err(_) => Priority::Low,
        }
    }
}

/// One value per priority.
pub struct Queues<T> {
    queues: [T; 4],
}

impl<T> Queues<T> {
    pub closed spec fn view(&self) -> Seq<T> {
        self.queues@
    }

    /// The value for the given priority.
    pub open spec fn at(&self, p: Priority) -> T {
        self@[priority_number(p) as int]
    }

    pub fn new(low: T, normal: T, high: T, realtime: T) -> (r: Self)
        ensures
            r@.len() == 4,
            r.at(Priority::Low) == low,
            r.at(Priority::Normal) == normal,
            r.at(Priority::High) == high,
            r.at(Priority::Realtime) == realtime,
    {
        Queues { queues: [low, normal, high, realtime] }
    }

    /// The value for the given priority.
    pub fn index(&self, p: Priority) -> (r: &T)
        ensures
            *r == self.at(p),
    {
        &self.queues[p.into_usize()]
    }

    /// The value for the given priority, to change it.
    pub fn index_mut(&mut self, p: Priority) -> (r: &mut T)
        ensures
            *r == old(self).at(p),
            final(self)@ == old(self)@.update(priority_number(p) as int, *final(r)),
    {
        &mut self.queues[p.into_usize()]
    }
}

} // verus!
