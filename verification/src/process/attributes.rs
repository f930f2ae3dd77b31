//! Process identifiers and the user and group attributes of a process.
use vstd::prelude::*;

verus! {

/// A counter that hands out consecutive numbers, wrapping around at `u64::MAX`.
#[derive(Debug)]
pub struct IdCounter {
    next: u64,
}

impl IdCounter {
    pub closed spec fn view(&self) -> u64 {
        self.next
    }

    /// A counter whose first number is 0.
    pub fn new() -> (r: Self)
        ensures
            r@ == 0,
    {
        IdCounter { next: 0 }
    }

    /// The number that the counter hands out next.
    pub fn peek(&self) -> (r: u64)
        ensures
            r == self@,
    {
        self.next
    }

    /// Returns the current number and advances the counter by one.
    pub fn next(&mut self) -> (r: u64)
        ensures
            r == old(self)@,
            final(self)@ == (if old(self)@ == u64::MAX {
                0
            } else {
                old(self)@ + 1
            }),
    {
        let r = self.next;
        self.next = self.next.wrapping_add(1);
        r
    }
}

/// The identifier of a process.
#[derive(Debug, Clone, Copy, PartialEq, Eq, Structural)]
pub struct ProcessId(pub u64);

impl ProcessId {
    /// The next process id from the given counter.
    pub fn new(counter: &mut IdCounter) -> (r: Self)
        ensures
            r.0 == old(counter)@,
            final(counter)@ == (if old(counter)@ == u64::MAX {
                0
            } else {
                old(counter)@ + 1
            }),
    {
        ProcessId(counter.next())
    }
}

/// The identifier of a process group.
#[derive(Debug, Clone, Copy, PartialEq, Eq, Structural)]
pub struct ProcessGroupId(pub u64);

/// The effective user id.
#[derive(Debug, Clone, Copy, PartialEq, Eq, Structural)]
pub struct EffectiveUserId(pub u32);

/// The effective group id.
#[derive(Debug, Clone, Copy, PartialEq, Eq, Structural)]
pub struct EffectiveGroupId(pub u32);

/// The real user id.
#[derive(Debug, Clone, Copy, PartialEq, Eq, Structural)]
pub struct RealUserId(pub u32);

/// The real group id.
#[derive(Debug, Clone, Copy, PartialEq, Eq, Structural)]
pub struct RealGroupId(pub u32);

/// The saved set-user-id.
#[derive(Debug, Clone, Copy, PartialEq, Eq, Structural)]
pub struct SavedSetUserId(pub u32);

/// The saved set-group-id.
#[derive(Debug, Clone, Copy, PartialEq, Eq, Structural)]
pub struct SavedSetGroupId(pub u32);

/// The file mode creation mask.
#[derive(Debug, Clone, Copy, PartialEq, Eq, Structural)]
pub struct FileModeCreationMask(pub u16);

/// The user and group attributes of a process.
#[derive(Debug, Clone, Copy, PartialEq, Eq, Structural)]
pub struct Attributes {
    pub pgid: ProcessGroupId,
    pub euid: EffectiveUserId,
    pub egid: EffectiveGroupId,
    pub uid: RealUserId,
    pub gid: RealGroupId,
    pub suid: SavedSetUserId,
    pub sgid: SavedSetGroupId,
}

impl Attributes {
    /// Every id 0.
    pub open spec fn spec_kernel() -> Attributes {
        Attributes {
            pgid: ProcessGroupId(0),
            euid: EffectiveUserId(0),
            egid: EffectiveGroupId(0),
            uid: RealUserId(0),
            gid: RealGroupId(0),
            suid: SavedSetUserId(0),
            sgid: SavedSetGroupId(0),
        }
    }

    /// The effective and saved ids equal to the real ones, process group 0.
    pub open spec fn spec_user(uid: RealUserId, gid: RealGroupId) -> Attributes {
        Attributes {
            pgid: ProcessGroupId(0),
            euid: EffectiveUserId(uid.0),
            egid: EffectiveGroupId(gid.0),
            uid,
            gid,
            suid: SavedSetUserId(uid.0),
            sgid: SavedSetGroupId(gid.0),
        }
    }

    /// The attributes of the kernel process: every id is 0.
    pub fn kernel() -> (r: Self)
        ensures
            r == Self::spec_kernel(),
    {
        Attributes {
            pgid: ProcessGroupId(0),
            euid: EffectiveUserId(0),
            egid: EffectiveGroupId(0),
            uid: RealUserId(0),
            gid: RealGroupId(0),
            suid: SavedSetUserId(0),
            sgid: SavedSetGroupId(0),
        }
    }

    /// The attributes of a new user process: the effective and saved ids are the real
    /// ones, and the process group is 0.
    pub fn user(uid: RealUserId, gid: RealGroupId) -> (r: Self)
        ensures
            r == Self::spec_user(uid, gid),
    {
        Attributes {
            pgid: ProcessGroupId(0),
            euid: EffectiveUserId(uid.0),
            egid: EffectiveGroupId(gid.0),
            uid,
            gid,
            suid: SavedSetUserId(uid.0),
            sgid: SavedSetGroupId(gid.0),
        }
    }
}

} // verus!
