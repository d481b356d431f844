//! The access-controlled slot: one service instance behind a latch that
//! admits any number of shared holders or one exclusive holder, never both,
//! and never makes anyone wait.

use vstd::prelude::*;

verus! {

/// Who holds a slot.
#[derive(Debug, Clone, Copy, PartialEq, Eq, Structural)]
pub enum Access {
    /// Nobody.
    Free,
    /// So many shared holders, at least one.
    Shared(u64),
    /// One exclusive holder.
    Exclusive,
}

/// The two ways of holding a slot.
#[derive(Debug, Clone, Copy, PartialEq, Eq, Structural)]
pub enum Mode {
    /// Together with other shared holders, to read.
    Shared,
    /// Alone, to change.
    Exclusive,
}

/// A count of shared holders is never zero.
pub open spec fn access_valid(access: Access) -> bool {
    access matches Access::Shared(n) ==> n >= 1
}

/// Whether a slot in this state can be acquired in this mode: shared unless
/// it is held exclusively (or the count of holders cannot grow), exclusive
/// only while nobody holds it.
pub open spec fn grantable(access: Access, mode: Mode) -> bool {
    match mode {
        Mode::Shared => match access {
            Access::Free => true,
            Access::Shared(n) => n < u64::MAX,
            Access::Exclusive => false,
        },
        Mode::Exclusive => access is Free,
    }
}

/// The state of the slot once it was acquired in this mode.
pub open spec fn after_acquire(access: Access, mode: Mode) -> Access {
    match mode {
        Mode::Shared => match access {
            Access::Shared(n) => Access::Shared((n + 1) as u64),
            _ => Access::Shared(1),
        },
        Mode::Exclusive => Access::Exclusive,
    }
}

/// Whether somebody holds the slot in this mode.
pub open spec fn held(access: Access, mode: Mode) -> bool {
    match mode {
        Mode::Shared => access is Shared,
        Mode::Exclusive => access is Exclusive,
    }
}

/// The state of the slot once one holder of this mode has released it.
pub open spec fn after_release(access: Access, mode: Mode) -> Access {
    match (mode, access) {
        (Mode::Shared, Access::Shared(n)) => if n > 1 {
            Access::Shared((n - 1) as u64)
        } else {
            Access::Free
        },
        _ => Access::Free,
    }
}

/// The state of the slot once `k` shared holders have released it.
pub open spec fn after_shared_releases(access: Access, k: nat) -> Access
    decreases k,
{
    if k == 0 {
        access
    } else {
        after_shared_releases(after_release(access, Mode::Shared), (k - 1) as nat)
    }
}

/// Shared holders coexist: a slot that is free or shared can be acquired
/// shared again, and is then held by one more.
pub proof fn lemma_shared_holders_coexist(access: Access)
    requires
        access_valid(access),
        grantable(access, Mode::Shared),
    ensures
        held(after_acquire(access, Mode::Shared), Mode::Shared),
        access_valid(after_acquire(access, Mode::Shared)),
        after_acquire(access, Mode::Shared) matches Access::Shared(n) && n == (match access {
            Access::Shared(m) => m + 1,
            _ => 1,
        }),
        access is Free ==> grantable(after_acquire(access, Mode::Shared), Mode::Shared),
{
}

/// A slot that anybody holds cannot be acquired exclusively, and a slot that
/// is held exclusively cannot be acquired at all.
pub proof fn lemma_conflicts_are_refused(access: Access, mode: Mode)
    requires
        access_valid(access),
    ensures
        access is Shared ==> !grantable(access, Mode::Exclusive),
        access is Exclusive ==> !grantable(access, mode),
        grantable(access, Mode::Exclusive) ==> access is Free,
{
}

/// Releasing what was acquired brings the slot back to where it was.
pub proof fn lemma_release_undoes_acquire(access: Access, mode: Mode)
    requires
        access_valid(access),
        grantable(access, mode),
    ensures
        held(after_acquire(access, mode), mode),
        after_release(after_acquire(access, mode), mode) == access,
{
}

/// A slot wears nothing out: once every holder has released the slot it is
/// free, and a free slot can be acquired in either mode.
pub proof fn lemma_released_slot_is_free(access: Access, mode: Mode)
    requires
        access_valid(access),
    ensures
        access is Exclusive ==> after_release(access, Mode::Exclusive) is Free,
        access matches Access::Shared(n) ==> after_shared_releases(access, n as nat) is Free,
        grantable(Access::Free, mode),
    decreases
            match access {
                Access::Shared(n) => n,
                _ => 0,
            },
{
    if let Access::Shared(n) = access {
        if n > 1 {
            lemma_released_slot_is_free(Access::Shared((n - 1) as u64), mode);
        } else {
            assert(after_shared_releases(Access::Free, 0) is Free);
        }
    }
}

/// What a slot is, as mathematical values: the instance and who holds it.
pub struct SlotModel<S> {
    pub instance: S,
    pub access: Access,
}

/// One service instance together with who holds it.
#[derive(Debug)]
pub struct Slot<S> {
    instance: S,
    access: Access,
}

impl<S> View for Slot<S> {
    type V = SlotModel<S>;

    closed spec fn view(&self) -> SlotModel<S> {
        SlotModel { instance: self.instance, access: self.access }
    }
}

impl<S> Slot<S> {
    /// The count of shared holders is never zero.
    pub open spec fn well_formed(&self) -> bool {
        access_valid(self@.access)
    }

    /// A fresh slot around an instance, held by nobody.
    pub fn new(instance: S) -> (r: Slot<S>)
        ensures
            r@ == (SlotModel { instance, access: Access::Free }),
            r.well_formed(),
    {
        Slot { instance, access: Access::Free }
    }

    /// Who holds the slot.
    pub fn access(&self) -> (r: Access)
        ensures
            r == self@.access,
    {
        self.access
    }

    /// Whether the slot can be acquired in this mode right now.
    pub fn can_acquire(&self, mode: Mode) -> (r: bool)
        ensures
            r == grantable(self@.access, mode),
    {
        match mode {
            Mode::Shared => match self.access {
                Access::Free => true,
                Access::Shared(n) => n < u64::MAX,
                Access::Exclusive => false,
            },
            Mode::Exclusive => match self.access {
                Access::Free => true,
                _ => false,
            },
        }
    }

    /// Adds a shared holder and hands out the instance to read.
    pub fn acquire_shared(&mut self) -> (r: &S)
        requires
            old(self).well_formed(),
            grantable(old(self)@.access, Mode::Shared),
        ensures
            final(self).well_formed(),
            final(self)@ == (SlotModel {
                access: after_acquire(old(self)@.access, Mode::Shared),
                ..old(self)@
            }),
            *r == old(self)@.instance,
    {
        self.access = match self.access {
            Access::Shared(n) => Access::Shared(n + 1),
            _ => Access::Shared(1),
        };
        &self.instance
    }

    /// Makes the caller the exclusive holder and hands out the instance to
    /// change.
    pub fn acquire_exclusive(&mut self) -> (r: &mut S)
        requires
            old(self).well_formed(),
            grantable(old(self)@.access, Mode::Exclusive),
        ensures
            final(self).well_formed(),
            *r == old(self)@.instance,
            final(self)@ == (SlotModel { instance: *final(r), access: Access::Exclusive }),
    {
        self.access = Access::Exclusive;
        &mut self.instance
    }

    /// Takes one holder of this mode off the slot.
    pub fn release(&mut self, mode: Mode)
        requires
            old(self).well_formed(),
            held(old(self)@.access, mode),
        ensures
            final(self).well_formed(),
            final(self)@ == (SlotModel {
                access: after_release(old(self)@.access, mode),
                ..old(self)@
            }),
    {
        self.access = match self.access {
            Access::Shared(n) => if n > 1 {
                Access::Shared(n - 1)
            } else {
                Access::Free
            },
            _ => Access::Free,
        };
    }

    /// The instance, whoever holds the slot: for the registry's own checks.
    pub(crate) fn peek(&self) -> (r: &S)
        ensures
            *r == self@.instance,
    {
        &self.instance
    }

    /// The instance, for a holder to read.
    pub fn instance(&self) -> (r: &S)
        requires
            self@.access !is Free,
        ensures
            *r == self@.instance,
    {
        &self.instance
    }

    /// The instance, for the exclusive holder to change.
    pub fn instance_mut(&mut self) -> (r: &mut S)
        requires
            old(self)@.access is Exclusive,
        ensures
            *r == old(self)@.instance,
            final(self)@ == (SlotModel { instance: *final(r), access: Access::Exclusive }),
    {
        &mut self.instance
    }
}

} // verus!
