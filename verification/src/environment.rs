//! The environment: a registry of services keyed by the identity of their
//! type. It is filled while it is open, sealed once, and from then on hands
//! out shared and exclusive access to each service, as its slot admits.

use crate::slot::{access_valid, after_acquire, after_release, after_shared_releases, grantable,
    held, lemma_released_slot_is_free, Access, Mode, Slot, SlotModel};
use crate::text::str_equal;
use vstd::prelude::*;

verus! {

/// What an environment is, as mathematical values: whether it is sealed, and
/// the slot of each registered identity.
pub struct EnvironmentModel<S> {
    pub sealed: bool,
    pub slots: Map<Seq<char>, SlotModel<S>>,
}

/// The ways in which an environment can be misused. Each is a fault of the
/// program that wires the services together, and none can be recovered from.
#[derive(Debug, Clone, Copy, PartialEq, Eq, Structural)]
pub enum Fault {
    /// The environment was sealed before.
    AlreadySealed,
    /// A service was to be registered after the environment was sealed.
    SealedRegistry,
    /// A service was asked for before the environment was sealed.
    BootstrapIncomplete,
    /// No service is registered under the identity.
    UnknownService,
    /// The slot is held in a way that rules the acquisition out.
    AccessConflict,
    /// The instance under the identity is not of the type asked for.
    IdentityMismatch,
}

/// Every count of holders is at least one, and nothing is held before the
/// environment is sealed.
pub open spec fn valid<S>(m: EnvironmentModel<S>) -> bool {
    forall|name: Seq<char>| #[trigger]
        m.slots.dom().contains(name) ==> access_valid(m.slots[name].access) && (!m.sealed
            ==> m.slots[name].access is Free)
}

/// What stands in the way of sealing.
pub open spec fn seal_fault<S>(m: EnvironmentModel<S>) -> Option<Fault> {
    if m.sealed {
        Some(Fault::AlreadySealed)
    } else {
        None
    }
}

/// What stands in the way of registering a service, whatever its identity.
pub open spec fn register_fault<S>(m: EnvironmentModel<S>) -> Option<Fault> {
    if m.sealed {
        Some(Fault::SealedRegistry)
    } else {
        None
    }
}

/// What stands in the way of acquiring the service of an identity in a
/// mode: the open environment first, then the missing service, then the
/// holders of the slot.
pub open spec fn access_fault<S>(m: EnvironmentModel<S>, name: Seq<char>, mode: Mode) -> Option<
    Fault,
> {
    if !m.sealed {
        Some(Fault::BootstrapIncomplete)
    } else if !m.slots.dom().contains(name) {
        Some(Fault::UnknownService)
    } else if !grantable(m.slots[name].access, mode) {
        Some(Fault::AccessConflict)
    } else {
        None
    }
}

/// The environment once it was sealed.
pub open spec fn sealed_from<S>(m: EnvironmentModel<S>) -> EnvironmentModel<S> {
    EnvironmentModel { sealed: true, ..m }
}

/// The environment once an instance was registered under an identity: it
/// stands in a fresh slot, in the place of what was registered there before.
pub open spec fn with_service<S>(
    m: EnvironmentModel<S>,
    name: Seq<char>,
    instance: S,
) -> EnvironmentModel<S> {
    EnvironmentModel {
        slots: m.slots.insert(name, SlotModel { instance, access: Access::Free }),
        ..m
    }
}

/// The environment once the slot of an identity was acquired in a mode.
pub open spec fn with_acquired<S>(
    m: EnvironmentModel<S>,
    name: Seq<char>,
    mode: Mode,
) -> EnvironmentModel<S> {
    EnvironmentModel {
        slots: m.slots.insert(
            name,
            SlotModel { access: after_acquire(m.slots[name].access, mode), ..m.slots[name] },
        ),
        ..m
    }
}

/// The environment once a holder of a mode has released the slot of an
/// identity.
pub open spec fn with_released<S>(
    m: EnvironmentModel<S>,
    name: Seq<char>,
    mode: Mode,
) -> EnvironmentModel<S> {
    EnvironmentModel {
        slots: m.slots.insert(
            name,
            SlotModel { access: after_release(m.slots[name].access, mode), ..m.slots[name] },
        ),
        ..m
    }
}

/// The environment once `k` shared holders have released the slot of an
/// identity, one after the other.
pub open spec fn with_shared_released<S>(
    m: EnvironmentModel<S>,
    name: Seq<char>,
    k: nat,
) -> EnvironmentModel<S>
    decreases k,
{
    if k == 0 {
        m
    } else {
        with_shared_released(with_released(m, name, Mode::Shared), name, (k - 1) as nat)
    }
}

/// Before the environment is sealed no service can be acquired, in either
/// mode, whether it is registered or not.
pub proof fn lemma_no_access_before_seal<S>(m: EnvironmentModel<S>, name: Seq<char>, mode: Mode)
    requires
        !m.sealed,
    ensures
        access_fault(m, name, mode) == Some(Fault::BootstrapIncomplete),
{
}

/// While the environment is open a service can be registered, and of two
/// registrations under one identity the later one stands: the environment is
/// as if the earlier had never been made.
pub proof fn lemma_later_registration_stands<S>(
    m: EnvironmentModel<S>,
    name: Seq<char>,
    earlier: S,
    later: S,
)
    requires
        !m.sealed,
    ensures
        register_fault(m) is None,
        register_fault(with_service(m, name, earlier)) is None,
        with_service(with_service(m, name, earlier), name, later) == with_service(m, name, later),
        with_service(m, name, later).slots[name] == (SlotModel {
            instance: later,
            access: Access::Free,
        }),
        valid(m) ==> valid(with_service(m, name, later)),
{
    assert(with_service(with_service(m, name, earlier), name, later).slots =~= with_service(
        m,
        name,
        later,
    ).slots);
}

/// Once the environment is sealed nothing can be registered, under a new
/// identity or under one that is registered.
pub proof fn lemma_sealed_refuses_registration<S>(m: EnvironmentModel<S>)
    requires
        m.sealed,
    ensures
        register_fault(m) == Some(Fault::SealedRegistry),
{
}

/// The environment can be sealed while it is open, and never a second time.
/// Sealing keeps every slot as it is.
pub proof fn lemma_sealed_once<S>(m: EnvironmentModel<S>)
    requires
        seal_fault(m) is None,
    ensures
        seal_fault(sealed_from(m)) == Some(Fault::AlreadySealed),
        sealed_from(m).slots == m.slots,
        valid(m) ==> valid(sealed_from(m)),
{
}

/// Shared holders coexist: where a service can be acquired shared, it is
/// then held by one more holder, and a service that nobody held can at once
/// be acquired shared a second time and is then held by two.
pub proof fn lemma_shared_access_coexists<S>(m: EnvironmentModel<S>, name: Seq<char>)
    requires
        valid(m),
        access_fault(m, name, Mode::Shared) is None,
    ensures
        valid(with_acquired(m, name, Mode::Shared)),
        with_acquired(m, name, Mode::Shared).slots[name].access == (match m.slots[name].access {
            Access::Shared(n) => Access::Shared((n + 1) as u64),
            _ => Access::Shared(1),
        }),
        m.slots[name].access is Free ==> access_fault(
            with_acquired(m, name, Mode::Shared),
            name,
            Mode::Shared,
        ) is None && with_acquired(with_acquired(m, name, Mode::Shared), name, Mode::Shared).slots[name].access
            == Access::Shared(2),
{
    assert(m.slots.dom().contains(name));
}

/// Conflicting access is refused: a service with a shared holder cannot be
/// acquired exclusively, and a service with an exclusive holder cannot be
/// acquired at all.
pub proof fn lemma_conflicting_access_is_fault<S>(
    m: EnvironmentModel<S>,
    name: Seq<char>,
    mode: Mode,
)
    requires
        m.sealed,
        m.slots.dom().contains(name),
    ensures
        m.slots[name].access is Shared ==> access_fault(m, name, Mode::Exclusive) == Some(
            Fault::AccessConflict,
        ),
        m.slots[name].access is Exclusive ==> access_fault(m, name, mode) == Some(
            Fault::AccessConflict,
        ),
{
}

/// Releasing what was acquired brings the environment back to where it was,
/// so that the service can be acquired in the same way again.
pub proof fn lemma_release_undoes_acquire<S>(m: EnvironmentModel<S>, name: Seq<char>, mode: Mode)
    requires
        valid(m),
        access_fault(m, name, mode) is None,
    ensures
        held(with_acquired(m, name, mode).slots[name].access, mode),
        with_released(with_acquired(m, name, mode), name, mode) == m,
{
    assert(m.slots.dom().contains(name));
    assert(with_released(with_acquired(m, name, mode), name, mode).slots =~= m.slots);
}

/// What `k` releases by shared holders do to an environment: they change
/// the holders of the one slot, and nothing else.
pub proof fn lemma_shared_releases<S>(m: EnvironmentModel<S>, name: Seq<char>, k: nat)
    requires
        m.slots.dom().contains(name),
    ensures
        with_shared_released(m, name, k) == (EnvironmentModel {
            slots: m.slots.insert(
                name,
                SlotModel {
                    access: after_shared_releases(m.slots[name].access, k),
                    ..m.slots[name]
                },
            ),
            ..m
        }),
    decreases k,
{
    if k == 0 {
        assert(m.slots =~= m.slots.insert(name, m.slots[name]));
    } else {
        let next = with_released(m, name, Mode::Shared);
        lemma_shared_releases(next, name, (k - 1) as nat);
        assert(with_shared_released(m, name, k).slots =~= m.slots.insert(
            name,
            SlotModel { access: after_shared_releases(m.slots[name].access, k), ..m.slots[name] },
        ));
    }
}

/// A slot wears nothing out: once the exclusive holder, or every one of the
/// shared holders, has released a service, it can be acquired again in
/// either mode.
pub proof fn lemma_released_service_can_be_acquired<S>(
    m: EnvironmentModel<S>,
    name: Seq<char>,
    mode: Mode,
)
    requires
        valid(m),
        m.sealed,
        m.slots.dom().contains(name),
    ensures
        m.slots[name].access is Exclusive ==> access_fault(
            with_released(m, name, Mode::Exclusive),
            name,
            mode,
        ) is None,
        m.slots[name].access matches Access::Shared(n) ==> access_fault(
            with_shared_released(m, name, n as nat),
            name,
            mode,
        ) is None,
        m.slots[name].access is Free ==> access_fault(m, name, mode) is None,
{
    lemma_released_slot_is_free(m.slots[name].access, mode);
    if let Access::Shared(n) = m.slots[name].access {
        lemma_shared_releases(m, name, n as nat);
    }
}

/// A service under its name.
#[derive(Debug)]
struct Entry<S> {
    name: &'static str,
    slot: Slot<S>,
}

/// The slots of a list of entries by the names of the entries.
spec fn slots_of<S>(entries: Seq<Entry<S>>) -> Map<Seq<char>, SlotModel<S>>
    decreases entries.len(),
{
    if entries.len() == 0 {
        Map::empty()
    } else {
        slots_of(entries.drop_last()).insert(entries.last().name@, entries.last().slot@)
    }
}

/// No two entries have the same name.
spec fn distinct_names<S>(entries: Seq<Entry<S>>) -> bool {
    forall|i: int, j: int|
        0 <= i < j < entries.len() ==> (#[trigger] entries[i]).name@ != (#[trigger] entries[j]).name@
}

/// The identities with a slot are the names of the entries.
proof fn lemma_slots_dom<S>(entries: Seq<Entry<S>>, name: Seq<char>)
    ensures
        slots_of(entries).dom().contains(name) <==> exists|i: int|
            0 <= i < entries.len() && (#[trigger] entries[i]).name@ == name,
    decreases entries.len(),
{
    if entries.len() > 0 {
        let rest = entries.drop_last();
        lemma_slots_dom(rest, name);
        assert forall|i: int| 0 <= i < rest.len() implies rest[i] == entries[i] by {}
        if entries.last().name@ == name {
            assert(entries[entries.len() - 1].name@ == name);
        } else if slots_of(rest).dom().contains(name) {
            let i = choose|i: int| 0 <= i < rest.len() && (#[trigger] rest[i]).name@ == name;
            assert(entries[i].name@ == name);
        } else {
            assert forall|i: int| 0 <= i < entries.len() implies (#[trigger] entries[i]).name@
                != name by {
                if i < rest.len() {
                    assert(rest[i].name@ != name);
                }
            }
        }
    }
}

/// Where names are distinct, each entry's slot is the slot of its name.
proof fn lemma_slots_at<S>(entries: Seq<Entry<S>>, i: int)
    requires
        distinct_names(entries),
        0 <= i < entries.len(),
    ensures
        slots_of(entries).dom().contains(entries[i].name@),
        slots_of(entries)[entries[i].name@] == entries[i].slot@,
    decreases entries.len(),
{
    let rest = entries.drop_last();
    if i < entries.len() - 1 {
        assert forall|a: int, b: int| 0 <= a < b < rest.len() implies (#[trigger] rest[a]).name@ != (
        #[trigger] rest[b]).name@ by {
            assert(rest[a] == entries[a] && rest[b] == entries[b]);
        }
        lemma_slots_at(rest, i);
        assert(rest[i] == entries[i]);
        assert(entries[i].name@ != entries[entries.len() - 1].name@);
    }
}

/// Putting another entry of the same name in the place of one changes the
/// slot of that name and nothing else.
proof fn lemma_slots_update<S>(entries: Seq<Entry<S>>, i: int, entry: Entry<S>)
    requires
        distinct_names(entries),
        0 <= i < entries.len(),
        entry.name@ == entries[i].name@,
    ensures
        distinct_names(entries.update(i, entry)),
        slots_of(entries.update(i, entry)) == slots_of(entries).insert(entry.name@, entry.slot@),
    decreases entries.len(),
{
    let changed = entries.update(i, entry);
    assert forall|a: int, b: int| 0 <= a < b < changed.len() implies (#[trigger] changed[a]).name@
        != (#[trigger] changed[b]).name@ by {
        assert(changed[a].name@ == entries[a].name@);
        assert(changed[b].name@ == entries[b].name@);
    }
    let rest = entries.drop_last();
    let last = entries.len() - 1;
    if i == last {
        assert(changed.drop_last() =~= rest);
        assert(slots_of(changed) =~= slots_of(entries).insert(entry.name@, entry.slot@));
    } else {
        assert forall|a: int, b: int| 0 <= a < b < rest.len() implies (#[trigger] rest[a]).name@ != (
        #[trigger] rest[b]).name@ by {
            assert(rest[a] == entries[a] && rest[b] == entries[b]);
        }
        assert(rest[i] == entries[i]);
        lemma_slots_update(rest, i, entry);
        assert(changed.drop_last() =~= rest.update(i, entry));
        assert(entries[i].name@ != entries[last].name@);
        assert(slots_of(changed) =~= slots_of(entries).insert(entry.name@, entry.slot@));
    }
}

/// The same, of every entry that may come to stand in that place.
proof fn lemma_slots_update_any<S>(entries: Seq<Entry<S>>, i: int)
    requires
        distinct_names(entries),
        0 <= i < entries.len(),
    ensures
        forall|entry: Entry<S>|
            entry.name@ == entries[i].name@ ==> distinct_names(
                #[trigger] entries.update(i, entry),
            ) && slots_of(entries.update(i, entry)) == slots_of(entries).insert(
                entry.name@,
                entry.slot@,
            ),
{
    assert forall|entry: Entry<S>| entry.name@ == entries[i].name@ implies distinct_names(
        #[trigger] entries.update(i, entry),
    ) && slots_of(entries.update(i, entry)) == slots_of(entries).insert(
        entry.name@,
        entry.slot@,
    ) by {
        lemma_slots_update(entries, i, entry);
    }
}

/// An entry added at the end gives its name its slot.
proof fn lemma_slots_push<S>(entries: Seq<Entry<S>>, entry: Entry<S>)
    ensures
        slots_of(entries.push(entry)) == slots_of(entries).insert(entry.name@, entry.slot@),
{
    assert(entries.push(entry).drop_last() =~= entries);
}

/// An environment containing various services.
#[derive(Debug)]
pub struct Environment<S> {
    services: Vec<Entry<S>>,
    bootstrap_complete: bool,
}

impl<S> View for Environment<S> {
    type V = EnvironmentModel<S>;

    closed spec fn view(&self) -> EnvironmentModel<S> {
        EnvironmentModel { sealed: self.bootstrap_complete, slots: slots_of(self.services@) }
    }
}

impl<S> Environment<S> {
    /// Each identity has one slot, every count of holders is at least one,
    /// and nothing is held before the environment is sealed.
    pub closed spec fn well_formed(&self) -> bool {
        &&& distinct_names(self.services@)
        &&& forall|i: int|
            0 <= i < self.services@.len() ==> access_valid(
                (#[trigger] self.services@[i]).slot@.access,
            ) && (!self.bootstrap_complete ==> self.services@[i].slot@.access is Free)
    }

    /// What is well formed is valid as a model.
    pub proof fn lemma_well_formed_is_valid(&self)
        requires
            self.well_formed(),
        ensures
            valid(self@),
    {
        let entries = self.services@;
        assert forall|name: Seq<char>| #[trigger]
            self@.slots.dom().contains(name) implies access_valid(self@.slots[name].access) && (
        !self@.sealed ==> self@.slots[name].access is Free) by {
            lemma_slots_dom(entries, name);
            let i = choose|i: int| 0 <= i < entries.len() && (#[trigger] entries[i]).name@ == name;
            lemma_slots_at(entries, i);
        }
    }

    /// Create a new, empty environment.
    pub fn new() -> (r: Environment<S>)
        ensures
            r.well_formed(),
            !r@.sealed,
            r@.slots == Map::<Seq<char>, SlotModel<S>>::empty(),
    {
        Environment { services: Vec::new(), bootstrap_complete: false }
    }

    /// Whether the environment is sealed.
    pub fn is_sealed(&self) -> (r: bool)
        ensures
            r == self@.sealed,
    {
        self.bootstrap_complete
    }

    /// Where the entry of that name stands.
    fn find(&self, name: &str) -> (r: Option<usize>)
        ensures
            match r {
                Some(i) => i < self.services@.len() && self.services@[i as int].name@ == name@,
                None => !self@.slots.dom().contains(name@),
            },
            r is Some <==> self@.slots.dom().contains(name@),
    {
        let mut i: usize = 0;
        while i < self.services.len()
            invariant
                i <= self.services@.len(),
                forall|j: int| 0 <= j < i ==> (#[trigger] self.services@[j]).name@ != name@,
            decreases self.services@.len() - i,
        {
            if str_equal(self.services[i].name, name) {
                proof {
                    lemma_slots_dom(self.services@, name@);
                }
                return Some(i);
            }
            i += 1;
        }
        proof {
            lemma_slots_dom(self.services@, name@);
        }
        None
    }

    /// Whether a service is registered under that identity.
    pub fn contains(&self, name: &str) -> (r: bool)
        ensures
            r == self@.slots.dom().contains(name@),
    {
        self.find(name).is_some()
    }

    /// Who holds the service of that identity, if one is registered.
    pub fn access(&self, name: &str) -> (r: Option<Access>)
        requires
            self.well_formed(),
        ensures
            r == if self@.slots.dom().contains(name@) {
                Some(self@.slots[name@].access)
            } else {
                None
            },
    {
        match self.find(name) {
            Some(i) => {
                proof {
                    lemma_slots_at(self.services@, i as int);
                }
                Some(self.services[i].slot.access())
            },
            None => None,
        }
    }

    /// What stands in the way of sealing, if anything does.
    pub fn seal_fault(&self) -> (r: Option<Fault>)
        ensures
            r == seal_fault(self@),
    {
        if self.bootstrap_complete {
            Some(Fault::AlreadySealed)
        } else {
            None
        }
    }

    /// What stands in the way of registering a service, if anything does.
    pub fn register_fault(&self) -> (r: Option<Fault>)
        ensures
            r == register_fault(self@),
    {
        if self.bootstrap_complete {
            Some(Fault::SealedRegistry)
        } else {
            None
        }
    }

    /// What stands in the way of acquiring the service of that identity in
    /// that mode, if anything does.
    pub fn access_fault(&self, name: &str, mode: Mode) -> (r: Option<Fault>)
        requires
            self.well_formed(),
        ensures
            r == access_fault(self@, name@, mode),
    {
        if !self.bootstrap_complete {
            return Some(Fault::BootstrapIncomplete);
        }
        match self.find(name) {
            None => Some(Fault::UnknownService),
            Some(i) => {
                proof {
                    lemma_slots_at(self.services@, i as int);
                }
                if self.services[i].slot.can_acquire(mode) {
                    None
                } else {
                    Some(Fault::AccessConflict)
                }
            },
        }
    }

    /// Seals the environment: from now on nothing can be registered, and
    /// the services can be acquired.
    pub fn finish_bootstrap(&mut self)
        requires
            old(self).well_formed(),
            seal_fault(old(self)@) is None,
        ensures
            final(self).well_formed(),
            final(self)@ == sealed_from(old(self)@),
    {
        self.bootstrap_complete = true;
    }

    /// Registers an instance under an identity, in a fresh slot. What was
    /// registered under the identity before is replaced.
    pub fn install(&mut self, name: &'static str, instance: S)
        requires
            old(self).well_formed(),
            register_fault(old(self)@) is None,
        ensures
            final(self).well_formed(),
            final(self)@ == with_service(old(self)@, name@, instance),
    {
        let entry = Entry { name, slot: Slot::new(instance) };
        match self.find(name) {
            Some(i) => {
                proof {
                    lemma_slots_update(self.services@, i as int, entry);
                }
                self.services.set(i, entry);
            },
            None => {
                proof {
                    lemma_slots_push(self.services@, entry);
                    assert forall|j: int| 0 <= j < self.services@.len() implies (
                    #[trigger] self.services@[j]).name@ != name@ by {
                        lemma_slots_dom(self.services@, name@);
                    }
                }
                self.services.push(entry);
            },
        }
    }

    /// Acquires the service of that identity together with other shared
    /// holders, and hands out its instance to read.
    pub fn acquire_shared(&mut self, name: &str) -> (r: &S)
        requires
            old(self).well_formed(),
            access_fault(old(self)@, name@, Mode::Shared) is None,
        ensures
            final(self).well_formed(),
            final(self)@ == with_acquired(old(self)@, name@, Mode::Shared),
            *r == old(self)@.slots[name@].instance,
    {
        let found = self.find(name);
        let i = found.unwrap();
        proof {
            lemma_slots_at(self.services@, i as int);
        }
        proof {
            lemma_slots_update_any(self.services@, i as int);
        }
        self.services[i].slot.acquire_shared()
    }

    /// Acquires the service of that identity for the caller alone, and hands
    /// out its instance to change.
    pub fn acquire_exclusive(&mut self, name: &str) -> (r: &mut S)
        requires
            old(self).well_formed(),
            access_fault(old(self)@, name@, Mode::Exclusive) is None,
        ensures
            final(self).well_formed(),
            *r == old(self)@.slots[name@].instance,
            final(self)@ == (EnvironmentModel {
                slots: old(self)@.slots.insert(
                    name@,
                    SlotModel { instance: *final(r), access: Access::Exclusive },
                ),
                ..old(self)@
            }),
    {
        let found = self.find(name);
        let i = found.unwrap();
        proof {
            lemma_slots_at(self.services@, i as int);
        }
        proof {
            lemma_slots_update_any(self.services@, i as int);
        }
        self.services[i].slot.acquire_exclusive()
    }

    /// The instance of the service of that identity, for a holder to read.
    pub fn instance(&self, name: &str) -> (r: &S)
        requires
            self.well_formed(),
            self@.slots.dom().contains(name@),
            self@.slots[name@].access !is Free,
        ensures
            *r == self@.slots[name@].instance,
    {
        let found = self.find(name);
        let i = found.unwrap();
        proof {
            lemma_slots_at(self.services@, i as int);
        }
        self.services[i].slot.instance()
    }

    /// The instance of the service of that identity, for the exclusive
    /// holder to change.
    pub fn instance_mut(&mut self, name: &str) -> (r: &mut S)
        requires
            old(self).well_formed(),
            old(self)@.slots.dom().contains(name@),
            old(self)@.slots[name@].access is Exclusive,
        ensures
            final(self).well_formed(),
            *r == old(self)@.slots[name@].instance,
            final(self)@ == (EnvironmentModel {
                slots: old(self)@.slots.insert(
                    name@,
                    SlotModel { instance: *final(r), access: Access::Exclusive },
                ),
                ..old(self)@
            }),
    {
        let found = self.find(name);
        let i = found.unwrap();
        proof {
            lemma_slots_at(self.services@, i as int);
            lemma_slots_update_any(self.services@, i as int);
            self.lemma_well_formed_is_valid();
        }
        self.services[i].slot.instance_mut()
    }

    /// Releases the service of that identity for one holder of that mode.
    pub fn release(&mut self, name: &str, mode: Mode)
        requires
            old(self).well_formed(),
            old(self)@.slots.dom().contains(name@),
            held(old(self)@.slots[name@].access, mode),
        ensures
            final(self).well_formed(),
            final(self)@ == with_released(old(self)@, name@, mode),
    {
        let found = self.find(name);
        let i = found.unwrap();
        proof {
            lemma_slots_at(self.services@, i as int);
        }
        let ghost before = self.services@;
        self.services[i].slot.release(mode);
        proof {
            lemma_slots_update(before, i as int, self.services@[i as int]);
            assert(self.services@ =~= before.update(i as int, self.services@[i as int]));
        }
    }
}

/// How a service type is stored without its type and found again: the pair
/// of conversions between a service and the erased form in which the
/// environment keeps every instance.
pub trait AsAny<S>: Sized {
    /// The service that an erased value holds, seen as a value of this type;
    /// `None` where it holds a value of another type. An implementation
    /// states it here.
    open spec fn recovered(erased: S) -> Option<Self> {
        None
    }

    /// Gives up the type: the erased value holds the service.
    fn erase(self) -> (erased: S)
        ensures
            Self::recovered(erased) == Some(self),
    ;

    /// Looks at an erased value as a service of this type, if it holds one.
    fn recover(erased: &S) -> (r: Option<&Self>)
        ensures
            match r {
                Some(service) => Self::recovered(*erased) == Some(*service),
                None => Self::recovered(*erased) is None,
            },
    ;

    /// The same, to change the service in place.
    fn recover_mut(erased: &mut S) -> (r: Option<&mut Self>)
        ensures
            match r {
                Some(service) => Self::recovered(*old(erased)) == Some(*service) && Self::recovered(
                    *final(erased),
                ) == Some(*final(service)),
                None => Self::recovered(*old(erased)) is None && *final(erased) == *old(erased),
            },
    ;
}

/// A long-lived subsystem that the environment hosts, identified by its
/// type.
pub trait Service<S>: AsAny<S> + Send + Sync {
    /// What a service is given at its start to reach the environment later.
    type Back;

    /// The identity of the service type, the same for every instance. An
    /// implementation states it here.
    open spec fn identity() -> Seq<char> {
        Seq::empty()
    }

    /// The identity of the service type.
    fn name() -> (n: &'static str)
        ensures
            n@ == Self::identity(),
    ;

    /// Constructs the service while the environment is open. The service may
    /// register the services it depends on; it leaves the environment open
    /// and takes nothing out of it.
    fn start(env_owned: Self::Back, env: &mut Environment<S>) -> (service: Self)
        requires
            old(env).well_formed(),
            register_fault(old(env)@) is None,
        ensures
            final(env).well_formed(),
            register_fault(final(env)@) is None,
            old(env)@.slots.dom().subset_of(final(env)@.slots.dom()),
    ;
}

/// What stands in the way of acquiring the service of type `T` in a mode:
/// what stands in the way of acquiring its identity, or an instance of
/// another type under it.
pub open spec fn typed_fault<S, T: Service<S>>(m: EnvironmentModel<S>, mode: Mode) -> Option<Fault> {
    match access_fault(m, T::identity(), mode) {
        Some(fault) => Some(fault),
        None => if T::recovered(m.slots[T::identity()].instance) is None {
            Some(Fault::IdentityMismatch)
        } else {
            None
        },
    }
}

/// Before the environment is sealed no service can be acquired by its type
/// either.
pub proof fn lemma_no_typed_access_before_seal<S, T: Service<S>>(m: EnvironmentModel<S>, mode: Mode)
    requires
        !m.sealed,
    ensures
        typed_fault::<S, T>(m, mode) == Some(Fault::BootstrapIncomplete),
{
}

impl<S> Environment<S> {
    /// Registers a new service with this environment: starts it, which may
    /// register the services it depends on, and stores it in a fresh slot
    /// under the identity of its type.
    pub fn register<T: Service<S>>(&mut self, env_owned: T::Back)
        requires
            old(self).well_formed(),
            register_fault(old(self)@) is None,
        ensures
            final(self).well_formed(),
            register_fault(final(self)@) is None,
            old(self)@.slots.dom().subset_of(final(self)@.slots.dom()),
            final(self)@.slots.dom().contains(T::identity()),
            final(self)@.slots[T::identity()].access is Free,
            T::recovered(final(self)@.slots[T::identity()].instance) is Some,
    {
        let new_service = T::start(env_owned, self);
        self.install(T::name(), new_service.erase());
    }

    /// What stands in the way of acquiring the service of type `T` in that
    /// mode, if anything does.
    pub fn access_fault_for<T: Service<S>>(&self, mode: Mode) -> (r: Option<Fault>)
        requires
            self.well_formed(),
        ensures
            r == typed_fault::<S, T>(self@, mode),
    {
        let name = T::name();
        match self.access_fault(name, mode) {
            Some(fault) => Some(fault),
            None => {
                let found = self.find(name);
                let i = found.unwrap();
                proof {
                    lemma_slots_at(self.services@, i as int);
                }
                if T::recover(self.services[i].slot.peek()).is_none() {
                    Some(Fault::IdentityMismatch)
                } else {
                    None
                }
            },
        }
    }

    /// Acquires the service of type `T` together with other shared holders
    /// and hands it out to read.
    pub fn get<T: Service<S>>(&mut self) -> (r: &T)
        requires
            old(self).well_formed(),
            typed_fault::<S, T>(old(self)@, Mode::Shared) is None,
        ensures
            final(self).well_formed(),
            final(self)@ == with_acquired(old(self)@, T::identity(), Mode::Shared),
            T::recovered(old(self)@.slots[T::identity()].instance) == Some(*r),
    {
        match T::recover(self.acquire_shared(T::name())) {
            Some(service) => service,
            None => unreached(),
        }
    }

    /// Acquires the service of type `T` for the caller alone and hands it out
    /// to change.
    pub fn get_mut<T: Service<S>>(&mut self) -> (r: &mut T)
        requires
            old(self).well_formed(),
            typed_fault::<S, T>(old(self)@, Mode::Exclusive) is None,
        ensures
            final(self).well_formed(),
            T::recovered(old(self)@.slots[T::identity()].instance) == Some(*r),
            final(self)@.sealed,
            final(self)@.slots.dom() == old(self)@.slots.dom(),
            final(self)@.slots.remove(T::identity()) == old(self)@.slots.remove(T::identity()),
            final(self)@.slots[T::identity()].access is Exclusive,
            T::recovered(final(self)@.slots[T::identity()].instance) == Some(*final(r)),
    {
        match T::recover_mut(self.acquire_exclusive(T::name())) {
            Some(service) => service,
            None => unreached(),
        }
    }
}

/// The views of a list of identities, in order.
pub open spec fn identities(names: Seq<&'static str>) -> Seq<Seq<char>> {
    Seq::new(names.len(), |i: int| names[i]@)
}

/// What a service keeps from its construction: a back-reference to the
/// environment that hosts it, and the identities of the services it
/// declared as its dependencies, in the order in which it declared them.
#[derive(Debug)]
pub struct ServiceKit<R> {
    env: R,
    deps: Vec<&'static str>,
}

impl<R> ServiceKit<R> {
    /// The back-reference that the kit holds.
    pub closed spec fn back_reference(&self) -> R {
        self.env
    }

    /// The identities of the declared dependencies, in order.
    pub closed spec fn dependencies(&self) -> Seq<Seq<char>> {
        identities(self.deps@)
    }

    /// Begins a kit for a service under construction, bound to the
    /// back-reference it was given and to the environment that is being
    /// filled.
    pub fn with_env<'a, S>(env_owned: R, env: &'a mut Environment<S>) -> (r: ServiceKitProto<
        'a,
        R,
        S,
    >)
        ensures
            r.env_owned == env_owned,
            *r.env == *old(env),
            *final(r.env) == *final(env),
            r.deps@.len() == 0,
    {
        ServiceKitProto { env_owned, env, deps: Vec::<&'static str>::new() }
    }

    /// The back-reference to the environment.
    pub fn env(&self) -> (r: &R)
        ensures
            *r == self.back_reference(),
    {
        &self.env
    }

    /// The identities of the declared dependencies, in the order in which
    /// they were declared.
    pub fn deps(&self) -> (r: &[&'static str])
        ensures
            identities(r@) == self.dependencies(),
    {
        self.deps.as_slice()
    }
}

/// A kit in the making: it registers the dependencies that the service
/// under construction declares, and keeps their identities.
pub struct ServiceKitProto<'a, R, S> {
    /// The back-reference that the finished kit will hold, and that each
    /// dependency is started with.
    pub env_owned: R,
    /// The environment that is being filled.
    pub env: &'a mut Environment<S>,
    /// The identities declared so far.
    pub deps: Vec<&'static str>,
}

impl<'a, R: Clone, S> ServiceKitProto<'a, R, S> {
    /// Declares a dependency on the service of type `T`: registers it, with
    /// all that it depends on, unless it is registered already, and records
    /// its identity.
    pub fn with_dep<T: Service<S, Back = R>>(self) -> (r: ServiceKitProto<'a, R, S>)
        requires
            self.env.well_formed(),
            register_fault(self.env@) is None,
        ensures
            r.env.well_formed(),
            register_fault(r.env@) is None,
            *final(r.env) == *final(self.env),
            old(self.env)@.slots.dom().subset_of(r.env@.slots.dom()),
            r.env@.slots.dom().contains(T::identity()),
            old(self.env)@.slots.dom().contains(T::identity()) ==> r.env@ == old(self.env)@,
            identities(r.deps@) == identities(self.deps@).push(T::identity()),
    {
        let mut kit = self;
        if !kit.env.contains(T::name()) {
            kit.env.register::<T>(kit.env_owned.clone());
        }
        kit.deps.push(T::name());
        assert(identities(kit.deps@) =~= identities(self.deps@).push(T::identity()));
        kit
    }

    /// Finishes the kit: the back-reference and the recorded identities, for
    /// the service to keep. The environment is left as it stands.
    pub fn new(self) -> (r: ServiceKit<R>)
        ensures
            r.back_reference() == self.env_owned,
            r.dependencies() == identities(self.deps@),
            *final(self.env) == *old(self.env),
    {
        ServiceKit { env: self.env_owned, deps: self.deps }
    }
}

} // verus!
