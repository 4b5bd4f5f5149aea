//! The bookkeeping of the device multiplexer: which xeniface device is the
//! active one, and the store watches and suspend registrations that clients
//! hold, each bound to the device it was registered with. Every watch and
//! suspend registration outlives the devices: when a new device becomes the
//! active one, each of them is registered again with it.
//!
//! The registry holds what the multiplexer decides on; the caller does the
//! device I/O and hands back its outcome. Devices are told apart by the
//! identity number the caller gives each of them; watches and suspend
//! registrations by the one the registry gives them.
use vstd::prelude::*;

verus! {

/// A registration that the multiplexer keeps across devices: a store watch,
/// whose subject is the watched path, or a suspend registration, whose subject
/// is `()`. It holds the event that the driver signals and, while it is
/// registered with a device, what that registration returned.
pub struct Slot<P, E, B> {
    pub id: u64,
    pub subject: P,
    pub event: E,
    pub binding: Option<B>,
}

/// The identities of the registrations, in their order.
pub open spec fn slot_ids<P, E, B>(s: Seq<Slot<P, E, B>>) -> Seq<u64> {
    s.map_values(|x: Slot<P, E, B>| x.id)
}

/// Whether no registration of `s` has identity `id`.
pub open spec fn id_absent<P, E, B>(s: Seq<Slot<P, E, B>>, id: u64) -> bool {
    forall|i: int| 0 <= i < s.len() ==> s[i].id != id
}

/// `new` holds the registrations of `old` in the same order, each with its
/// identity, subject and event, and with the binding of the same position
/// in `bindings`.
pub open spec fn rebound<P, E, B>(
    old: Seq<Slot<P, E, B>>,
    new: Seq<Slot<P, E, B>>,
    bindings: Seq<Option<B>>,
) -> bool {
    &&& new.len() == old.len()
    &&& forall|i: int|
        0 <= i < old.len() ==> {
            &&& (#[trigger] new[i]).id == old[i].id
            &&& new[i].subject == old[i].subject
            &&& new[i].event == old[i].event
            &&& new[i].binding == bindings[i]
        }
}

/// No identity occurs twice, and each is below `bound`.
pub open spec fn ids_below(ids: Seq<u64>, bound: u64) -> bool {
    &&& forall|i: int| 0 <= i < ids.len() ==> ids[i] < bound
    &&& forall|i: int, j: int| 0 <= i < j < ids.len() ==> ids[i] != ids[j]
}


/// Removing one identity keeps the others unique and below the bound.
proof fn lemma_ids_below_remove(ids: Seq<u64>, bound: u64, k: int)
    requires
        ids_below(ids, bound),
        0 <= k < ids.len(),
    ensures
        ids_below(ids.remove(k), bound),
{
    let r = ids.remove(k);
    assert forall|i: int, j: int| 0 <= i < j < r.len() implies r[i] != r[j] by {
        let oi = if i < k { i } else { i + 1 };
        let oj = if j < k { j } else { j + 1 };
        assert(r[i] == ids[oi]);
        assert(r[j] == ids[oj]);
    }
    assert forall|i: int| 0 <= i < r.len() implies r[i] < bound by {
        let oi = if i < k { i } else { i + 1 };
        assert(r[i] == ids[oi]);
    }
}

/// The position of the registration with identity `id`.
fn find_slot<P, E, B>(slots: &Vec<Slot<P, E, B>>, id: u64) -> (r: Option<usize>)
    ensures
        match r {
            Some(i) => i < slots@.len() && slots@[i as int].id == id,
            None => id_absent(slots@, id),
        },
{
    let mut i: usize = 0;
    while i < slots.len()
        invariant
            i <= slots@.len(),
            forall|k: int| 0 <= k < i ==> slots@[k].id != id,
        decreases slots@.len() - i,
    {
        if slots[i].id == id {
            return Some(i);
        }
        i += 1;
    }
    None
}

/// Takes out the registration with identity `id`, keeping the others in order.
fn take_slot<P, E, B>(slots: &mut Vec<Slot<P, E, B>>, id: u64) -> (r: Option<Slot<P, E, B>>)
    ensures
        match r {
            Some(slot) => exists|k: int|
                0 <= k < old(slots)@.len() && old(slots)@[k] == slot && slot.id == id
                    && final(slots)@ == old(slots)@.remove(k),
            None => id_absent(old(slots)@, id) && final(slots)@ == old(slots)@,
        },
{
    match find_slot(slots, id) {
        Some(i) => {
            let slot = slots.remove(i);
            Some(slot)
        },
        None => None,
    }
}

/// Gives each registration, in order, the binding of the same position.
fn rebind<P, E, B>(slots: Vec<Slot<P, E, B>>, bindings: Vec<Option<B>>) -> (r: Vec<Slot<P, E, B>>)
    requires
        bindings@.len() == slots@.len(),
    ensures
        rebound(slots@, r@, bindings@),
{
    let mut rest = slots;
    let mut binds = bindings;
    let mut out: Vec<Slot<P, E, B>> = Vec::new();
    let ghost n = slots@.len();
    while rest.len() > 0
        invariant
            out@.len() + rest@.len() == n,
            binds@.len() == rest@.len(),
            rest@ == slots@.skip(out@.len() as int),
            binds@ == bindings@.skip(out@.len() as int),
            bindings@.len() == n,
            slots@.len() == n,
            forall|i: int|
                0 <= i < out@.len() ==> {
                    &&& (#[trigger] out@[i]).id == slots@[i].id
                    &&& out@[i].subject == slots@[i].subject
                    &&& out@[i].event == slots@[i].event
                    &&& out@[i].binding == bindings@[i]
                },
        decreases rest@.len(),
    {
        let ghost k = out@.len() as int;
        let slot = rest.remove(0);
        let binding = binds.remove(0);
        assert(slot == slots@[k]);
        assert(binding == bindings@[k]);
        out.push(Slot { id: slot.id, subject: slot.subject, event: slot.event, binding });
        assert(rest@ =~= slots@.skip(out@.len() as int));
        assert(binds@ =~= bindings@.skip(out@.len() as int));
    }
    out
}

/// What the configuration manager reports about a device interface or a
/// device (the notification actions that the multiplexer tells apart).
#[derive(Clone, Copy, Debug, PartialEq, Eq)]
pub enum CmAction {
    InterfaceArrival,
    InterfaceRemoval,
    QueryRemove,
    QueryRemoveFailed,
    RemovePending,
    RemoveComplete,
    Other,
}

impl CmAction {
    /// Whether a device reports that its removal is being asked for (or that
    /// such a request failed): its handle has to be closed so the removal can
    /// go on.
    pub fn closes_handle(self) -> (b: bool)
        ensures
            b == (self is QueryRemove || self is QueryRemoveFailed),
    {
        match self {
            CmAction::QueryRemove | CmAction::QueryRemoveFailed => true,
            _ => false,
        }
    }

    /// Whether a device reports that it is being removed or is gone.
    pub open spec fn is_device_removal(self) -> bool {
        self is RemovePending || self is RemoveComplete
    }
}

/// The device notifications that take a device out of service are exactly
/// "removal pending" and "removal complete": a query for removal, a failed
/// query, an interface event or any other action is none of them.
pub proof fn lemma_device_removal_actions(a: CmAction)
    ensures
        a.is_device_removal() <==> (a == CmAction::RemovePending || a == CmAction::RemoveComplete),
        !CmAction::QueryRemove.is_device_removal(),
        !CmAction::QueryRemoveFailed.is_device_removal(),
        !CmAction::InterfaceArrival.is_device_removal(),
        !CmAction::InterfaceRemoval.is_device_removal(),
        !CmAction::Other.is_device_removal(),
{
}


/// A request to the multiplexer's worker: a notification on the device
/// interface class, or one that a device sent about itself (`target`, of
/// identity `target_id`).
pub enum XenifaceRequest<T> {
    Worker(CmAction),
    Listener { action: CmAction, target_id: u64, target: T },
}

/// What the worker does about a request: look for a device to make the
/// active one; put a device that goes away aside, with the active device
/// when that was it, to be dropped once the registry is unlocked; or nothing.
pub enum WorkerStep<T, D> {
    Refresh,
    Bury { target: T, detached: Option<D> },
    Idle,
}

/// How a refresh goes on: there is no device interface to open; the active
/// device still answers and stays; or a device is to be opened and made the
/// active one.
#[derive(Clone, Copy, Debug, PartialEq, Eq)]
pub enum RefreshPlan {
    NoInterface,
    KeepActive,
    Replace,
}


/// Taking out, by its identity, the registration that was added last leaves
/// the registrations as they were before it was added: no other one has its
/// identity, so no other one can be taken in its place.
pub proof fn lemma_remove_undoes_add<P, E, B>(s: Seq<Slot<P, E, B>>, slot: Slot<P, E, B>, k: int)
    requires
        id_absent(s, slot.id),
        0 <= k < s.len() + 1,
        s.push(slot)[k].id == slot.id,
    ensures
        k == s.len(),
        s.push(slot)[k] == slot,
        s.push(slot).remove(k) == s,
{
    if k < s.len() {
        assert(s.push(slot)[k] == s[k]);
    }
    assert(s.push(slot).remove(s.len() as int) =~= s);
}

/// Why a notification of the configuration manager is not passed on to the
/// multiplexer's worker.
#[derive(Clone, Copy, Debug, PartialEq, Eq)]
pub enum NotifyError {
    /// The notification carries no context to pass it on to.
    NoContext,
    /// Its event data is shorter than an event record.
    ShortEventData,
    /// The multiplexer that the device belongs to is gone.
    NoMultiplexer,
    /// The multiplexer's state cannot be locked.
    Poisoned,
}

/// Checks a notification on the device interface class before it is passed
/// on to the worker: it needs a context, and event data at least as long as
/// an event record (`record_size` bytes).
pub fn check_class_notification(has_context: bool, event_data_size: u32, record_size: usize) -> (r:
    Result<(), NotifyError>)
    ensures
        r == (if !has_context {
            Err(NotifyError::NoContext)
        } else if (event_data_size as int) < record_size {
            Err(NotifyError::ShortEventData)
        } else {
            Ok(())
        }),
{
    if !has_context {
        Err(NotifyError::NoContext)
    } else if (event_data_size as usize) < record_size {
        Err(NotifyError::ShortEventData)
    } else {
        Ok(())
    }
}

/// The multiplexer's state: the active device, if any, with its identity;
/// the watches and suspend registrations in the order they were made; the
/// identity that the next registration gets.
pub struct Registry<D, E, W, S> {
    active: Option<(u64, D)>,
    watches: Vec<Slot<String, E, W>>,
    suspends: Vec<Slot<(), E, S>>,
    next_id: u64,
}

impl<D, E, W, S> Registry<D, E, W, S> {
    #[verifier::type_invariant]
    spec fn inv(self) -> bool {
        &&& ids_below(slot_ids(self.watches@), self.next_id)
        &&& ids_below(slot_ids(self.suspends@), self.next_id)
    }

    /// The active device and its identity.
    pub closed spec fn active_device(self) -> Option<(u64, D)> {
        self.active
    }

    /// The watches, in the order they were made.
    pub closed spec fn watch_seq(self) -> Seq<Slot<String, E, W>> {
        self.watches@
    }

    /// The suspend registrations, in the order they were made.
    pub closed spec fn suspend_seq(self) -> Seq<Slot<(), E, S>> {
        self.suspends@
    }

    /// The identity that the next watch or suspend registration gets.
    pub closed spec fn next_id(self) -> u64 {
        self.next_id
    }

    /// Every identity in use is unique and below the next one.
    pub open spec fn ids_valid(self) -> bool {
        &&& ids_below(slot_ids(self.watch_seq()), self.next_id())
        &&& ids_below(slot_ids(self.suspend_seq()), self.next_id())
    }

    /// An empty registry: no active device, no watch, no suspend registration.
    pub fn new() -> (r: Self)
        ensures
            r.active_device() is None,
            r.watch_seq() == Seq::<Slot<String, E, W>>::empty(),
            r.suspend_seq() == Seq::<Slot<(), E, S>>::empty(),
            r.next_id() == 0,
            r.ids_valid(),
    {
        Registry { active: None, watches: Vec::new(), suspends: Vec::new(), next_id: 0 }
    }

    /// Whether an identity is left for one more registration.
    pub fn has_free_id(&self) -> (b: bool)
        ensures
            b == (self.next_id() < u64::MAX),
            self.ids_valid(),
    {
        proof {
            use_type_invariant(self);
        }
        self.next_id < u64::MAX
    }

    /// The active device.
    pub fn active(&self) -> (d: Option<&D>)
        ensures
            match self.active_device() {
                Some((_, dev)) => d == Some(&dev),
                None => d is None,
            },
    {
        match &self.active {
            Some((_, dev)) => Some(dev),
            None => None,
        }
    }

    /// The identity of the active device.
    pub fn active_id(&self) -> (id: Option<u64>)
        ensures
            match self.active_device() {
                Some((i, _)) => id == Some(i),
                None => id is None,
            },
    {
        match &self.active {
            Some((i, _)) => Some(*i),
            None => None,
        }
    }

    /// The watches, in the order they were made.
    pub fn watches(&self) -> (s: &[Slot<String, E, W>])
        ensures
            s@ == self.watch_seq(),
    {
        self.watches.as_slice()
    }

    /// The suspend registrations, in the order they were made.
    pub fn suspends(&self) -> (s: &[Slot<(), E, S>])
        ensures
            s@ == self.suspend_seq(),
    {
        self.suspends.as_slice()
    }

    /// The event of the watch with identity `id`.
    pub fn watch_event(&self, id: u64) -> (e: Option<&E>)
        ensures
            match e {
                Some(ev) => exists|k: int|
                    0 <= k < self.watch_seq().len() && self.watch_seq()[k].id == id && ev
                        == &self.watch_seq()[k].event,
                None => id_absent(self.watch_seq(), id),
            },
    {
        match find_slot(&self.watches, id) {
            Some(i) => {
                assert(self.watch_seq()[i as int].id == id);
                Some(&self.watches[i].event)
            },
            None => None,
        }
    }

    /// The event of the suspend registration with identity `id`.
    pub fn suspend_event(&self, id: u64) -> (e: Option<&E>)
        ensures
            match e {
                Some(ev) => exists|k: int|
                    0 <= k < self.suspend_seq().len() && self.suspend_seq()[k].id == id && ev
                        == &self.suspend_seq()[k].event,
                None => id_absent(self.suspend_seq(), id),
            },
    {
        match find_slot(&self.suspends, id) {
            Some(i) => {
                assert(self.suspend_seq()[i as int].id == id);
                Some(&self.suspends[i].event)
            },
            None => None,
        }
    }

    /// Records a new watch of `path`, signalled through `event`, with what
    /// registering it with the active device returned (`None` when there was
    /// no active device). It gets the next identity and goes last.
    pub fn add_watch(&mut self, path: String, event: E, binding: Option<W>) -> (id: u64)
        requires
            old(self).next_id() < u64::MAX,
        ensures
            id == old(self).next_id(),
            id_absent(old(self).watch_seq(), id),
            final(self).watch_seq() == old(self).watch_seq().push(
                (Slot { id, subject: path, event, binding }),
            ),
            final(self).suspend_seq() == old(self).suspend_seq(),
            final(self).active_device() == old(self).active_device(),
            final(self).next_id() == id + 1,
            final(self).ids_valid(),
    {
        proof {
            use_type_invariant(&*self);
        }
        let id = self.next_id;
        proof {
            assert forall|i: int| 0 <= i < self.watches@.len() implies self.watches@[i].id != id by {
                assert(slot_ids(self.watches@)[i] == self.watches@[i].id);
            }
        }
        self.next_id = id + 1;
        let mut slots = Vec::new();
        std::mem::swap(&mut slots, &mut self.watches);
        let ghost before = slots@;
        slots.push(Slot { id, subject: path, event, binding });
        proof {
            assert(slot_ids(slots@) =~= slot_ids(before).push(id));
        }
        self.watches = slots;
        proof {
            use_type_invariant(&*self);
        }
        id
    }

    /// Records a new suspend registration, signalled through `event`, with
    /// what registering it with the active device returned (`None` when there
    /// was no active device). It gets the next identity and goes last.
    pub fn add_suspend(&mut self, event: E, binding: Option<S>) -> (id: u64)
        requires
            old(self).next_id() < u64::MAX,
        ensures
            id == old(self).next_id(),
            id_absent(old(self).suspend_seq(), id),
            final(self).suspend_seq() == old(self).suspend_seq().push(
                (Slot { id, subject: (), event, binding }),
            ),
            final(self).watch_seq() == old(self).watch_seq(),
            final(self).active_device() == old(self).active_device(),
            final(self).next_id() == id + 1,
            final(self).ids_valid(),
    {
        proof {
            use_type_invariant(&*self);
        }
        let id = self.next_id;
        proof {
            assert forall|i: int| 0 <= i < self.suspends@.len() implies self.suspends@[i].id != id by {
                assert(slot_ids(self.suspends@)[i] == self.suspends@[i].id);
            }
        }
        self.next_id = id + 1;
        let mut slots = Vec::new();
        std::mem::swap(&mut slots, &mut self.suspends);
        let ghost before = slots@;
        slots.push(Slot { id, subject: (), event, binding });
        proof {
            assert(slot_ids(slots@) =~= slot_ids(before).push(id));
        }
        self.suspends = slots;
        proof {
            use_type_invariant(&*self);
        }
        id
    }

    /// Takes out the watch with identity `id`; the others keep their order.
    pub fn remove_watch(&mut self, id: u64) -> (r: Option<Slot<String, E, W>>)
        ensures
            match r {
                Some(slot) => exists|k: int|
                    0 <= k < old(self).watch_seq().len() && old(self).watch_seq()[k] == slot
                        && slot.id == id && final(self).watch_seq() == old(
                        self,
                    ).watch_seq().remove(k),
                None => id_absent(old(self).watch_seq(), id) && final(self).watch_seq() == old(
                    self,
                ).watch_seq(),
            },
            final(self).suspend_seq() == old(self).suspend_seq(),
            final(self).active_device() == old(self).active_device(),
            final(self).next_id() == old(self).next_id(),
            final(self).ids_valid(),
    {
        proof {
            use_type_invariant(&*self);
        }
        let mut slots = Vec::new();
        std::mem::swap(&mut slots, &mut self.watches);
        let ghost before = slots@;
        let r = take_slot(&mut slots, id);
        proof {
            if r is Some {
                let slot = r->0;
                let k = choose|k: int|
                    0 <= k < before.len() && before[k] == slot && slot.id == id && slots@
                        == before.remove(k);
                assert(slot_ids(slots@) =~= slot_ids(before).remove(k));
                lemma_ids_below_remove(slot_ids(before), self.next_id, k);
            }
        }
        self.watches = slots;
        proof {
            use_type_invariant(&*self);
            if r is Some {
                let slot = r->0;
                let k = choose|k: int|
                    0 <= k < before.len() && before[k] == slot && slot.id == id && self.watches@
                        == before.remove(k);
                assert(old(self).watch_seq()[k] == slot);
            }
        }
        r
    }

    /// Takes out the suspend registration with identity `id`; the others keep
    /// their order.
    pub fn remove_suspend(&mut self, id: u64) -> (r: Option<Slot<(), E, S>>)
        ensures
            match r {
                Some(slot) => exists|k: int|
                    0 <= k < old(self).suspend_seq().len() && old(self).suspend_seq()[k] == slot
                        && slot.id == id && final(self).suspend_seq() == old(
                        self,
                    ).suspend_seq().remove(k),
                None => id_absent(old(self).suspend_seq(), id) && final(self).suspend_seq() == old(
                    self,
                ).suspend_seq(),
            },
            final(self).watch_seq() == old(self).watch_seq(),
            final(self).active_device() == old(self).active_device(),
            final(self).next_id() == old(self).next_id(),
            final(self).ids_valid(),
    {
        proof {
            use_type_invariant(&*self);
        }
        let mut slots = Vec::new();
        std::mem::swap(&mut slots, &mut self.suspends);
        let ghost before = slots@;
        let r = take_slot(&mut slots, id);
        proof {
            if r is Some {
                let slot = r->0;
                let k = choose|k: int|
                    0 <= k < before.len() && before[k] == slot && slot.id == id && slots@
                        == before.remove(k);
                assert(slot_ids(slots@) =~= slot_ids(before).remove(k));
                lemma_ids_below_remove(slot_ids(before), self.next_id, k);
            }
        }
        self.suspends = slots;
        proof {
            use_type_invariant(&*self);
            if r is Some {
                let slot = r->0;
                let k = choose|k: int|
                    0 <= k < before.len() && before[k] == slot && slot.id == id && self.suspends@
                        == before.remove(k);
                assert(old(self).suspend_seq()[k] == slot);
            }
        }
        r
    }

    /// Decides how a refresh goes on, given how many device interfaces are
    /// present and whether the active device (if there is one) still answers.
    pub fn refresh_plan(&self, interface_count: usize, active_alive: bool) -> (p: RefreshPlan)
        ensures
            interface_count == 0 ==> p == RefreshPlan::NoInterface,
            interface_count > 0 && self.active_device() is Some && active_alive ==> p
                == RefreshPlan::KeepActive,
            interface_count > 0 && !(self.active_device() is Some && active_alive) ==> p
                == RefreshPlan::Replace,
    {
        if interface_count == 0 {
            RefreshPlan::NoInterface
        } else if self.active.is_some() && active_alive {
            RefreshPlan::KeepActive
        } else {
            RefreshPlan::Replace
        }
    }

    /// Takes the active device out: there is no active device afterwards.
    pub fn retire_active(&mut self) -> (d: Option<D>)
        ensures
            match old(self).active_device() {
                Some((_, dev)) => d == Some(dev),
                None => d is None,
            },
            final(self).active_device() is None,
            final(self).watch_seq() == old(self).watch_seq(),
            final(self).suspend_seq() == old(self).suspend_seq(),
            final(self).next_id() == old(self).next_id(),
            final(self).ids_valid(),
    {
        proof {
            use_type_invariant(&*self);
        }
        let mut taken: Option<(u64, D)> = None;
        std::mem::swap(&mut taken, &mut self.active);
        proof {
            use_type_invariant(&*self);
        }
        match taken {
            Some((_, dev)) => Some(dev),
            None => None,
        }
    }

    /// Makes `device`, of identity `id`, the active device, and gives each
    /// watch and each suspend registration, in order, what registering it
    /// again with that device returned (`None` where that failed).
    pub fn install_active(
        &mut self,
        id: u64,
        device: D,
        watch_bindings: Vec<Option<W>>,
        suspend_bindings: Vec<Option<S>>,
    )
        requires
            watch_bindings@.len() == old(self).watch_seq().len(),
            suspend_bindings@.len() == old(self).suspend_seq().len(),
        ensures
            final(self).active_device() == Some((id, device)),
            rebound(old(self).watch_seq(), final(self).watch_seq(), watch_bindings@),
            rebound(old(self).suspend_seq(), final(self).suspend_seq(), suspend_bindings@),
            final(self).next_id() == old(self).next_id(),
            final(self).ids_valid(),
    {
        proof {
            use_type_invariant(&*self);
        }
        let mut watches = Vec::new();
        std::mem::swap(&mut watches, &mut self.watches);
        let ghost old_watches = watches@;
        let watches = rebind(watches, watch_bindings);
        proof {
            assert(slot_ids(watches@) =~= slot_ids(old_watches));
        }
        self.watches = watches;
        let mut suspends = Vec::new();
        std::mem::swap(&mut suspends, &mut self.suspends);
        let ghost old_suspends = suspends@;
        let suspends = rebind(suspends, suspend_bindings);
        proof {
            assert(slot_ids(suspends@) =~= slot_ids(old_suspends));
        }
        self.suspends = suspends;
        self.active = Some((id, device));
        proof {
            use_type_invariant(&*self);
        }
    }

    /// Handles a request to the worker. An interface arrival asks for a
    /// refresh. A device that reports it is being removed, or is gone, is put
    /// aside, and stops being the active device when it was that one. Every
    /// other request is dropped. Only the detaching of the active device
    /// changes the registry.
    pub fn handle_request<T>(&mut self, request: XenifaceRequest<T>) -> (step: WorkerStep<T, D>)
        ensures
            final(self).watch_seq() == old(self).watch_seq(),
            final(self).suspend_seq() == old(self).suspend_seq(),
            final(self).next_id() == old(self).next_id(),
            final(self).ids_valid(),
            request matches XenifaceRequest::Listener { action, .. } ==> (action
                == CmAction::RemovePending || action == CmAction::RemoveComplete) == step is Bury,
            request matches XenifaceRequest::Listener { action, .. } && action
                != CmAction::RemovePending && action != CmAction::RemoveComplete ==> step is Idle
                && final(self).active_device() == old(self).active_device(),
            request matches XenifaceRequest::Worker(action) ==> (action
                == CmAction::InterfaceArrival) == step is Refresh,
            match request {
                XenifaceRequest::Worker(action) => {
                    &&& (action is InterfaceArrival ==> step is Refresh)
                    &&& (!(action is InterfaceArrival) ==> step is Idle)
                    &&& final(self).active_device() == old(self).active_device()
                },
                XenifaceRequest::Listener { action, target_id, target } => {
                    if action.is_device_removal() {
                        match old(self).active_device() {
                            Some((i, dev)) => if i == target_id {
                                &&& step == (WorkerStep::Bury { target, detached: Some(dev) })
                                &&& final(self).active_device() is None
                            } else {
                                &&& step == (WorkerStep::<T, D>::Bury { target, detached: None })
                                &&& final(self).active_device() == old(self).active_device()
                            },
                            None => {
                                &&& step == (WorkerStep::<T, D>::Bury { target, detached: None })
                                &&& final(self).active_device() is None
                            },
                        }
                    } else {
                        &&& step is Idle
                        &&& final(self).active_device() == old(self).active_device()
                    }
                },
            },
    {
        proof {
            use_type_invariant(&*self);
        }
        match request {
            XenifaceRequest::Worker(action) => {
                match action {
                    CmAction::InterfaceArrival => WorkerStep::Refresh,
                    _ => WorkerStep::Idle,
                }
            },
            XenifaceRequest::Listener { action, target_id, target } => {
                match action {
                    CmAction::RemovePending | CmAction::RemoveComplete => {
                        let is_active = match &self.active {
                            Some((i, _)) => *i == target_id,
                            None => false,
                        };
                        if is_active {
                            let detached = self.retire_active();
                            WorkerStep::Bury { target, detached }
                        } else {
                            WorkerStep::Bury { target, detached: None }
                        }
                    },
                    _ => WorkerStep::Idle,
                }
            },
        }
    }
}

} // verus!
