//! A registry of cancellable units of work. Each unit is tracked under a
//! handle together with `E`, the means of signalling its cancellation; the
//! caller runs the units and fires the signal that `cancel` hands back.
use vstd::prelude::*;
use std::collections::HashMap;
use crate::ids::fresh_key;

verus! {

broadcast use vstd::std_specs::hash::group_hash_axioms;

pub struct TaskManager<E> {
    tasks: HashMap<u128, E>,
    issued: HashMap<u128, ()>,
}

impl<E> TaskManager<E> {
    /// The units tracked, by handle.
    pub closed spec fn handles(&self) -> Map<u128, E> {
        self.tasks@
    }

    /// Every handle this registry has handed out.
    pub closed spec fn issued(&self) -> Set<u128> {
        self.issued@.dom()
    }

    /// Every tracked handle has been handed out.
    pub closed spec fn wf(&self) -> bool {
        forall|h: u128| #[trigger] self.tasks@.contains_key(h) ==> self.issued@.contains_key(h)
    }

    /// A registry tracking nothing.
    pub fn new() -> (r: TaskManager<E>)
        ensures
            r.wf(),
            r.handles() == Map::<u128, E>::empty(),
            r.issued() == Set::<u128>::empty(),
    {
        TaskManager { tasks: HashMap::new(), issued: HashMap::new() }
    }

    /// The number of units tracked.
    pub fn len(&self) -> (r: usize)
        ensures
            r == self.handles().len(),
    {
        self.tasks.len()
    }

    /// Whether a unit is tracked under `id`.
    pub fn is_tracked(&self, id: &u128) -> (r: bool)
        ensures
            r == self.handles().contains_key(*id),
    {
        self.tasks.contains_key(id)
    }

    /// Tracks a new unit under a handle never handed out before and
    /// returns the handle.
    pub fn spawn(&mut self, entry: E) -> (r: u128)
        requires
            old(self).wf(),
        ensures
            final(self).wf(),
            !old(self).issued().contains(r),
            !old(self).handles().contains_key(r),
            final(self).issued() == old(self).issued().insert(r),
            final(self).handles() == old(self).handles().insert(r, entry),
    {
        let h = fresh_key(&self.issued, None);
        self.tasks.insert(h, entry);
        self.issued.insert(h, ());
        proof {
            assert(self.issued@.dom() == old(self).issued@.dom().insert(h));
        }
        h
    }

    /// Stops tracking the unit under `id` and hands back its cancellation
    /// signal, or `None` where no unit is tracked under `id`.
    pub fn cancel(&mut self, id: &u128) -> (r: Option<E>)
        requires
            old(self).wf(),
        ensures
            final(self).wf(),
            final(self).issued() == old(self).issued(),
            final(self).handles() == old(self).handles().remove(*id),
            match r {
                Some(e) => old(self).handles().contains_key(*id) && old(self).handles()[*id] == e,
                None => !old(self).handles().contains_key(*id),
            },
    {
        self.tasks.remove(id)
    }

    /// Cancels the unit under `id`, then tracks `entry` under a handle never
    /// handed out before, which differs from `id`. Returns that handle and
    /// the cancelled unit's signal.
    pub fn restart(&mut self, id: &u128, entry: E) -> (r: (u128, Option<E>))
        requires
            old(self).wf(),
        ensures
            final(self).wf(),
            r.0 != *id,
            !old(self).issued().contains(r.0),
            final(self).issued() == old(self).issued().insert(r.0),
            !old(self).handles().contains_key(r.0),
            final(self).handles() == old(self).handles().remove(*id).insert(r.0, entry),
            match r.1 {
                Some(e) => old(self).handles().contains_key(*id) && old(self).handles()[*id] == e,
                None => !old(self).handles().contains_key(*id),
            },
    {
        let cancelled = self.tasks.remove(id);
        let h = fresh_key(&self.issued, Some(*id));
        self.tasks.insert(h, entry);
        self.issued.insert(h, ());
        proof {
            assert(self.issued@.dom() == old(self).issued@.dom().insert(h));
        }
        (h, cancelled)
    }
}

} // verus!
