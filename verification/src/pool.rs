use vstd::prelude::*;

verus! {

/// A generational identifier for a slot in a [`Pool`]: an (index, generation)
/// pair. Two handles are equal exactly when both fields match. The null
/// sentinel has index 0 and generation 0; live slots always carry a
/// generation of at least 1, so the sentinel never resolves.
#[derive(Clone, Copy, PartialEq, Eq, Hash, Debug, Structural)]
pub struct Handle {
    pub index: u32,
    pub generation: u32,
}

impl Handle {
    /// The "no reference" sentinel.
    pub fn none() -> (h: Handle)
        ensures
            h == Handle::spec_none(),
    {
        Handle { index: 0, generation: 0 }
    }

    pub open spec fn spec_none() -> Handle {
        Handle { index: 0, generation: 0 }
    }

    pub fn is_none(&self) -> (r: bool)
        ensures
            r == (*self == Handle::spec_none()),
    {
        self.index == 0 && self.generation == 0
    }
}

/// Why a handle failed to resolve.
#[derive(Clone, Copy, PartialEq, Eq, Debug, Structural)]
pub enum PoolError {
    /// The handle's index lies outside the pool.
    OutOfBounds,
    /// The slot exists but the handle's generation does not match, or the
    /// slot is currently vacant: the handle is stale.
    StaleHandle,
}

#[derive(Debug)]
struct Slot<T> {
    generation: u32,
    payload: Option<T>,
}

/// A generational arena. Every inserted value gets a stable handle; freeing a
/// slot and later reusing its index bumps the generation, so a handle into a
/// freed slot can never resolve to the new occupant.
///
/// The view of a pool is the sequence of its slots, each as a
/// (generation, occupant) pair.
#[derive(Debug)]
pub struct Pool<T> {
    slots: Vec<Slot<T>>,
    free: Vec<u32>,
}

impl<T> View for Pool<T> {
    type V = Seq<(u32, Option<T>)>;

    closed spec fn view(&self) -> Seq<(u32, Option<T>)> {
        self.slots@.map_values(|s: Slot<T>| (s.generation, s.payload))
    }
}

impl<T> Pool<T> {
    /// Internal well-formedness: the free list points at vacant slots, once
    /// each, and every slot's generation is at least 1. Constructors
    /// establish it and every mutating method preserves it.
    pub closed spec fn wf(self) -> bool {
        &&& forall|k: int|
            0 <= k < self.free@.len() ==> {
                &&& (#[trigger] self.free@[k]) < self.slots@.len()
                &&& self.slots@[self.free@[k] as int].payload is None
                &&& self.slots@[self.free@[k] as int].generation < u32::MAX
            }
        &&& forall|k1: int, k2: int|
            0 <= k1 < k2 < self.free@.len() ==> self.free@[k1] != self.free@[k2]
        &&& forall|i: int|
            0 <= i < self.slots@.len() ==> (#[trigger] self.slots@[i]).generation >= 1
    }

    /// A handle resolves exactly when it points inside the pool, at an
    /// occupied slot, with the matching generation.
    pub open spec fn spec_valid(self, h: Handle) -> bool {
        &&& 0 <= (h.index as int) < self@.len()
        &&& self@[h.index as int].0 == h.generation
        &&& self@[h.index as int].1 is Some
    }

    /// The value stored at the slot a handle points to.
    pub open spec fn spec_at(self, h: Handle) -> T
        recommends
            self.spec_valid(h),
    {
        self@[h.index as int].1->Some_0
    }

    pub fn new() -> (p: Pool<T>)
        ensures
            p@ == Seq::<(u32, Option<T>)>::empty(),
            p.wf(),
    {
        let p = Pool { slots: Vec::new(), free: Vec::new() };
        proof {
            assert(p@ =~= Seq::<(u32, Option<T>)>::empty());
        }
        p
    }

    pub fn len(&self) -> (n: usize)
        ensures
            n == self@.len(),
    {
        self.slots.len()
    }

    pub fn is_valid(&self, handle: Handle) -> (r: bool)
        ensures
            r == self.spec_valid(handle),
    {
        let i = handle.index as usize;
        i < self.slots.len() && self.slots[i].generation == handle.generation
            && self.slots[i].payload.is_some()
    }

    /// Insert a value, reusing a freed slot's index with an incremented
    /// generation when one is available, else appending a fresh slot.
    pub fn spawn(&mut self, value: T) -> (h: Handle)
        requires
            old(self).wf(),
            old(self)@.len() < u32::MAX,
        ensures
            final(self).wf(),
            final(self).spec_valid(h),
            final(self)@[h.index as int] == (h.generation, Some(value)),
            h.generation >= 1,
            final(self)@.len() >= old(self)@.len(),
            forall|i: int|
                0 <= i < old(self)@.len() && i != h.index as int ==> final(self)@[i] == old(
                    self,
                )@[i],
            (h.index as int == old(self)@.len() && final(self)@.len() == old(self)@.len() + 1
                && h.generation == 1) || ((h.index as int) < old(self)@.len() && final(self)@.len()
                == old(self)@.len() && old(self)@[h.index as int].1 is None && h.generation == old(
                self,
            )@[h.index as int].0 + 1),
    {
        let ghost old_slots = self.slots@;
        match self.free.pop() {
            Some(idx) => {
                let i = idx as usize;
                let g = self.slots[i].generation + 1;
                self.slots[i] = Slot { generation: g, payload: Some(value) };
                proof {
                    assert(self@ =~= old_slots.map_values(
                        |s: Slot<T>| (s.generation, s.payload),
                    ).update(i as int, (g, Some(value))));
                }
                Handle { index: idx, generation: g }
            },
            None => {
                let idx = self.slots.len();
                self.slots.push(Slot { generation: 1, payload: Some(value) });
                proof {
                    assert(self@ =~= old_slots.map_values(
                        |s: Slot<T>| (s.generation, s.payload),
                    ).push((1u32, Some(value))));
                }
                Handle { index: idx as u32, generation: 1 }
            },
        }
    }

    /// Resolve a handle to a shared borrow of the stored value, or say why it
    /// does not resolve.
    pub fn borrow(&self, handle: Handle) -> (r: Result<&T, PoolError>)
        ensures
            match r {
                Ok(v) => self.spec_valid(handle) && self@[handle.index as int].1 == Some(*v),
                Err(PoolError::OutOfBounds) => (handle.index as int) >= self@.len(),
                Err(PoolError::StaleHandle) => (handle.index as int) < self@.len()
                    && !self.spec_valid(handle),
            },
    {
        let i = handle.index as usize;
        if i >= self.slots.len() {
            return Err(PoolError::OutOfBounds);
        }
        if self.slots[i].generation != handle.generation {
            return Err(PoolError::StaleHandle);
        }
        match &self.slots[i].payload {
            Some(v) => Ok(v),
            None => Err(PoolError::StaleHandle),
        }
    }

    /// Resolve a handle known to be live to an exclusive borrow.
    pub fn borrow_mut(&mut self, handle: Handle) -> (r: &mut T)
        requires
            old(self).wf(),
            old(self).spec_valid(handle),
        ensures
            final(self).wf(),
            *r == old(self)@[handle.index as int].1->Some_0,
            final(self)@ == old(self)@.update(
                handle.index as int,
                (handle.generation, Some(*final(r))),
            ),
    {
        let ghost old_slots = self.slots@;
        let i = handle.index as usize;
        let slot = &mut self.slots[i];
        proof {
            assert(old_slots.map_values(|s: Slot<T>| (s.generation, s.payload)).update(
                i as int,
                (handle.generation, Some(old_slots[i as int].payload->Some_0)),
            ) =~= old_slots.map_values(|s: Slot<T>| (s.generation, s.payload)));
        }
        match slot.payload.as_mut() {
            Some(v) => v,
            None => unreached(),
        }
    }

    /// Remove the value a handle points to, leaving the slot vacant for
    /// reuse under a higher generation.
    pub fn free(&mut self, handle: Handle) -> (r: Result<T, PoolError>)
        requires
            old(self).wf(),
        ensures
            final(self).wf(),
            match r {
                Ok(v) => old(self).spec_valid(handle) && old(self)@[handle.index as int].1 == Some(
                    v,
                ) && final(self)@ == old(self)@.update(
                    handle.index as int,
                    (handle.generation, None),
                ),
                Err(PoolError::OutOfBounds) => (handle.index as int) >= old(self)@.len()
                    && final(self)@ == old(self)@,
                Err(PoolError::StaleHandle) => (handle.index as int) < old(self)@.len()
                    && !old(self).spec_valid(handle) && final(self)@ == old(self)@,
            },
    {
        let ghost old_slots = self.slots@;
        let i = handle.index as usize;
        if i >= self.slots.len() {
            return Err(PoolError::OutOfBounds);
        }
        if self.slots[i].generation != handle.generation {
            return Err(PoolError::StaleHandle);
        }
        let taken = self.slots[i].payload.take();
        match taken {
            Some(v) => {
                proof {
                    assert(self@ =~= old_slots.map_values(
                        |s: Slot<T>| (s.generation, s.payload),
                    ).update(i as int, (handle.generation, None)));
                    assert forall|k: int| 0 <= k < self.free@.len() implies self.free@[k] != i
                        as u32 by {
                        assert(old_slots[self.free@[k] as int].payload is None);
                    }
                }
                if self.slots[i].generation < u32::MAX {
                    self.free.push(i as u32);
                }
                Ok(v)
            },
            None => {
                proof {
                    assert(self@ =~= old_slots.map_values(|s: Slot<T>| (s.generation, s.payload)));
                }
                Err(PoolError::StaleHandle)
            },
        }
    }
}

/// The stale-handle law: once a freed slot's index is reused under an
/// incremented generation, a handle minted for the old occupant can never
/// resolve again — [`Pool::borrow`]'s contract then forces the
/// `StaleHandle` failure, never a silent read of the new occupant.
///
/// `p1` is a pool in which `h`'s slot has been freed (the slot keeps `h`'s
/// generation and stands vacant); `p2` is a pool in which that index was
/// reused for a new value under `h2`.
pub proof fn lemma_stale_handle_never_resolves<T>(p1: Pool<T>, p2: Pool<T>, h: Handle, h2: Handle)
    requires
        0 <= (h.index as int) < p1@.len(),
        p1@[h.index as int] == (h.generation, None::<T>),
        h2.index == h.index,
        (h2.index as int) < p2@.len(),
        p2@[h2.index as int].0 == h2.generation,
        p2@[h2.index as int].1 is Some,
        h2.generation == h.generation + 1,
    ensures
        h2 != h,
        !p1.spec_valid(h),
        !p2.spec_valid(h),
        p2.spec_valid(h2),
{
}

/// The sentinel law: in a well-formed pool every live slot carries a
/// generation of at least 1, so [`Handle::none`] can never resolve.
pub proof fn lemma_none_never_resolves<T>(p: Pool<T>)
    requires
        p.wf(),
    ensures
        !p.spec_valid(Handle::spec_none()),
{
    let h = Handle::spec_none();
    if (h.index as int) < p@.len() {
        assert(p@[0].0 == p.slots@[0].generation);
        assert(p.slots@[0].generation >= 1);
    }
}

} // verus!
