//! The flash registry: the slot table through which the loader under test
//! reaches each simulated device during one invocation.
//!
//! The registry is owned by the caller and passed into the invocation by
//! reference.  A binding exists only between invocation start and end; the
//! invocation releases every binding it made on every exit path, interrupted
//! or not, so a later, unrelated invocation never sees a stale slot.

use crate::flash::SimFlash;
use vstd::prelude::*;

verus! {

/// Number of slots: one per possible device identifier.
pub const REGISTRY_SLOTS: usize = 256;

/// Device-id-indexed slot table; a `Some` slot is a live binding.
pub struct FlashRegistry {
    slots: Vec<Option<SimFlash>>,
}

impl View for FlashRegistry {
    type V = Seq<Option<Seq<u8>>>;

    closed spec fn view(&self) -> Seq<Option<Seq<u8>>> {
        Seq::new(
            self.slots@.len(),
            |i: int|
                match self.slots@[i] {
                    Some(f) => Some(f@),
                    None => None,
                },
        )
    }
}

impl FlashRegistry {
    /// One slot per device identifier.
    pub open spec fn wf(&self) -> bool {
        self@.len() == REGISTRY_SLOTS
    }

    /// A fresh registry with no bindings.
    pub fn new() -> (r: FlashRegistry)
        ensures
            r.wf(),
            forall|i: int| 0 <= i < REGISTRY_SLOTS ==> r@[i] is None,
    {
        let mut slots: Vec<Option<SimFlash>> = Vec::new();
        while slots.len() < REGISTRY_SLOTS
            invariant
                slots@.len() <= REGISTRY_SLOTS,
                forall|i: int| 0 <= i < slots@.len() ==> slots@[i] is None,
            decreases REGISTRY_SLOTS - slots@.len(),
        {
            slots.push(None);
        }
        FlashRegistry { slots }
    }

    /// Is a device bound under `dev_id`?
    pub fn is_bound(&self, dev_id: u8) -> (r: bool)
        requires
            self.wf(),
        ensures
            r == (self@[dev_id as int] is Some),
    {
        self.slots[dev_id as usize].is_some()
    }

    /// Expose `flash` to the loader under `dev_id`.  The slot must be free: a
    /// stale binding would leak another invocation's device.
    pub fn bind(&mut self, dev_id: u8, flash: SimFlash)
        requires
            old(self).wf(),
            old(self)@[dev_id as int] is None,
        ensures
            final(self).wf(),
            final(self)@ == old(self)@.update(dev_id as int, Some(flash@)),
    {
        let _freed = self.slots.remove(dev_id as usize);
        self.slots.insert(dev_id as usize, Some(flash));
        proof {
            assert(self@ =~= old(self)@.update(dev_id as int, Some(flash@)));
        }
    }

    /// Release the binding under `dev_id` and hand the device back.
    pub fn unbind(&mut self, dev_id: u8) -> (f: SimFlash)
        requires
            old(self).wf(),
            old(self)@[dev_id as int] is Some,
        ensures
            final(self).wf(),
            Some(f@) == old(self)@[dev_id as int],
            final(self)@ == old(self)@.update(dev_id as int, None),
    {
        let taken = self.slots.remove(dev_id as usize);
        self.slots.insert(dev_id as usize, None);
        proof {
            assert(self@ =~= old(self)@.update(dev_id as int, None));
        }
        taken.unwrap()
    }
}

} // verus!
