use vstd::prelude::*;

verus! {

/// An opaque handle naming one entity within its store.
pub type Id = u64;

/// A computation epoch. Revisions are only compared, never combined.
pub type Revision = u64;

/// Issues identities that have not been issued before by the same allocator.
pub struct IdAllocator {
    next: u64,
}

impl IdAllocator {
    /// The identity that the next call of `allocate` hands out.
    pub closed spec fn next_id(&self) -> nat {
        self.next as nat
    }

    pub fn new() -> (r: IdAllocator)
        ensures
            r.next_id() == 0,
    {
        IdAllocator { next: 0 }
    }

    /// Hands out a fresh identity: every identity handed out before is smaller.
    pub fn allocate(&mut self) -> (r: Id)
        requires
            old(self).next_id() < u64::MAX,
        ensures
            r == old(self).next_id(),
            final(self).next_id() == old(self).next_id() + 1,
    {
        let r = self.next;
        self.next = self.next + 1;
        r
    }
}

} // verus!
