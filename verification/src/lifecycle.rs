//! Process lifecycle state owned by the listener: the shutdown flag every
//! session observes, and the monotonic connection-id source. The embedding
//! wraps these in whatever synchronization its scheduler needs (an atomic
//! counter, a broadcast notifier); the logic of both lives here.

use vstd::prelude::*;

verus! {

/// The process-wide shutdown signal: fired at most once in effect — firing
/// is idempotent — and once fired it stays fired, so a session that starts
/// waiting after the fact observes it immediately.
pub struct ShutdownSignal {
    fired: bool,
}

impl ShutdownSignal {
    /// Whether the signal has fired.
    pub closed spec fn is_fired(&self) -> bool {
        self.fired
    }

    /// A fresh, unfired signal, created once at process start.
    pub fn new() -> (s: ShutdownSignal)
        ensures
            !s.is_fired(),
    {
        ShutdownSignal { fired: false }
    }

    /// Fires the signal. Firing an already-fired signal changes nothing.
    pub fn fire(&mut self)
        ensures
            final(self).is_fired(),
    {
        self.fired = true;
    }

    /// Observes the signal: the listener stops accepting and every session
    /// closes once this is true.
    pub fn observed(&self) -> (b: bool)
        ensures
            b == self.is_fired(),
    {
        self.fired
    }
}

/// The listener's connection-id source: ids are handed out strictly
/// increasing from 1, so no id is reused within the process lifetime.
pub struct ConnIdAllocator {
    next_id: u32,
}

impl ConnIdAllocator {
    /// The id the next accepted connection will get; every id already handed
    /// out is smaller.
    pub closed spec fn next(&self) -> u32 {
        self.next_id
    }

    /// A fresh allocator; the first connection gets id 1.
    pub fn new() -> (a: ConnIdAllocator)
        ensures
            a.next() == 1,
    {
        ConnIdAllocator { next_id: 1 }
    }

    /// Whether another id can still be handed out: the guard for
    /// [`Self::fresh_id`], tested by the embedding before each accept.
    pub fn can_allocate(&self) -> (b: bool)
        ensures
            b == (self.next() < u32::MAX),
    {
        self.next_id < u32::MAX
    }

    /// Hands out the next id. Each call returns a larger id than every
    /// earlier call, so ids never collide across concurrent accepts.
    pub fn fresh_id(&mut self) -> (id: u32)
        requires
            old(self).next() < u32::MAX,
        ensures
            id == old(self).next(),
            final(self).next() == id + 1,
    {
        let id = self.next_id;
        self.next_id = self.next_id + 1;
        id
    }
}

} // verus!
