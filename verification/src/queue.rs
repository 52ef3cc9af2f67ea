//! The bounded event queue that feeds the background worker.
//!
//! Producers hand in events without blocking: when the queue is full the
//! event is dropped, which at worst loses one usage count or delays one
//! sweep. The single consumer takes events in arrival order, so within a
//! process the handlers run first-in, first-out.

use vstd::prelude::*;

verus! {

/// One maintenance event, carrying the artifact path it concerns.
pub enum CacheEvent {
    OnCacheGet(Vec<u8>),
    OnCacheUpdate(Vec<u8>),
}

/// A bounded first-in, first-out queue of cache events.
pub struct CacheWorkerQueue {
    events: Vec<CacheEvent>,
    capacity: usize,
}

impl CacheWorkerQueue {
    /// The queued events, oldest first.
    pub closed spec fn events(self) -> Seq<CacheEvent> {
        self.events@
    }

    /// The configured bound on the queue's length.
    pub closed spec fn capacity(self) -> nat {
        self.capacity as nat
    }

    /// The queue never holds more than its capacity.
    pub open spec fn well_formed(self) -> bool {
        self.events().len() <= self.capacity()
    }

    /// An empty queue bounded at `capacity` events.
    pub fn new(capacity: usize) -> (r: CacheWorkerQueue)
        ensures
            r.events() == Seq::<CacheEvent>::empty(),
            r.capacity() == capacity,
            r.well_formed(),
    {
        CacheWorkerQueue { events: Vec::new(), capacity }
    }

    /// Enqueue without blocking: append the event when there is room,
    /// drop it (yielding false) when the queue is full.
    pub fn send_cache_event(&mut self, event: CacheEvent) -> (r: bool)
        ensures
            r == (old(self).events().len() < old(self).capacity()),
            r ==> final(self).events() == old(self).events().push(event),
            !r ==> final(self).events() == old(self).events(),
            final(self).capacity() == old(self).capacity(),
            old(self).well_formed() ==> final(self).well_formed(),
    {
        if self.events.len() < self.capacity {
            self.events.push(event);
            true
        } else {
            false
        }
    }

    /// A read was served from the artifact at `path`: queue the usage
    /// bump and possible recompression, dropping the event when full.
    pub fn on_cache_get_async(&mut self, path: Vec<u8>) -> (r: bool)
        ensures
            r == (old(self).events().len() < old(self).capacity()),
            r ==> final(self).events() == old(self).events().push(CacheEvent::OnCacheGet(path)),
            !r ==> final(self).events() == old(self).events(),
            final(self).capacity() == old(self).capacity(),
            old(self).well_formed() ==> final(self).well_formed(),
    {
        self.send_cache_event(CacheEvent::OnCacheGet(path))
    }

    /// The artifact at `path` was written or rewritten: queue the stats
    /// creation and possible sweep, dropping the event when full.
    pub fn on_cache_update_async(&mut self, path: Vec<u8>) -> (r: bool)
        ensures
            r == (old(self).events().len() < old(self).capacity()),
            r ==> final(self).events() == old(self).events().push(CacheEvent::OnCacheUpdate(path)),
            !r ==> final(self).events() == old(self).events(),
            final(self).capacity() == old(self).capacity(),
            old(self).well_formed() ==> final(self).well_formed(),
    {
        self.send_cache_event(CacheEvent::OnCacheUpdate(path))
    }

    /// Take the oldest queued event, if any: consumption is first-in,
    /// first-out.
    pub fn pop_event(&mut self) -> (r: Option<CacheEvent>)
        ensures
            old(self).events().len() == 0 ==> r is None && final(self).events()
                == old(self).events(),
            old(self).events().len() > 0 ==> r == Some(old(self).events().first())
                && final(self).events() == old(self).events().drop_first(),
            final(self).capacity() == old(self).capacity(),
            old(self).well_formed() ==> final(self).well_formed(),
    {
        if self.events.len() == 0 {
            None
        } else {
            let e = self.events.remove(0);
            proof {
                assert(self.events@ =~= old(self).events().drop_first());
            }
            Some(e)
        }
    }
}

} // verus!
