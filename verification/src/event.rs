//! QoS events as wait sources. An event is ready while its queue holds
//! anything; a ready wait cycle does not consume it (the reader drains it).

use vstd::prelude::*;

use crate::wait::WaitSetTrait;

verus! {

/// One event kind attached to an endpoint, with its pending occurrences.
pub struct Event {
    pub event_type: u32,
    pub event_queue: Vec<()>,
}

impl Event {
    /// A fresh event source with an empty queue.
    pub fn new(event_type: u32) -> (e: Event)
        ensures
            e.event_type == event_type,
            e.event_queue@.len() == 0,
    {
        Event { event_type, event_queue: Vec::new() }
    }
}

impl WaitSetTrait for Event {
    open spec fn spec_is_empty(&self) -> bool {
        self.event_queue@.len() == 0
    }

    open spec fn spec_consumed(&self) -> Event {
        Event { event_type: self.event_type, event_queue: self.event_queue }
    }

    fn is_empty(&self) -> (r: bool) {
        self.event_queue.is_empty()
    }

    fn cleanup(&mut self) {
    }
}

} // verus!
