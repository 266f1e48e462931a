//! The edge event log: a bounded, append-only record of a capture.

use vstd::prelude::*;
use crate::event::EdgeEvent;

verus! {

/// The capacity of a log made by [`EdgeLog::new`].
pub const DEFAULT_CAPACITY: usize = 256;

/// The log was full: the event was not recorded.
#[derive(Clone, Copy, Debug, PartialEq, Eq, Structural)]
pub struct Overflow {
    /// The capacity that the log was made with.
    pub capacity: usize,
}

/// A log as a mathematical value.
pub struct Record {
    /// The recorded events, oldest first.
    pub events: Seq<EdgeEvent>,
    /// The number of events that the log has room for.
    pub capacity: nat,
    /// The number of events turned away because the log was full.
    pub dropped: nat,
}

impl Record {
    /// A log without events.
    pub open spec fn empty(capacity: nat) -> Record {
        Record { events: Seq::empty(), capacity, dropped: 0 }
    }

    /// No further event fits.
    pub open spec fn full(self) -> bool {
        self.events.len() >= self.capacity
    }

    /// The log after an attempt to record `event`.
    pub open spec fn append(self, event: EdgeEvent) -> Record {
        if self.full() {
            Record {
                events: self.events,
                capacity: self.capacity,
                dropped: if self.dropped < usize::MAX {
                    self.dropped + 1
                } else {
                    self.dropped
                },
            }
        } else {
            Record {
                events: self.events.push(event),
                capacity: self.capacity,
                dropped: self.dropped,
            }
        }
    }

    /// The log after an attempt to record each of `events` in turn.
    pub open spec fn fill(self, events: Seq<EdgeEvent>) -> Record
        decreases events.len(),
    {
        if events.len() == 0 {
            self
        } else {
            self.fill(events.drop_last()).append(events.last())
        }
    }
}

/// A bounded, append-only sequence of edge events.
#[derive(Debug)]
pub struct EdgeLog {
    events: Vec<EdgeEvent>,
    capacity: usize,
    dropped: usize,
}

impl View for EdgeLog {
    type V = Record;

    closed spec fn view(&self) -> Record {
        Record {
            events: self.events@,
            capacity: self.capacity as nat,
            dropped: self.dropped as nat,
        }
    }
}

impl EdgeLog {
    #[verifier::type_invariant]
    spec fn well_formed(self) -> bool {
        self.events@.len() <= self.capacity
    }

    /// An empty log with room for [`DEFAULT_CAPACITY`] events.
    pub fn new() -> (log: EdgeLog)
        ensures
            log@ == Record::empty(DEFAULT_CAPACITY as nat),
    {
        EdgeLog::with_capacity(DEFAULT_CAPACITY)
    }

    /// An empty log with room for `capacity` events.
    pub fn with_capacity(capacity: usize) -> (log: EdgeLog)
        ensures
            log@ == Record::empty(capacity as nat),
    {
        EdgeLog { events: Vec::new(), capacity, dropped: 0 }
    }

    /// Records `event` behind the events already there and returns its
    /// index. A full log reports the overflow, counts the event as
    /// dropped and keeps what it holds.
    pub fn record(&mut self, event: EdgeEvent) -> (result: Result<usize, Overflow>)
        ensures
            final(self)@ == old(self)@.append(event),
            match result {
                Ok(index) => !old(self)@.full() && index == old(self)@.events.len(),
                Err(overflow) => old(self)@.full() && overflow.capacity == old(self)@.capacity,
            },
    {
        proof {
            use_type_invariant(&*self);
        }
        let index = self.events.len();
        if index < self.capacity {
            let mut events: Vec<EdgeEvent> = Vec::new();
            std::mem::swap(&mut events, &mut self.events);
            events.push(event);
            self.events = events;
            Ok(index)
        } else {
            if self.dropped < usize::MAX {
                self.dropped = self.dropped + 1;
            }
            Err(Overflow { capacity: self.capacity })
        }
    }

    /// The number of events recorded.
    pub fn length(&self) -> (count: usize)
        ensures
            count == self@.events.len(),
            count <= self@.capacity,
    {
        proof {
            use_type_invariant(self);
        }
        self.events.len()
    }

    /// The event recorded under `index`, if there is one.
    pub fn get(&self, index: usize) -> (event: Option<EdgeEvent>)
        ensures
            event == (if index < self@.events.len() {
                Some(self@.events[index as int])
            } else {
                None
            }),
    {
        if index < self.events.len() {
            Some(self.events[index])
        } else {
            None
        }
    }

    /// The number of events that the log has room for.
    pub fn capacity(&self) -> (capacity: usize)
        ensures
            capacity == self@.capacity,
    {
        self.capacity
    }

    /// The number of events turned away because the log was full; the
    /// count stops at `usize::MAX`.
    pub fn dropped(&self) -> (dropped: usize)
        ensures
            dropped == self@.dropped,
    {
        self.dropped
    }

    /// Whether nothing has been recorded.
    pub fn is_empty(&self) -> (empty: bool)
        ensures
            empty == (self@.events.len() == 0),
    {
        self.events.len() == 0
    }

    /// Whether the next event would be turned away.
    pub fn is_full(&self) -> (full: bool)
        ensures
            full == self@.full(),
    {
        self.events.len() >= self.capacity
    }

    /// All recorded events, oldest first.
    pub fn as_slice(&self) -> (events: &[EdgeEvent])
        ensures
            events@ == self@.events,
    {
        self.events.as_slice()
    }

    /// Ends the capture: the log is given up for the events it holds,
    /// oldest first.
    pub fn into_events(self) -> (events: Vec<EdgeEvent>)
        ensures
            events@ == self@.events,
    {
        self.events
    }
}

impl Default for EdgeLog {
    fn default() -> (log: EdgeLog)
        ensures
            log@ == Record::empty(DEFAULT_CAPACITY as nat),
    {
        EdgeLog::new()
    }
}

} // verus!
