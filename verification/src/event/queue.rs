use vstd::prelude::*;

use crate::event::payload::{event_model, DomainEvent, EventModel, MarkerEvent};

verus! {

/// Tick-local FIFO of events emitted by systems, drained between ticks by
/// the rule processor. Domain and marker events are separate FIFOs: order
/// is preserved within a channel, not across channels.
pub struct EventQueue {
    domain: std::collections::VecDeque<DomainEvent>,
    marker: std::collections::VecDeque<MarkerEvent>,
}

/// What a queue holds: pending domain events (by name and payload) and
/// pending marker events, oldest first.
pub struct QueueView {
    pub domain: Seq<EventModel>,
    pub marker: Seq<MarkerEvent>,
}

/// The models of a sequence of domain events.
pub open spec fn event_models(s: Seq<DomainEvent>) -> Seq<EventModel> {
    s.map_values(|e: DomainEvent| event_model(e))
}

impl View for EventQueue {
    type V = QueueView;

    closed spec fn view(&self) -> QueueView {
        QueueView { domain: event_models(self.domain@), marker: self.marker@ }
    }
}

impl EventQueue {
    /// An empty queue.
    pub fn new() -> (r: Self)
        ensures
            r@.domain == Seq::<EventModel>::empty(),
            r@.marker == Seq::<MarkerEvent>::empty(),
    {
        let r = EventQueue {
            domain: std::collections::VecDeque::new(),
            marker: std::collections::VecDeque::new(),
        };
        assert(event_models(r.domain@) =~= Seq::<EventModel>::empty());
        r
    }

    /// Appends a domain event.
    pub fn emit_domain(&mut self, event: DomainEvent)
        ensures
            final(self)@.domain == old(self)@.domain.push(event_model(event)),
            final(self)@.marker == old(self)@.marker,
    {
        let ghost e = event;
        self.domain.push_back(event);
        assert(event_models(self.domain@) =~= event_models(old(self).domain@).push(event_model(e)));
    }

    /// Appends a marker event.
    pub fn emit_marker(&mut self, event: MarkerEvent)
        ensures
            final(self)@.marker == old(self)@.marker.push(event),
            final(self)@.domain == old(self)@.domain,
    {
        self.marker.push_back(event);
    }

    /// Removes and returns the oldest domain event.
    pub fn next_domain(&mut self) -> (r: Option<DomainEvent>)
        ensures
            old(self)@.domain.len() == 0 ==> r is None && final(self)@ == old(self)@,
            old(self)@.domain.len() > 0 ==> (r matches Some(e) && event_model(e) == old(self)@.domain[0]
                && final(self)@.domain == old(self)@.domain.drop_first()),
            final(self)@.marker == old(self)@.marker,
    {
        let r = self.domain.pop_front();
        proof {
            if old(self).domain@.len() > 0 {
                assert(event_models(self.domain@) =~= event_models(old(self).domain@).drop_first());
            }
        }
        r
    }

    /// Removes and returns the oldest marker event.
    pub fn next_marker(&mut self) -> (r: Option<MarkerEvent>)
        ensures
            old(self)@.marker.len() == 0 ==> r is None && final(self)@ == old(self)@,
            old(self)@.marker.len() > 0 ==> r == Some(old(self)@.marker[0])
                && final(self)@.marker == old(self)@.marker.drop_first(),
            final(self)@.domain == old(self)@.domain,
    {
        self.marker.pop_front()
    }

    /// Whether both channels are empty.
    pub fn is_empty(&self) -> (r: bool)
        ensures
            r == (self@.domain.len() == 0 && self@.marker.len() == 0),
    {
        self.domain.len() == 0 && self.marker.len() == 0
    }

    /// Number of pending events over both channels.
    pub fn len(&self) -> (r: usize)
        requires
            self@.domain.len() + self@.marker.len() <= usize::MAX,
        ensures
            r == self@.domain.len() + self@.marker.len(),
    {
        self.domain.len() + self.marker.len()
    }

    /// Number of pending domain events.
    pub fn domain_len(&self) -> (r: usize)
        ensures
            r == self@.domain.len(),
    {
        self.domain.len()
    }
}

} // verus!
