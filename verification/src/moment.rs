use vstd::prelude::*;

use crate::event::{Event, EventView};

verus! {

/// The mathematical value of a list of events: the sequence of their views.
pub open spec fn events_view(events: Seq<Event>) -> Seq<EventView> {
    events.map_values(|e: Event| e@)
}

/// Mapping a list of events to their views commutes with appending one.
pub proof fn lemma_events_view_push(s: Seq<Event>, e: Event)
    ensures
        events_view(s.push(e)) == events_view(s).push(e@),
{
    assert forall|m: int| 0 <= m < s.len() + 1 implies events_view(s.push(e))[m] == events_view(
        s,
    ).push(e@)[m] by {
        if m < s.len() {
            assert(s.push(e)[m] == s[m]);
        } else {
            assert(s.push(e)[m] == e);
        }
    }
    assert(events_view(s.push(e)) =~= events_view(s).push(e@));
}

/// The events that occur together at one tick of one track, in input order.
///
/// The order is significant: a tempo change must be seen by the timer in the
/// order it stands among the other events of the same tick.
#[derive(Clone, Debug, PartialEq, Eq)]
pub struct SimultaneousEvents {
    pub events: Vec<Event>,
}

impl View for SimultaneousEvents {
    type V = Seq<EventView>;

    open spec fn view(&self) -> Seq<EventView> {
        events_view(self.events@)
    }
}

impl SimultaneousEvents {
    /// Bundle the given events, keeping their order.
    pub fn new(events: Vec<Event>) -> (r: SimultaneousEvents)
        ensures
            r.events == events,
            r@ == events_view(events@),
    {
        SimultaneousEvents { events }
    }

    /// Add one more event after the existing ones.
    pub fn push(&mut self, event: Event)
        ensures
            final(self).events@ == old(self).events@.push(event),
            final(self)@ == old(self)@.push(event@),
    {
        self.events.push(event);
        proof {
            assert(self@ =~= old(self)@.push(event@));
        }
    }

    /// An exact copy of this moment.
    pub fn duplicate(&self) -> (r: SimultaneousEvents)
        ensures
            r@ == self@,
    {
        let mut events: Vec<Event> = Vec::new();
        let mut i: usize = 0;
        proof {
            assert(events_view(events@) =~= events_view(self.events@.take(0)));
        }
        while i < self.events.len()
            invariant
                0 <= i <= self.events@.len(),
                events_view(events@) == events_view(self.events@.take(i as int)),
            decreases self.events@.len() - i,
        {
            let ghost pre = events@;
            let d = self.events[i].duplicate();
            events.push(d);
            proof {
                lemma_events_view_push(pre, d);
                lemma_events_view_push(self.events@.take(i as int), self.events@[i as int]);
                assert(self.events@.take(i + 1) =~= self.events@.take(i as int).push(
                    self.events@[i as int],
                ));
            }
            i = i + 1;
        }
        proof {
            assert(self.events@.take(self.events@.len() as int) =~= self.events@);
        }
        SimultaneousEvents { events }
    }
}

/// A single moment (tick) of a track; another name for the same notion as
/// [`SimultaneousEvents`].
#[derive(Clone, Debug, Default, PartialEq, Eq, Hash)]
pub struct Moment {
    /// Events in this moment.
    events: Vec<Event>,
}

impl View for Moment {
    type V = Seq<EventView>;

    closed spec fn view(&self) -> Seq<EventView> {
        events_view(self.events@)
    }
}

impl Moment {
    /// Whether no event occurs at this moment.
    pub fn is_empty(&self) -> (r: bool)
        ensures
            r == (self@.len() == 0),
    {
        self.events.len() == 0
    }

    /// The events of this moment, in order.
    pub fn get_events(&self) -> (r: &[Event])
        ensures
            events_view(r@) == self@,
    {
        self.events.as_slice()
    }

    /// Add one more event after the existing ones.
    pub fn push(&mut self, event: Event)
        ensures
            final(self)@ == old(self)@.push(event@),
    {
        self.events.push(event);
        proof {
            assert(self@ =~= old(self)@.push(event@));
        }
    }
}

} // verus!
