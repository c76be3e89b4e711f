//! Events and timelines.
//!
//! A timeline is the sequence of events that a simulation run has produced.
//! Timestamps count the milliseconds of the simulated day.

use vstd::prelude::*;

verus! {

/// The milliseconds of one day. Timestamps are meant to lie below it, and a
/// timestamp that is moved past it starts over at midnight.
pub const MILLIS_PER_DAY: u32 = 86_400_000;

/// What an event does.
#[derive(Debug, Clone, PartialEq, Eq)]
pub enum Action {
    /// A state-change notification with its payload.
    Message(String),
    /// The arrival of a movable object at the location with the given number.
    Move(usize),
    /// Anything else; the analysis passes over it.
    Other,
}

/// The mathematical value of an [`Action`].
pub enum ActionView {
    Message(Seq<char>),
    Move(int),
    Other,
}

impl View for Action {
    type V = ActionView;

    open spec fn view(&self) -> ActionView {
        match self {
            Action::Message(payload) => ActionView::Message(payload@),
            Action::Move(destination) => ActionView::Move(*destination as int),
            Action::Other => ActionView::Other,
        }
    }
}

/// One record of the timeline.
#[derive(Debug, Clone, PartialEq, Eq)]
pub struct Event {
    /// The identifier of the entity that the event belongs to.
    pub entity_id: String,
    /// The time of the event, in milliseconds.
    pub timestamp: u32,
    /// What happens.
    pub action: Action,
}

/// The mathematical value of an [`Event`].
pub struct EventView {
    pub entity_id: Seq<char>,
    pub timestamp: int,
    pub action: ActionView,
}

impl View for Event {
    type V = EventView;

    open spec fn view(&self) -> EventView {
        EventView {
            entity_id: self.entity_id@,
            timestamp: self.timestamp as int,
            action: self.action@,
        }
    }
}

/// The values of the events of a timeline, in order.
pub open spec fn views(events: Seq<Event>) -> Seq<EventView> {
    events.map_values(|e: Event| e@)
}

/// No event of the timeline is earlier than the one before it.
pub open spec fn chronological(events: Seq<EventView>) -> bool {
    forall|i: int, j: int|
        0 <= i <= j < events.len() ==> events[i].timestamp <= events[j].timestamp
}

impl Event {
    /// An event of the entity `entity_id` at `timestamp`.
    pub fn new(entity_id: String, timestamp: u32, action: Action) -> (event: Event)
        ensures
            event.entity_id == entity_id,
            event.timestamp == timestamp,
            event.action == action,
    {
        Event { entity_id, timestamp, action }
    }

    /// The identifier of the entity that the event belongs to.
    pub fn get_id(&self) -> (id: String)
        ensures
            id@ == self.entity_id@,
    {
        self.entity_id.clone()
    }

    /// The time of the event, in milliseconds.
    pub fn get_time(&self) -> (time: u32)
        ensures
            time == self.timestamp,
    {
        self.timestamp
    }
}

impl Action {
    /// A second action of the same value.
    pub fn duplicate(&self) -> (copy: Action)
        ensures
            copy@ == self@,
    {
        match self {
            Action::Message(payload) => Action::Message(payload.clone()),
            Action::Move(destination) => Action::Move(*destination),
            Action::Other => Action::Other,
        }
    }
}

impl Event {
    /// A second event of the same value.
    pub fn duplicate(&self) -> (copy: Event)
        ensures
            copy@ == self@,
    {
        Event {
            entity_id: self.entity_id.clone(),
            timestamp: self.timestamp,
            action: self.action.duplicate(),
        }
    }
}

/// Whether the events are in ascending order of time.
pub fn is_chronological(events: &Vec<Event>) -> (b: bool)
    ensures
        b == chronological(views(events@)),
{
    if events.len() == 0 {
        return true;
    }
    let mut i: usize = 1;
    while i < events.len()
        invariant
            1 <= i <= events.len(),
            forall|a: int, b: int|
                0 <= a <= b < i ==> events@[a].timestamp <= events@[b].timestamp,
        decreases events.len() - i,
    {
        if events[i - 1].timestamp > events[i].timestamp {
            assert(views(events@)[i - 1].timestamp > views(events@)[i as int].timestamp);
            return false;
        }
        i += 1;
    }
    assert forall|a: int, b: int| 0 <= a <= b < events.len() implies views(
        events@,
    )[a].timestamp <= views(events@)[b].timestamp by {
        assert(events@[a].timestamp <= events@[b].timestamp);
    }
    true
}

/// The timeline of a simulation run: its events, in the order in which they
/// are kept.
#[derive(Debug, Clone, PartialEq, Eq)]
pub struct EventList {
    /// The events.
    pub events: Vec<Event>,
}

impl View for EventList {
    type V = Seq<EventView>;

    open spec fn view(&self) -> Seq<EventView> {
        views(self.events@)
    }
}

impl EventList {
    /// The timeline of the given events.
    pub fn new(events: Vec<Event>) -> (list: EventList)
        ensures
            list.events == events,
    {
        EventList { events }
    }

    /// The number of events.
    pub fn len(&self) -> (n: usize)
        ensures
            n == self@.len(),
    {
        self.events.len()
    }

    /// A copy of the events, in order.
    pub fn get_event_list_copy(&self) -> (copy: Vec<Event>)
        ensures
            views(copy@) == self@,
    {
        let mut copy: Vec<Event> = Vec::new();
        let mut i: usize = 0;
        while i < self.events.len()
            invariant
                i <= self.events.len(),
                copy.len() == i,
                forall|k: int| 0 <= k < i ==> (#[trigger] copy[k])@ == self.events[k]@,
            decreases self.events.len() - i,
        {
            copy.push(self.events[i].duplicate());
            i += 1;
        }
        assert(views(copy@) =~= self@);
        copy
    }

    /// Puts `event` behind the last event.
    pub fn add_event(&mut self, event: Event)
        ensures
            final(self)@ == old(self)@.push(event@),
    {
        self.events.push(event);
        assert(views(self.events@) =~= views(old(self).events@).push(event@));
    }

    /// Puts `event` in the place of the event at `position`.
    pub fn replace_at(&mut self, position: usize, event: Event)
        requires
            position < old(self)@.len(),
        ensures
            final(self)@ == old(self)@.update(position as int, event@),
    {
        self.events.set(position, event);
        assert(views(self.events@) =~= views(old(self).events@).update(position as int, event@));
    }

    /// Whether the events are in ascending order of time.
    pub fn is_chronological(&self) -> (b: bool)
        ensures
            b == chronological(self@),
    {
        is_chronological(&self.events)
    }
}

} // verus!
