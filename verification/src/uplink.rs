//! Occupancy messages derived from movement events.
//!
//! When a movable object arrives at a location, every presence-only sensor
//! there reports the arrival a moment later. Until the object reaches its next
//! waypoint, every event of such a sensor that the timeline already holds is
//! rewritten to report presence. The scan only computes these changes; the
//! timeline takes them afterwards in one step.

use crate::error::Error;
use crate::event::{views, Action, ActionView, Event, EventList, EventView, MILLIS_PER_DAY};
use crate::identifier::{occupancy_tag, parse_move_id, parse_move_id_of, MoveId};
use crate::sensor::{is_occupancy_sensor, sensor_views, Sensor, SensorView};
use crate::text::{
    chars_of, contains, contains_in, push_all, push_signed_decimal, push_str, signed_decimal,
    string_of,
};
use rand::rngs::ThreadRng;
use rand::Rng;
use vstd::prelude::*;

verus! {

/// The bound in milliseconds below which the delay of an arrival message
/// lies.
pub const JITTER_BOUND: u32 = 1000;

/// One stop of a movable object's itinerary.
#[derive(Debug, Clone, Copy, PartialEq, Eq)]
pub struct Waypoint {
    /// The number of the stop within the itinerary.
    pub step_index: usize,
    /// The time at which the object reaches the stop, in milliseconds.
    pub arrival: u32,
    /// The number of the location of the stop.
    pub location: usize,
}

/// An event that takes the place of the event at `position`.
#[derive(Debug, Clone, PartialEq, Eq)]
pub struct Replacement {
    /// The position in the timeline.
    pub position: usize,
    /// The event that is put there.
    pub event: Event,
}

/// The mathematical value of a [`Replacement`].
pub struct ReplacementView {
    pub position: int,
    pub event: EventView,
}

impl View for Replacement {
    type V = ReplacementView;

    open spec fn view(&self) -> ReplacementView {
        ReplacementView { position: self.position as int, event: self.event@ }
    }
}

/// The values of a list of replacements.
pub open spec fn replacement_views(replacements: Seq<Replacement>) -> Seq<ReplacementView> {
    replacements.map_values(|r: Replacement| r@)
}

/// The changes that a scan asks of its timeline.
#[derive(Debug, Clone, PartialEq, Eq)]
pub struct ChangeSet {
    /// The events to put behind the timeline, in order.
    pub new_events: Vec<Event>,
    /// The events to put in the place of others.
    pub replacements: Vec<Replacement>,
}

/// The mathematical value of a [`ChangeSet`].
pub struct ChangeSetView {
    pub new_events: Seq<EventView>,
    pub replacements: Seq<ReplacementView>,
}

impl View for ChangeSet {
    type V = ChangeSetView;

    open spec fn view(&self) -> ChangeSetView {
        ChangeSetView {
            new_events: views(self.new_events@),
            replacements: replacement_views(self.replacements@),
        }
    }
}

/// The itineraries of a waypoint table, one row for each movable object.
pub open spec fn waypoint_rows(table: Seq<Vec<Waypoint>>) -> Seq<Seq<Waypoint>> {
    table.map_values(|row: Vec<Waypoint>| row@)
}

/// The sensors of a building, one row for each location.
pub open spec fn sensor_rows(table: Seq<Vec<Sensor>>) -> Seq<Seq<SensorView>> {
    table.map_values(|row: Vec<Sensor>| sensor_views(row@))
}

/// The payload that reports presence.
pub open spec fn occupied_payload() -> Seq<char> {
    "occupancy:true"@
}

/// The text that the identifier of a sensor's messages begins with.
pub open spec fn message_marker() -> Seq<char> {
    "Message_of_"@
}

/// The identifier that the messages of a sensor carry.
pub open spec fn message_id(sensor: SensorView) -> Seq<char> {
    message_marker() + signed_decimal(sensor.number) + "_"@ + sensor.id
}

/// The time `jitter` milliseconds after `time`, which starts over at midnight.
pub open spec fn jittered(time: int, jitter: int) -> int {
    (time + jitter) % (MILLIS_PER_DAY as int)
}

/// The time by which the object of a move arrives at its next waypoint. The
/// waypoint table may hold no row for the object or no stop behind the step;
/// the stay at the destination is then open-ended.
pub open spec fn deadline_of(waypoints: Seq<Seq<Waypoint>>, id: MoveId) -> Option<int> {
    if id.entity < waypoints.len() && id.step + 1 < waypoints[id.entity as int].len() {
        Some(waypoints[id.entity as int][id.step + 1].arrival as int)
    } else {
        None
    }
}

/// The sensors of a location. A location that the table does not hold has
/// none.
pub open spec fn sensors_at(sensors: Seq<Seq<SensorView>>, location: int) -> Seq<SensorView> {
    if 0 <= location < sensors.len() {
        sensors[location]
    } else {
        Seq::empty()
    }
}

/// The event at `p` lies in the window of the move at `i`: behind it, with no
/// event later than `deadline` between the two or at `p` itself.
pub open spec fn in_window(events: Seq<EventView>, i: int, deadline: int, p: int) -> bool {
    &&& i < p < events.len()
    &&& forall|k: int| i < k <= p ==> (#[trigger] events[k]).timestamp <= deadline
}

/// The event belongs to the presence-only sensor whose messages carry `id`.
pub open spec fn reports_sensor(event: EventView, id: Seq<char>) -> bool {
    contains(event.entity_id, occupancy_tag()) && event.entity_id == id
}

/// The event that reports presence in the place of `event`: the same entity
/// at the same time.
pub open spec fn occupied(event: EventView) -> EventView {
    EventView {
        entity_id: event.entity_id,
        timestamp: event.timestamp,
        action: ActionView::Message(occupied_payload()),
    }
}

/// The replacements among the first `n` events for one sensor and one move:
/// one for every event of the window that belongs to the sensor, in the order
/// of the timeline.
pub open spec fn window_replacements(
    events: Seq<EventView>,
    i: int,
    deadline: int,
    id: Seq<char>,
    n: int,
) -> Seq<ReplacementView>
    decreases n,
{
    if n <= 0 {
        Seq::empty()
    } else {
        let before = window_replacements(events, i, deadline, id, n - 1);
        if in_window(events, i, deadline, n - 1) && reports_sensor(events[n - 1], id) {
            before.push(ReplacementView { position: n - 1, event: occupied(events[n - 1]) })
        } else {
            before
        }
    }
}

/// The replacements for the move at `i` and the first `n` sensors of its
/// destination. An open-ended stay rewrites nothing.
pub open spec fn move_replacements(
    events: Seq<EventView>,
    i: int,
    deadline: Option<int>,
    sensors: Seq<SensorView>,
    n: int,
) -> Seq<ReplacementView>
    decreases n,
{
    if n <= 0 {
        Seq::empty()
    } else {
        let before = move_replacements(events, i, deadline, sensors, n - 1);
        match deadline {
            Some(d) => if is_occupancy_sensor(sensors[n - 1]) {
                before + window_replacements(
                    events,
                    i,
                    d,
                    message_id(sensors[n - 1]),
                    events.len() as int,
                )
            } else {
                before
            },
            None => before,
        }
    }
}

/// An arrival that a presence-only sensor reports.
pub struct ArrivalView {
    /// The identifier of the sensor's messages.
    pub id: Seq<char>,
    /// The time of the move.
    pub time: int,
}

/// The arrivals that the first `n` sensors of a destination report for a
/// move at `time`: one for every presence-only sensor, in order.
pub open spec fn move_arrivals(time: int, sensors: Seq<SensorView>, n: int) -> Seq<ArrivalView>
    decreases n,
{
    if n <= 0 {
        Seq::empty()
    } else {
        let before = move_arrivals(time, sensors, n - 1);
        if is_occupancy_sensor(sensors[n - 1]) {
            before.push(ArrivalView { id: message_id(sensors[n - 1]), time })
        } else {
            before
        }
    }
}

/// The event at `i` is a move whose identifier does not follow the grammar.
pub open spec fn malformed_move_at(events: Seq<EventView>, i: int) -> bool {
    &&& 0 <= i < events.len()
    &&& events[i].action is Move
    &&& parse_move_id(events[i].entity_id) is None
}

/// The event at `p` is the first move with a malformed identifier.
pub open spec fn is_first_malformed_move(events: Seq<EventView>, p: int) -> bool {
    &&& malformed_move_at(events, p)
    &&& forall|k: int| 0 <= k < p ==> !malformed_move_at(events, k)
}

/// The arrivals that the moves among the first `n` events lead to.
pub open spec fn arrivals_of(events: Seq<EventView>, sensors: Seq<Seq<SensorView>>, n: int) -> Seq<
    ArrivalView,
>
    decreases n,
{
    if n <= 0 {
        Seq::empty()
    } else {
        let before = arrivals_of(events, sensors, n - 1);
        match events[n - 1].action {
            ActionView::Move(destination) => {
                let here = sensors_at(sensors, destination);
                before + move_arrivals(events[n - 1].timestamp, here, here.len() as int)
            },
            _ => before,
        }
    }
}

/// The replacements that the moves among the first `n` events lead to.
pub open spec fn replacements_of(
    events: Seq<EventView>,
    waypoints: Seq<Seq<Waypoint>>,
    sensors: Seq<Seq<SensorView>>,
    n: int,
) -> Seq<ReplacementView>
    decreases n,
{
    if n <= 0 {
        Seq::empty()
    } else {
        let before = replacements_of(events, waypoints, sensors, n - 1);
        match (events[n - 1].action, parse_move_id(events[n - 1].entity_id)) {
            (ActionView::Move(destination), Some(id)) => {
                let here = sensors_at(sensors, destination);
                before + move_replacements(
                    events,
                    n - 1,
                    deadline_of(waypoints, id),
                    here,
                    here.len() as int,
                )
            },
            _ => before,
        }
    }
}

/// `event` reports `arrival`: it carries the sensor's identifier and the
/// payload of presence, less than [`JITTER_BOUND`] milliseconds after the
/// move.
pub open spec fn reports_arrival(event: EventView, arrival: ArrivalView) -> bool {
    &&& event.entity_id == arrival.id
    &&& event.action == ActionView::Message(occupied_payload())
    &&& exists|jitter: int|
        0 <= jitter < JITTER_BOUND && event.timestamp == #[trigger] jittered(arrival.time, jitter)
}

/// The events report the arrivals, one each and in order.
pub open spec fn announces(events: Seq<EventView>, arrivals: Seq<ArrivalView>) -> bool {
    &&& events.len() == arrivals.len()
    &&& forall|k: int|
        0 <= k < events.len() ==> reports_arrival(#[trigger] events[k], arrivals[k])
}

/// The timeline once the `n` first replacements are made, later ones over
/// earlier ones.
pub open spec fn replaced(events: Seq<EventView>, replacements: Seq<ReplacementView>, n: int) -> Seq<
    EventView,
>
    decreases n,
{
    if n <= 0 {
        events
    } else {
        replaced(events, replacements, n - 1).update(
            replacements[n - 1].position,
            replacements[n - 1].event,
        )
    }
}

/// The timeline once it has taken the changes: every replacement is made in
/// place, then the new events follow the last event.
pub open spec fn merged(events: Seq<EventView>, changes: ChangeSetView) -> Seq<EventView> {
    replaced(events, changes.replacements, changes.replacements.len() as int)
        + changes.new_events
}

/// Every replacement names a position of the timeline.
pub open spec fn fits(changes: ChangeSetView, length: int) -> bool {
    forall|k: int|
        0 <= k < changes.replacements.len() ==> 0 <= (
        #[trigger] changes.replacements[k]).position < length
}

#[verifier::external_type_specification]
#[verifier::external_body]
pub struct ExThreadRng(ThreadRng);

/// `rand::thread_rng` hands out the generator of the running thread. Nothing
/// is claimed of it.
pub assume_specification[ rand::thread_rng ]() -> (rng: ThreadRng)
;

/// `rand::Rng::gen_range` on the half-open range from zero to `bound`: some
/// number of that range. The range must not be empty.
#[verifier::external_body]
fn draw_below(rng: &mut ThreadRng, bound: u32) -> (n: u32)
    requires
        bound > 0,
    ensures
        n < bound,
{
    rng.gen_range(0..bound)
}

/// The identifier that the messages of a sensor carry.
pub fn message_id_of(sensor: &Sensor) -> (id: Vec<char>)
    ensures
        id@ == message_id(sensor@),
{
    let mut id: Vec<char> = Vec::new();
    push_str(&mut id, "Message_of_");
    push_signed_decimal(&mut id, sensor.number);
    push_str(&mut id, "_");
    let own = chars_of(sensor.id.as_str());
    push_all(&mut id, &own);
    id
}

/// The message with which the sensor of the identifier `id` reports an
/// arrival of the time `time`, delayed by `jitter` milliseconds.
pub fn arrival_event(id: String, time: u32, jitter: u32) -> (event: Event)
    ensures
        event@ == (EventView {
            entity_id: id@,
            timestamp: jittered(time as int, jitter as int),
            action: ActionView::Message(occupied_payload()),
        }),
{
    let late: u64 = (time as u64 + jitter as u64) % (MILLIS_PER_DAY as u64);
    Event {
        entity_id: id,
        timestamp: late as u32,
        action: Action::Message(String::from_str("occupancy:true")),
    }
}

/// The message that reports presence in the place of `event`.
pub fn occupied_event(event: &Event) -> (r: Event)
    ensures
        r@ == occupied(event@),
{
    Event {
        entity_id: event.entity_id.clone(),
        timestamp: event.timestamp,
        action: Action::Message(String::from_str("occupancy:true")),
    }
}

/// The time by which the object of a move arrives at its next waypoint.
pub fn deadline(waypoints: &Vec<Vec<Waypoint>>, id: MoveId) -> (r: Option<u32>)
    ensures
        match r {
            Some(d) => deadline_of(waypoint_rows(waypoints@), id) == Some(d as int),
            None => deadline_of(waypoint_rows(waypoints@), id) is None,
        },
{
    if id.entity >= waypoints.len() {
        return None;
    }
    let row = &waypoints[id.entity];
    assert(waypoint_rows(waypoints@)[id.entity as int] == row@);
    let stops: usize = row.len();
    match id.step.checked_add(1) {
        Some(next) => {
            if next < stops {
                Some(row[next].arrival)
            } else {
                None
            }
        },
        None => None,
    }
}

/// Behind the first event that is later than the deadline nothing lies in the
/// window.
proof fn lemma_window_closed(
    events: Seq<EventView>,
    i: int,
    deadline: int,
    id: Seq<char>,
    j: int,
    n: int,
)
    requires
        i < j <= n <= events.len(),
        j < events.len() ==> events[j].timestamp > deadline,
    ensures
        window_replacements(events, i, deadline, id, n) == window_replacements(
            events,
            i,
            deadline,
            id,
            j,
        ),
    decreases n - j,
{
    if n > j {
        lemma_window_closed(events, i, deadline, id, j, n - 1);
        assert(!in_window(events, i, deadline, n - 1)) by {
            if in_window(events, i, deadline, n - 1) {
                assert(events[j].timestamp <= deadline);
            }
        }
    }
}

/// At and before the move itself nothing lies in its window.
proof fn lemma_window_begins(events: Seq<EventView>, i: int, deadline: int, id: Seq<char>, n: int)
    requires
        n <= i + 1,
    ensures
        window_replacements(events, i, deadline, id, n) == Seq::<ReplacementView>::empty(),
    decreases n,
{
    if n > 0 {
        lemma_window_begins(events, i, deadline, id, n - 1);
    }
}

/// Schedules the replacements of one sensor for the move at `i`.
fn schedule_window(
    events: &Vec<Event>,
    i: usize,
    deadline: u32,
    id: &String,
    tagged: bool,
    out: &mut Vec<Replacement>,
)
    requires
        i < events.len(),
        tagged == contains(id@, occupancy_tag()),
    ensures
        replacement_views(final(out)@) == replacement_views(old(out)@) + window_replacements(
            views(events@),
            i as int,
            deadline as int,
            id@,
            events.len() as int,
        ),
{
    let ghost vs = views(events@);
    let ghost before = replacement_views(out@);
    let mut j: usize = i + 1;
    proof {
        lemma_window_begins(vs, i as int, deadline as int, id@, j as int);
        assert(replacement_views(out@) =~= before + Seq::<ReplacementView>::empty());
    }
    while j < events.len() && events[j].timestamp <= deadline
        invariant
            i < j <= events.len(),
            vs == views(events@),
            tagged == contains(id@, occupancy_tag()),
            forall|k: int| i < k < j ==> (#[trigger] vs[k]).timestamp <= deadline,
            replacement_views(out@) == before + window_replacements(
                vs,
                i as int,
                deadline as int,
                id@,
                j as int,
            ),
        decreases events.len() - j,
    {
        assert(vs[j as int] == events@[j as int]@);
        assert(in_window(vs, i as int, deadline as int, j as int));
        if tagged && events[j].entity_id == *id {
            let ghost held = replacement_views(out@);
            let r = Replacement { position: j, event: occupied_event(&events[j]) };
            out.push(r);
            assert(replacement_views(out@) =~= held.push(r@));
            assert(held.push(r@) =~= before + window_replacements(
                vs,
                i as int,
                deadline as int,
                id@,
                j + 1,
            ));
        }
        j += 1;
    }
    proof {
        if j < events.len() {
            assert(vs[j as int] == events@[j as int]@);
        }
        lemma_window_closed(vs, i as int, deadline as int, id@, j as int, events.len() as int);
    }
}

/// Reports the move at `i` for every presence-only sensor of its destination
/// and schedules the replacements of its window.
fn announce_move(
    events: &Vec<Event>,
    i: usize,
    here: &Vec<Sensor>,
    deadline: Option<u32>,
    rng: &mut ThreadRng,
    changes: &mut ChangeSet,
    Ghost(arrivals): Ghost<Seq<ArrivalView>>,
)
    requires
        i < events.len(),
        announces(old(changes)@.new_events, arrivals),
    ensures
        announces(
            final(changes)@.new_events,
            arrivals + move_arrivals(
                events[i as int].timestamp as int,
                sensor_views(here@),
                here.len() as int,
            ),
        ),
        final(changes)@.replacements == old(changes)@.replacements + move_replacements(
            views(events@),
            i as int,
            match deadline {
                Some(d) => Some(d as int),
                None => None,
            },
            sensor_views(here@),
            here.len() as int,
        ),
{
    let ghost vs = views(events@);
    let ghost svs = sensor_views(here@);
    let ghost limit: Option<int> = match deadline {
        Some(d) => Some(d as int),
        None => None,
    };
    let ghost held = changes@.replacements;
    let time: u32 = events[i].timestamp;
    let mut k: usize = 0;
    assert(changes@.replacements =~= held + Seq::<ReplacementView>::empty());
    assert(arrivals + Seq::<ArrivalView>::empty() =~= arrivals);
    while k < here.len()
        invariant
            k <= here.len(),
            i < events.len(),
            vs == views(events@),
            svs == sensor_views(here@),
            time == events[i as int].timestamp,
            limit == match deadline {
                Some(d) => Some(d as int),
                None => None,
            },
            announces(changes@.new_events, arrivals + move_arrivals(time as int, svs, k as int)),
            changes@.replacements == held + move_replacements(vs, i as int, limit, svs, k as int),
        decreases here.len() - k,
    {
        let sensor = &here[k];
        assert(svs[k as int] == sensor@);
        if sensor.detects_occupancy() {
            let id_chars = message_id_of(sensor);
            let id = string_of(&id_chars);
            let jitter = draw_below(rng, JITTER_BOUND);
            let ghost known = changes@.new_events;
            let ghost due = arrivals + move_arrivals(time as int, svs, k as int);
            let event = arrival_event(id.clone(), time, jitter);
            changes.new_events.push(event);
            proof {
                let arrival = ArrivalView { id: message_id(sensor@), time: time as int };
                assert(changes@.new_events =~= known.push(event@));
                assert(arrivals + move_arrivals(time as int, svs, k + 1) =~= due.push(arrival));
                assert(reports_arrival(event@, arrival)) by {
                    assert(event@.timestamp == jittered(arrival.time, jitter as int));
                }
                assert forall|t: int| 0 <= t < known.len() + 1 implies reports_arrival(
                    #[trigger] known.push(event@)[t],
                    due.push(arrival)[t],
                ) by {
                    if t < known.len() {
                        assert(reports_arrival(known[t], due[t]));
                    }
                }
            }
            match deadline {
                Some(d) => {
                    let tag = chars_of("SensorType_1");
                    let tagged = contains_in(&id_chars, &tag);
                    let ghost scheduled = changes@.replacements;
                    schedule_window(events, i, d, &id, tagged, &mut changes.replacements);
                    assert(changes@.replacements =~= held + move_replacements(
                        vs,
                        i as int,
                        limit,
                        svs,
                        k + 1,
                    ));
                },
                None => {},
            }
        }
        k += 1;
    }
}

/// Every replacement of a window names a position behind the move.
pub proof fn lemma_window_positions(
    events: Seq<EventView>,
    i: int,
    deadline: int,
    id: Seq<char>,
    n: int,
)
    requires
        n <= events.len(),
    ensures
        forall|k: int|
            0 <= k < window_replacements(events, i, deadline, id, n).len() ==> {
                let r = #[trigger] window_replacements(events, i, deadline, id, n)[k];
                &&& in_window(events, i, deadline, r.position)
                &&& reports_sensor(events[r.position], id)
                &&& r.event == occupied(events[r.position])
            },
    decreases n,
{
    if n > 0 {
        lemma_window_positions(events, i, deadline, id, n - 1);
    }
}

/// Every replacement of a move names a position of its window and holds the
/// event of that position, rewritten.
pub proof fn lemma_move_positions(
    events: Seq<EventView>,
    i: int,
    deadline: Option<int>,
    sensors: Seq<SensorView>,
    n: int,
)
    ensures
        forall|k: int|
            0 <= k < move_replacements(events, i, deadline, sensors, n).len() ==> {
                let r = #[trigger] move_replacements(events, i, deadline, sensors, n)[k];
                &&& deadline is Some
                &&& in_window(events, i, deadline.unwrap(), r.position)
                &&& r.event == occupied(events[r.position])
            },
    decreases n,
{
    if n > 0 {
        lemma_move_positions(events, i, deadline, sensors, n - 1);
        match deadline {
            Some(d) => {
                lemma_window_positions(
                    events,
                    i,
                    d,
                    message_id(sensors[n - 1]),
                    events.len() as int,
                );
            },
            None => {},
        }
    }
}

/// Every replacement of a scan names a position of the timeline and holds the
/// event of that position, rewritten.
pub proof fn lemma_replacement_positions(
    events: Seq<EventView>,
    waypoints: Seq<Seq<Waypoint>>,
    sensors: Seq<Seq<SensorView>>,
    n: int,
)
    ensures
        forall|k: int|
            0 <= k < replacements_of(events, waypoints, sensors, n).len() ==> {
                let r = #[trigger] replacements_of(events, waypoints, sensors, n)[k];
                &&& 0 <= r.position < events.len()
                &&& r.event == occupied(events[r.position])
            },
    decreases n,
{
    if n > 0 {
        lemma_replacement_positions(events, waypoints, sensors, n - 1);
        match (events[n - 1].action, parse_move_id(events[n - 1].entity_id)) {
            (ActionView::Move(destination), Some(id)) => {
                let here = sensors_at(sensors, destination);
                lemma_move_positions(
                    events,
                    n - 1,
                    deadline_of(waypoints, id),
                    here,
                    here.len() as int,
                );
            },
            _ => {},
        }
    }
}

/// Scans the timeline and computes the changes that its moves call for.
///
/// The scan stops at the first move whose identifier does not follow the
/// grammar, and reports its position. The delay of each arrival message is
/// drawn at random, so the contract states its range and fixes everything
/// else.
pub fn synthesize(
    events: &Vec<Event>,
    waypoints: &Vec<Vec<Waypoint>>,
    sensors: &Vec<Vec<Sensor>>,
) -> (r: Result<ChangeSet, Error>)
    ensures
        match r {
            Ok(changes) => {
                &&& forall|k: int| !malformed_move_at(views(events@), k)
                &&& announces(
                    changes@.new_events,
                    arrivals_of(views(events@), sensor_rows(sensors@), events.len() as int),
                )
                &&& changes@.replacements == replacements_of(
                    views(events@),
                    waypoint_rows(waypoints@),
                    sensor_rows(sensors@),
                    events.len() as int,
                )
                &&& fits(changes@, events.len() as int)
            },
            Err(Error::MalformedIdentifier { position }) => is_first_malformed_move(
                views(events@),
                position as int,
            ),
        },
{
    let ghost vs = views(events@);
    let ghost ws = waypoint_rows(waypoints@);
    let ghost ss = sensor_rows(sensors@);
    let mut rng = rand::thread_rng();
    let mut changes = ChangeSet { new_events: Vec::new(), replacements: Vec::new() };
    let nowhere: Vec<Sensor> = Vec::new();
    let mut i: usize = 0;
    assert(changes@.replacements =~= Seq::<ReplacementView>::empty());
    assert(changes@.new_events =~= Seq::<EventView>::empty());
    while i < events.len()
        invariant
            i <= events.len(),
            vs == views(events@),
            ws == waypoint_rows(waypoints@),
            ss == sensor_rows(sensors@),
            nowhere@.len() == 0,
            forall|k: int| 0 <= k < i ==> !malformed_move_at(vs, k),
            announces(changes@.new_events, arrivals_of(vs, ss, i as int)),
            changes@.replacements == replacements_of(vs, ws, ss, i as int),
        decreases events.len() - i,
    {
        assert(vs[i as int] == events@[i as int]@);
        match &events[i].action {
            Action::Move(destination) => {
                let id_chars = chars_of(events[i].entity_id.as_str());
                let id = match parse_move_id_of(&id_chars) {
                    Some(id) => id,
                    None => {
                        return Err(Error::MalformedIdentifier { position: i });
                    },
                };
                let here: &Vec<Sensor> = if *destination < sensors.len() {
                    &sensors[*destination]
                } else {
                    &nowhere
                };
                proof {
                    if *destination < sensors.len() {
                        assert(ss[*destination as int] == sensor_views(here@));
                    } else {
                        assert(sensor_views(here@) =~= Seq::<SensorView>::empty());
                    }
                    assert(sensors_at(ss, *destination as int) == sensor_views(here@));
                }
                let limit = deadline(waypoints, id);
                announce_move(
                    events,
                    i,
                    here,
                    limit,
                    &mut rng,
                    &mut changes,
                    Ghost(arrivals_of(vs, ss, i as int)),
                );
            },
            _ => {},
        }
        i += 1;
    }
    proof {
        assert forall|k: int| !malformed_move_at(vs, k) by {
            if 0 <= k < events.len() {
                assert(!malformed_move_at(vs, k));
            }
        }
        lemma_replacement_positions(vs, ws, ss, events.len() as int);
    }
    Ok(changes)
}

/// Makes the changes to the timeline: every replacement in place, then the
/// new events behind the last event.
pub fn apply_changes(event_list: &mut EventList, changes: &ChangeSet)
    requires
        fits(changes@, old(event_list)@.len() as int),
    ensures
        final(event_list)@ == merged(old(event_list)@, changes@),
{
    let ghost start = event_list@;
    let ghost cs = changes@;
    let mut k: usize = 0;
    while k < changes.replacements.len()
        invariant
            k <= changes.replacements.len(),
            cs == changes@,
            fits(cs, start.len() as int),
            event_list@.len() == start.len(),
            event_list@ == replaced(start, cs.replacements, k as int),
        decreases changes.replacements.len() - k,
    {
        let r = &changes.replacements[k];
        assert(cs.replacements[k as int] == r@);
        event_list.replace_at(r.position, r.event.duplicate());
        k += 1;
    }
    let ghost middle = event_list@;
    let mut n: usize = 0;
    while n < changes.new_events.len()
        invariant
            n <= changes.new_events.len(),
            cs == changes@,
            event_list@ == middle + cs.new_events.take(n as int),
        decreases changes.new_events.len() - n,
    {
        assert(cs.new_events[n as int] == changes.new_events[n as int]@);
        event_list.add_event(changes.new_events[n].duplicate());
        n += 1;
        assert(cs.new_events.take(n as int) =~= cs.new_events.take(n - 1).push(
            cs.new_events[n - 1],
        ));
    }
    assert(cs.new_events.take(changes.new_events.len() as int) =~= cs.new_events);
}

/// Derives the occupancy messages of a timeline and puts them into it.
///
/// A timeline with a malformed move stays as it is.
pub fn create_uplink_message(
    event_list: &mut EventList,
    waypoints: &Vec<Vec<Waypoint>>,
    sensors: &Vec<Vec<Sensor>>,
) -> (r: Result<(), Error>)
    ensures
        match r {
            Ok(_) => {
                &&& forall|k: int| !malformed_move_at(old(event_list)@, k)
                &&& exists|new_events: Seq<EventView>|
                    {
                        &&& announces(
                            new_events,
                            arrivals_of(
                                old(event_list)@,
                                sensor_rows(sensors@),
                                old(event_list)@.len() as int,
                            ),
                        )
                        &&& final(event_list)@ == #[trigger] merged(
                            old(event_list)@,
                            ChangeSetView {
                                new_events,
                                replacements: replacements_of(
                                    old(event_list)@,
                                    waypoint_rows(waypoints@),
                                    sensor_rows(sensors@),
                                    old(event_list)@.len() as int,
                                ),
                            },
                        )
                    }
            },
            Err(Error::MalformedIdentifier { position }) => {
                &&& is_first_malformed_move(old(event_list)@, position as int)
                &&& final(event_list)@ == old(event_list)@
            },
        },
{
    match synthesize(&event_list.events, waypoints, sensors) {
        Ok(changes) => {
            apply_changes(event_list, &changes);
            assert(changes@ == ChangeSetView {
                new_events: changes@.new_events,
                replacements: changes@.replacements,
            });
            Ok(())
        },
        Err(e) => Err(e),
    }
}

/// No replacement of a move is scheduled for an event that is later than the
/// arrival at the next waypoint, and a move without a next waypoint
/// schedules none. The arrivals that a move reports do not depend on the
/// waypoints at all.
pub proof fn lemma_window_bounded(
    events: Seq<EventView>,
    i: int,
    deadline: Option<int>,
    sensors: Seq<SensorView>,
    n: int,
)
    ensures
        deadline is None ==> move_replacements(events, i, deadline, sensors, n).len() == 0,
        forall|k: int|
            0 <= k < move_replacements(events, i, deadline, sensors, n).len() ==> {
                let r = #[trigger] move_replacements(events, i, deadline, sensors, n)[k];
                &&& deadline is Some
                &&& i < r.position < events.len()
                &&& events[r.position].timestamp <= deadline.unwrap()
            },
{
    lemma_move_positions(events, i, deadline, sensors, n);
    let all = move_replacements(events, i, deadline, sensors, n);
    if all.len() > 0 {
        assert(deadline is Some) by {
            let r = all[0];
        }
    }
    assert forall|k: int| 0 <= k < all.len() implies {
        let r = #[trigger] all[k];
        &&& deadline is Some
        &&& i < r.position < events.len()
        &&& events[r.position].timestamp <= deadline.unwrap()
    } by {
        let r = all[k];
        assert(in_window(events, i, deadline.unwrap(), r.position));
        assert(events[r.position].timestamp <= deadline.unwrap());
    }
}

/// No move of the timeline has a next waypoint in the table.
pub open spec fn all_stays_open(events: Seq<EventView>, waypoints: Seq<Seq<Waypoint>>) -> bool {
    forall|i: int|
        0 <= i < events.len() && (#[trigger] events[i]).action is Move ==> match parse_move_id(
            events[i].entity_id,
        ) {
            Some(id) => deadline_of(waypoints, id) is None,
            None => true,
        }
}

/// Where no move has a next waypoint, the scan schedules no replacement.
pub proof fn lemma_open_stays_replace_nothing(
    events: Seq<EventView>,
    waypoints: Seq<Seq<Waypoint>>,
    sensors: Seq<Seq<SensorView>>,
    n: int,
)
    requires
        all_stays_open(events, waypoints),
        n <= events.len(),
    ensures
        replacements_of(events, waypoints, sensors, n).len() == 0,
    decreases n,
{
    if n > 0 {
        lemma_open_stays_replace_nothing(events, waypoints, sensors, n - 1);
        match (events[n - 1].action, parse_move_id(events[n - 1].entity_id)) {
            (ActionView::Move(destination), Some(id)) => {
                let here = sensors_at(sensors, destination);
                assert(events[n - 1].action is Move);
                lemma_window_bounded(events, n - 1, deadline_of(waypoints, id), here, here.len() as int);
            },
            _ => {},
        }
    }
}

/// Every replacement names a position of the timeline and holds the event of
/// that position, rewritten to report presence.
pub open spec fn derived_from(replacements: Seq<ReplacementView>, events: Seq<EventView>) -> bool {
    forall|k: int|
        0 <= k < replacements.len() ==> {
            let r = #[trigger] replacements[k];
            &&& 0 <= r.position < events.len()
            &&& r.event == occupied(events[r.position])
        }
}

/// One of the first `n` replacements names the position `p`.
pub open spec fn scheduled(replacements: Seq<ReplacementView>, n: int, p: int) -> bool {
    exists|k: int| 0 <= k < n && (#[trigger] replacements[k]).position == p
}

/// Replacements that are derived from the timeline change the scheduled
/// positions and nothing else.
pub proof fn lemma_replaced(events: Seq<EventView>, replacements: Seq<ReplacementView>, n: int)
    requires
        derived_from(replacements, events),
        n <= replacements.len(),
    ensures
        replaced(events, replacements, n).len() == events.len(),
        forall|p: int|
            0 <= p < events.len() ==> #[trigger] replaced(events, replacements, n)[p] == if scheduled(
                replacements,
                n,
                p,
            ) {
                occupied(events[p])
            } else {
                events[p]
            },
    decreases n,
{
    if n > 0 {
        lemma_replaced(events, replacements, n - 1);
        let before = replaced(events, replacements, n - 1);
        let r = replacements[n - 1];
        assert forall|p: int| 0 <= p < events.len() implies #[trigger] replaced(
            events,
            replacements,
            n,
        )[p] == if scheduled(replacements, n, p) {
            occupied(events[p])
        } else {
            events[p]
        } by {
            if p == r.position {
                assert(scheduled(replacements, n, p));
            } else if scheduled(replacements, n - 1, p) {
                let k = choose|k: int| 0 <= k < n - 1 && (#[trigger] replacements[k]).position == p;
                assert(0 <= k < n && replacements[k].position == p);
            } else {
                assert(before[p] == events[p]);
                if scheduled(replacements, n, p) {
                    let k = choose|k: int| 0 <= k < n && (#[trigger] replacements[k]).position == p;
                    assert(k < n - 1);
                }
            }
        }
    } else {
        assert forall|p: int| 0 <= p < events.len() implies !scheduled(replacements, n, p) by {}
    }
}

/// Taking changes that are derived from the timeline drops no event and adds
/// none twice: the timeline grows by the new events, which follow in order
/// behind the events that were there; each of those keeps its place, its
/// entity and its time; a scheduled position holds its own event, rewritten,
/// and every other position holds its event unchanged.
pub proof fn lemma_merge_safety(events: Seq<EventView>, changes: ChangeSetView)
    requires
        derived_from(changes.replacements, events),
    ensures
        merged(events, changes).len() == events.len() + changes.new_events.len(),
        forall|p: int|
            0 <= p < events.len() ==> {
                let after = #[trigger] merged(events, changes)[p];
                &&& after.entity_id == events[p].entity_id
                &&& after.timestamp == events[p].timestamp
                &&& after == if scheduled(
                    changes.replacements,
                    changes.replacements.len() as int,
                    p,
                ) {
                    occupied(events[p])
                } else {
                    events[p]
                }
            },
        forall|m: int|
            0 <= m < changes.new_events.len() ==> #[trigger] merged(events, changes)[events.len()
                + m] == changes.new_events[m],
{
    lemma_replaced(events, changes.replacements, changes.replacements.len() as int);
    let middle = replaced(events, changes.replacements, changes.replacements.len() as int);
    assert forall|p: int| 0 <= p < events.len() implies {
        let after = #[trigger] merged(events, changes)[p];
        &&& after.entity_id == events[p].entity_id
        &&& after.timestamp == events[p].timestamp
        &&& after == if scheduled(changes.replacements, changes.replacements.len() as int, p) {
            occupied(events[p])
        } else {
            events[p]
        }
    } by {
        assert(merged(events, changes)[p] == middle[p]);
    }
}

/// The changes of a scan are derived from its timeline, so the timeline can
/// take them safely, whatever the delays of the arrival messages are.
pub proof fn lemma_scan_merges_safely(
    events: Seq<EventView>,
    waypoints: Seq<Seq<Waypoint>>,
    sensors: Seq<Seq<SensorView>>,
)
    ensures
        derived_from(
            replacements_of(events, waypoints, sensors, events.len() as int),
            events,
        ),
{
    lemma_replacement_positions(events, waypoints, sensors, events.len() as int);
}

} // verus!
