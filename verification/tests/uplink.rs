use building_automation::error::Error;
use building_automation::event::{Action, Event, EventList};
use building_automation::identifier::MoveId;
use building_automation::sensor::{Sensor, SensorType};
use building_automation::uplink::{
    apply_changes, arrival_event, create_uplink_message, deadline, message_id_of, occupied_event,
    synthesize, ChangeSet, Replacement, Waypoint, JITTER_BOUND,
};

const PRESENCE: &str = "Sensor_R0_no._1_of_type_SensorType_1";
const PRESENCE_EVENTS: &str = "Message_of_2_Sensor_R0_no._1_of_type_SensorType_1";
const LIGHT: &str = "Sensor_R0_no._0_of_type_SensorType_0";
const LIGHT_EVENTS: &str = "Message_of_1_Sensor_R0_no._0_of_type_SensorType_0";

fn message(id: &str, time: u32, payload: &str) -> Event {
    Event::new(id.to_string(), time, Action::Message(payload.to_string()))
}

fn movement(id: &str, time: u32, destination: usize) -> Event {
    Event::new(id.to_string(), time, Action::Move(destination))
}

fn sensor(id: &str, type_id: &str, number: i64) -> Sensor {
    Sensor::new(id.to_string(), SensorType::new(type_id.to_string()), number)
}

fn sensors() -> Vec<Vec<Sensor>> {
    vec![
        vec![sensor(LIGHT, "SensorType_0", 1), sensor(PRESENCE, "SensorType_1", 2)],
        vec![],
    ]
}

fn stop(step_index: usize, arrival: u32, location: usize) -> Waypoint {
    Waypoint { step_index, arrival, location }
}

fn timeline() -> Vec<Event> {
    vec![
        movement("Movable_object_0_step.0", 1000, 0),
        message(PRESENCE_EVENTS, 1500, "occupancy:false"),
        message(LIGHT_EVENTS, 2000, "light:Off"),
        message(PRESENCE_EVENTS, 5000, "occupancy:false"),
        message(PRESENCE_EVENTS, 5001, "occupancy:false"),
        message(PRESENCE_EVENTS, 4000, "occupancy:false"),
    ]
}

fn occupied(id: &str, time: u32) -> Event {
    message(id, time, "occupancy:true")
}

#[test]
fn arrival_is_reported_and_the_window_rewritten() {
    let events = timeline();
    let waypoints = vec![vec![stop(0, 1000, 0), stop(1, 5000, 1)]];
    let changes = synthesize(&events, &waypoints, &sensors()).unwrap();
    assert_eq!(
        changes.replacements,
        vec![
            Replacement { position: 1, event: occupied(PRESENCE_EVENTS, 1500) },
            Replacement { position: 3, event: occupied(PRESENCE_EVENTS, 5000) },
        ]
    );
    assert_eq!(changes.new_events.len(), 1);
    let arrival = &changes.new_events[0];
    assert_eq!(arrival.entity_id, PRESENCE_EVENTS);
    assert_eq!(arrival.action, Action::Message("occupancy:true".to_string()));
    assert!(1000 <= arrival.timestamp && arrival.timestamp < 1000 + JITTER_BOUND);
}

#[test]
fn no_replacement_is_later_than_the_next_arrival() {
    let events = timeline();
    for limit in [0u32, 1499, 1500, 1999, 2000, 4999, 5000, 5001, 9000] {
        let waypoints = vec![vec![stop(0, 1000, 0), stop(1, limit, 1)]];
        let changes = synthesize(&events, &waypoints, &sensors()).unwrap();
        for r in &changes.replacements {
            assert!(events[r.position].timestamp <= limit);
            assert!(r.position > 0);
            assert_eq!(r.event, occupied(PRESENCE_EVENTS, events[r.position].timestamp));
        }
        assert_eq!(changes.new_events.len(), 1);
    }
    let all = synthesize(&events, &vec![vec![stop(0, 0, 0), stop(1, 9000, 1)]], &sensors())
        .unwrap();
    assert_eq!(
        all.replacements.iter().map(|r| r.position).collect::<Vec<usize>>(),
        vec![1, 3, 4, 5]
    );
}

#[test]
fn the_window_ends_at_the_first_later_event() {
    let events = timeline();
    let waypoints = vec![vec![stop(0, 1000, 0), stop(1, 1999, 1)]];
    let changes = synthesize(&events, &waypoints, &sensors()).unwrap();
    assert_eq!(
        changes.replacements.iter().map(|r| r.position).collect::<Vec<usize>>(),
        vec![1]
    );
}

#[test]
fn end_of_itinerary_reports_the_arrival_and_rewrites_nothing() {
    let events = timeline();
    for waypoints in [
        vec![vec![stop(0, 1000, 0)]],
        vec![vec![]],
        vec![],
    ] {
        let changes = synthesize(&events, &waypoints, &sensors()).unwrap();
        assert!(changes.replacements.is_empty());
        assert_eq!(changes.new_events.len(), 1);
        assert_eq!(changes.new_events[0].entity_id, PRESENCE_EVENTS);
    }
}

#[test]
fn every_presence_sensor_of_the_destination_reports() {
    let second = "Sensor_R0_no._2_of_type_SensorType_1";
    let table = vec![vec![
        sensor(PRESENCE, "SensorType_1", 2),
        sensor(LIGHT, "SensorType_0", 1),
        sensor(second, "SensorType_1", -3),
        sensor("odd", "SensorType_10", 4),
    ]];
    let events = vec![movement("Movable_object_0_step.0", 86_399_999, 0)];
    let changes = synthesize(&events, &Vec::new(), &table).unwrap();
    assert_eq!(changes.new_events.len(), 2);
    assert_eq!(changes.new_events[0].entity_id, PRESENCE_EVENTS);
    assert_eq!(
        changes.new_events[1].entity_id,
        "Message_of_-3_Sensor_R0_no._2_of_type_SensorType_1"
    );
    for e in &changes.new_events {
        assert!(e.timestamp == 86_399_999 || e.timestamp < JITTER_BOUND - 1);
    }
}

#[test]
fn a_move_to_an_unknown_location_reports_nothing() {
    let events = vec![movement("Movable_object_0_step.0", 10, 7)];
    let changes = synthesize(&events, &Vec::new(), &sensors()).unwrap();
    assert_eq!(changes, ChangeSet { new_events: Vec::new(), replacements: Vec::new() });
}

#[test]
fn a_move_at_the_end_of_the_timeline_has_an_empty_window() {
    let events = vec![
        message(PRESENCE_EVENTS, 10, "occupancy:false"),
        movement("Movable_object_0_step.0", 20, 0),
    ];
    let waypoints = vec![vec![stop(0, 20, 0), stop(1, 90, 1)]];
    let changes = synthesize(&events, &waypoints, &sensors()).unwrap();
    assert!(changes.replacements.is_empty());
    assert_eq!(changes.new_events.len(), 1);
}

#[test]
fn events_of_other_kinds_are_rewritten_too() {
    let events = vec![
        movement("Movable_object_0_step.0", 0, 0),
        Event::new(PRESENCE_EVENTS.to_string(), 5, Action::Other),
        movement(PRESENCE_EVENTS, 6, 9),
    ];
    let waypoints = vec![vec![stop(0, 0, 0), stop(1, 5, 1)]];
    let changes = synthesize(&events, &waypoints, &sensors());
    assert_eq!(changes, Err(Error::MalformedIdentifier { position: 2 }));
    let changes = synthesize(&events[..2].to_vec(), &waypoints, &sensors()).unwrap();
    assert_eq!(
        changes.replacements,
        vec![Replacement { position: 1, event: occupied(PRESENCE_EVENTS, 5) }]
    );
}

#[test]
fn malformed_move_is_reported_with_its_position() {
    let events = vec![
        message(LIGHT_EVENTS, 0, "light:On"),
        movement("Movable_object_0_step.0", 1, 0),
        movement("object_0_step.0", 2, 0),
        movement("nothing", 3, 0),
    ];
    assert_eq!(
        synthesize(&events, &Vec::new(), &sensors()),
        Err(Error::MalformedIdentifier { position: 2 })
    );
    let mut list = EventList::new(events.clone());
    assert_eq!(
        create_uplink_message(&mut list, &Vec::new(), &sensors()),
        Err(Error::MalformedIdentifier { position: 2 })
    );
    assert_eq!(list.events, events);
}

#[test]
fn merging_keeps_every_event_in_its_place() {
    let events = timeline();
    let waypoints = vec![vec![stop(0, 1000, 0), stop(1, 5000, 1)]];
    let mut list = EventList::new(events.clone());
    create_uplink_message(&mut list, &waypoints, &sensors()).unwrap();
    assert_eq!(list.len(), events.len() + 1);
    for (p, before) in events.iter().enumerate() {
        let after = &list.events[p];
        assert_eq!(after.entity_id, before.entity_id);
        assert_eq!(after.timestamp, before.timestamp);
        if p == 1 || p == 3 {
            assert_eq!(after.action, Action::Message("occupancy:true".to_string()));
        } else {
            assert_eq!(after, before);
        }
    }
    let added = &list.events[events.len()];
    assert_eq!(added.entity_id, PRESENCE_EVENTS);
    assert!(1000 <= added.timestamp && added.timestamp < 2000);
}

#[test]
fn changes_are_applied_in_order() {
    let mut list = EventList::new(vec![message("a", 0, "x"), message("b", 1, "y")]);
    let changes = ChangeSet {
        new_events: vec![message("c", 2, "z"), message("d", 3, "w")],
        replacements: vec![
            Replacement { position: 1, event: message("b", 1, "first") },
            Replacement { position: 1, event: message("b", 1, "second") },
        ],
    };
    apply_changes(&mut list, &changes);
    assert_eq!(
        list.events,
        vec![
            message("a", 0, "x"),
            message("b", 1, "second"),
            message("c", 2, "z"),
            message("d", 3, "w"),
        ]
    );
}

#[test]
fn timeline_is_copied_appended_to_and_replaced_in() {
    let mut list = EventList::new(vec![message("a", 0, "x")]);
    let copy = list.get_event_list_copy();
    assert_eq!(copy, list.events);
    list.add_event(message("b", 1, "y"));
    list.replace_at(0, message("c", 2, "z"));
    assert_eq!(list.events, vec![message("c", 2, "z"), message("b", 1, "y")]);
    assert_eq!(copy, vec![message("a", 0, "x")]);
    assert_eq!(list.len(), 2);
    assert_eq!(list.events[0].get_id(), "c");
    assert_eq!(list.events[0].get_time(), 2);
    assert_eq!(list.events[1].duplicate(), message("b", 1, "y"));
}

#[test]
fn arrival_message_is_delayed_and_wraps_at_midnight() {
    assert_eq!(arrival_event("s".to_string(), 1000, 0), occupied("s", 1000));
    assert_eq!(arrival_event("s".to_string(), 1000, 999), occupied("s", 1999));
    assert_eq!(arrival_event("s".to_string(), 86_399_500, 499), occupied("s", 86_399_999));
    assert_eq!(arrival_event("s".to_string(), 86_399_500, 500), occupied("s", 0));
    assert_eq!(arrival_event("s".to_string(), 86_399_500, 700), occupied("s", 200));
    assert_eq!(
        arrival_event("s".to_string(), u32::MAX, u32::MAX),
        occupied("s", ((2 * (u32::MAX as u64)) % 86_400_000) as u32)
    );
}

#[test]
fn rewritten_event_keeps_entity_and_time() {
    assert_eq!(occupied_event(&movement("s", 77, 3)), occupied("s", 77));
    assert_eq!(occupied_event(&message("s", 78, "occupancy:false")), occupied("s", 78));
}

#[test]
fn message_identifier_is_made_from_number_and_sensor() {
    let id: String = message_id_of(&sensor(PRESENCE, "SensorType_1", 2)).iter().collect();
    assert_eq!(id, PRESENCE_EVENTS);
    let id: String = message_id_of(&sensor("x", "t", -40)).iter().collect();
    assert_eq!(id, "Message_of_-40_x");
}

#[test]
fn deadline_is_the_arrival_at_the_next_stop() {
    let table = vec![vec![stop(0, 10, 0), stop(1, 20, 1), stop(2, 30, 0)], vec![]];
    assert_eq!(deadline(&table, MoveId { entity: 0, step: 0 }), Some(20));
    assert_eq!(deadline(&table, MoveId { entity: 0, step: 1 }), Some(30));
    assert_eq!(deadline(&table, MoveId { entity: 0, step: 2 }), None);
    assert_eq!(deadline(&table, MoveId { entity: 0, step: usize::MAX }), None);
    assert_eq!(deadline(&table, MoveId { entity: 1, step: 0 }), None);
    assert_eq!(deadline(&table, MoveId { entity: 2, step: 0 }), None);
}

#[test]
fn sensors_are_read_and_renamed() {
    let mut s = sensor("a", "SensorType_1", 5);
    assert!(s.detects_occupancy());
    assert_eq!(s.get_id(), "a");
    assert_eq!(s.get_number(), 5);
    assert_eq!(s.get_sensor_type().get_id(), "SensorType_1");
    s.set_id("b".to_string());
    assert_eq!(s, sensor("b", "SensorType_1", 5));
    assert_eq!(s.duplicate(), s);
    assert!(!sensor("a", "SensorType_10", 5).detects_occupancy());
    assert!(!sensor("SensorType_1", "SensorType_0", 5).detects_occupancy());
}
