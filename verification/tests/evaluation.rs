use building_automation::error::Error;
use building_automation::evaluation::{
    baseline, find_successor, mean, to_microwatt_hours, Bucket, Evaluation, Report,
};
use building_automation::event::{is_chronological, Action, Event, EventList};
use building_automation::identifier::{Category, LightState};

const LIGHT_R0: &str = "Message_of_3_Sensor_RwnD0_no._0_of_type_SensorType_0";
const LIGHT_R1: &str = "Message_of_7_Sensor_RwnD1_no._0_of_type_SensorType_0";
const LIGHT_SUB: &str = "Message_of_9_Sensor_RwnD0_RwD1_sub_no._0_of_type_SensorType_0";
const PRESENCE_R0: &str = "Message_of_4_Sensor_RwnD0_no._1_of_type_SensorType_1";

fn message(id: &str, time: u32, payload: &str) -> Event {
    Event::new(id.to_string(), time, Action::Message(payload.to_string()))
}

fn profile() -> Evaluation {
    Evaluation::new(
        vec![1000, 1000],
        vec![vec![45_000, 0, 0], vec![40_000, 20_000, 0]],
    )
}

fn bucket(location: &str, energy: u128) -> Bucket {
    Bucket { location: location.to_string(), energy }
}

#[test]
fn pairing_attributes_the_interval_to_the_location() {
    let events = vec![message(LIGHT_R0, 1000, "X:On"), message(LIGHT_R0, 5000, "X:Off")];
    let tally = profile().pair_durations(&events).unwrap();
    assert_eq!(tally.room_total, 40_000 * 4000);
    assert_eq!(tally.sub_room_total, 0);
    assert_eq!(tally.rooms, vec![bucket("RwnD0", 160_000_000)]);
    assert!(tally.sub_rooms.is_empty());
}

#[test]
fn interval_without_successor_adds_nothing() {
    let events = vec![message(LIGHT_R0, 1000, "X:On")];
    let tally = profile().pair_durations(&events).unwrap();
    assert_eq!(tally.room_total, 0);
    assert!(tally.rooms.is_empty());
    assert_eq!(find_successor(&events, 0), None);
}

#[test]
fn successor_is_the_next_event_of_the_same_identifier() {
    let events = vec![
        message(LIGHT_R0, 0, "X:On"),
        message(LIGHT_R1, 10, "X:On"),
        Event::new(LIGHT_R0.to_string(), 20, Action::Other),
        message(LIGHT_R0, 30, "X:Off"),
    ];
    assert_eq!(find_successor(&events, 0), Some(2));
    assert_eq!(find_successor(&events, 1), None);
    assert_eq!(find_successor(&events, 2), Some(3));
    assert_eq!(find_successor(&events, 3), None);
}

#[test]
fn an_event_of_any_kind_closes_the_interval() {
    let events = vec![
        message(LIGHT_R0, 0, "X:On"),
        Event::new(LIGHT_R0.to_string(), 2000, Action::Other),
    ];
    let tally = profile().pair_durations(&events).unwrap();
    assert_eq!(tally.rooms, vec![bucket("RwnD0", 80_000_000)]);
}

#[test]
fn sub_rooms_and_rooms_are_kept_apart() {
    let events = vec![
        message(LIGHT_SUB, 0, "X:On"),
        message(LIGHT_R0, 0, "X:On"),
        message(LIGHT_SUB, 1000, "X:Off"),
        message(LIGHT_R0, 2000, "X:Off"),
    ];
    let tally = profile().pair_durations(&events).unwrap();
    assert_eq!(tally.sub_room_total, 45_000 * 1000);
    assert_eq!(tally.room_total, 40_000 * 2000);
    assert_eq!(tally.sub_rooms, vec![bucket("RwnD0_RwD1_sub", 45_000_000)]);
    assert_eq!(tally.rooms, vec![bucket("RwnD0", 80_000_000)]);
}

#[test]
fn sub_room_stays_a_sub_room_whatever_else_the_identifier_holds() {
    for id in [
        "Sensor_Rsub_no._0_of_type_SensorType_0",
        "Message_of_12_Sensor_Rsub_no._44_of_type_SensorType_3",
        "xSensor_Rsub_no.",
    ] {
        let events = vec![message(id, 0, "X:On"), message(id, 1000, "X:Off")];
        let tally = profile().pair_durations(&events).unwrap();
        assert_eq!(tally.sub_rooms, vec![bucket("Rsub", 45_000_000)]);
        assert!(tally.rooms.is_empty());
        assert_eq!(tally.room_total, 0);
    }
}

#[test]
fn presence_only_sensors_are_left_out() {
    for payload in ["X:On", "occupancy:true", "no separator", "X:Dim,"] {
        let events = vec![
            message(PRESENCE_R0, 0, payload),
            message(PRESENCE_R0, 4000, payload),
        ];
        let tally = profile().pair_durations(&events).unwrap();
        assert_eq!(tally.room_total, 0);
        assert_eq!(tally.sub_room_total, 0);
        assert!(tally.rooms.is_empty());
        assert!(tally.sub_rooms.is_empty());
    }
}

#[test]
fn presence_only_sensor_needs_no_location() {
    let events = vec![message("SensorType_1", 0, "X:On")];
    assert!(profile().pair_durations(&events).is_ok());
}

#[test]
fn payload_without_separator_is_inert() {
    let events = vec![message(LIGHT_R0, 0, "On"), message(LIGHT_R0, 1000, "Off")];
    let tally = profile().pair_durations(&events).unwrap();
    assert!(tally.rooms.is_empty());
    assert_eq!(tally.room_total, 0);
}

#[test]
fn unknown_state_opens_a_bucket_without_energy() {
    let events = vec![message(LIGHT_R0, 0, "X:Blink"), message(LIGHT_R0, 1000, "X:Off")];
    let tally = profile().pair_durations(&events).unwrap();
    assert_eq!(tally.rooms, vec![bucket("RwnD0", 0)]);
    assert_eq!(tally.room_total, 0);
}

#[test]
fn commas_are_dropped_from_the_state() {
    let events = vec![
        message(LIGHT_R0, 0, "Downlink:Dim,"),
        message(LIGHT_R0, 3000, "Downlink:O,f,f"),
        message(LIGHT_R0, 4000, "Downlink:On,more:1"),
        message(LIGHT_R0, 5000, "x"),
    ];
    let tally = profile().pair_durations(&events).unwrap();
    assert_eq!(tally.rooms, vec![bucket("RwnD0", 20_000 * 3000)]);
}

#[test]
fn energy_of_a_location_is_summed() {
    let events = vec![
        message(LIGHT_R0, 0, "X:On"),
        message(LIGHT_R1, 500, "X:Dim"),
        message(LIGHT_R0, 1000, "X:Dim"),
        message(LIGHT_R1, 1500, "X:Off"),
        message(LIGHT_R0, 3000, "X:Off"),
    ];
    let tally = profile().pair_durations(&events).unwrap();
    assert_eq!(
        tally.rooms,
        vec![
            bucket("RwnD0", 40_000 * 1000 + 20_000 * 2000),
            bucket("RwnD1", 20_000 * 1000),
        ]
    );
    assert_eq!(tally.room_total, 40_000 * 1000 + 20_000 * 2000 + 20_000 * 1000);
}

#[test]
fn malformed_identifier_is_reported_with_its_position() {
    let events = vec![
        message(LIGHT_R0, 0, "X:On"),
        message("Sensor_RwnD0_of_type_SensorType_0", 10, "X:On"),
        message("RwnD0_no._0", 20, "X:On"),
    ];
    assert_eq!(
        profile().pair_durations(&events),
        Err(Error::MalformedIdentifier { position: 1 })
    );
    assert_eq!(
        profile().calculate_consumption(&EventList::new(events)),
        Err(Error::MalformedIdentifier { position: 1 })
    );
}

#[test]
fn malformed_identifier_counts_even_with_an_inert_payload() {
    let events = vec![message("no markers", 0, "inert")];
    assert_eq!(
        profile().pair_durations(&events),
        Err(Error::MalformedIdentifier { position: 0 })
    );
}

#[test]
fn moves_are_passed_over() {
    let events = vec![Event::new("anything".to_string(), 0, Action::Move(3))];
    let tally = profile().pair_durations(&events).unwrap();
    assert!(tally.rooms.is_empty() && tally.sub_rooms.is_empty());
}

#[test]
fn empty_timeline_has_no_means() {
    let report = profile().calculate_consumption(&EventList::new(Vec::new())).unwrap();
    assert_eq!(
        report,
        Report {
            baseline_class_0: 0,
            baseline_class_1: 0,
            mean_room: None,
            mean_sub_room: None,
            rooms: Vec::new(),
            sub_rooms: Vec::new(),
        }
    );
}

#[test]
fn report_states_means_and_baselines() {
    let events = vec![
        message(LIGHT_SUB, 0, "X:On"),
        message(LIGHT_R0, 0, "X:On"),
        message(LIGHT_R1, 0, "X:Dim"),
        message(LIGHT_SUB, 1000, "X:Off"),
        message(LIGHT_R0, 2000, "X:Off"),
        message(LIGHT_R1, 9000, "X:Off"),
    ];
    let report = profile().calculate_consumption(&EventList::new(events)).unwrap();
    assert_eq!(report.baseline_class_0, 1000 * 1000 * 3 / 365);
    assert_eq!(report.baseline_class_1, 1000 * 1000 * 2 * 3 / 365);
    assert_eq!(report.mean_room, Some((80_000_000 + 180_000_000) / 2 / 3600));
    assert_eq!(report.mean_sub_room, Some(45_000_000 / 3600));
    assert_eq!(
        report.rooms,
        vec![bucket("RwnD0", 80_000_000 / 3600), bucket("RwnD1", 180_000_000 / 3600)]
    );
    assert_eq!(report.sub_rooms, vec![bucket("RwnD0_RwD1_sub", 45_000_000 / 3600)]);
}

#[test]
fn report_of_a_tally_divides_once() {
    let tally = profile()
        .pair_durations(&vec![message(LIGHT_R0, 0, "X:On"), message(LIGHT_R0, 90, "X:Off")])
        .unwrap();
    let report = profile().report(&tally);
    assert_eq!(report.rooms, vec![bucket("RwnD0", 1000)]);
    assert_eq!(report.mean_room, Some(1000));
    assert_eq!(report.mean_sub_room, None);
}

#[test]
fn two_runs_give_the_same_report() {
    let events = EventList::new(vec![
        message(LIGHT_SUB, 0, "X:On"),
        message(LIGHT_R0, 0, "X:On"),
        message(LIGHT_SUB, 1000, "X:Off"),
        message(LIGHT_R0, 2000, "X:Off"),
    ]);
    let first = profile().calculate_consumption(&events).unwrap();
    let second = profile().calculate_consumption(&events).unwrap();
    assert_eq!(first, second);
    assert_eq!(first.render(), second.render());
}

#[test]
fn end_to_end_scenario_reports_one_room() {
    let light = "Message_of_1_Sensor_R0_no._0_of_type_SensorType_0";
    let presence = "Message_of_2_Sensor_R0_no._1_of_type_SensorType_1";
    let events = EventList::new(vec![
        Event::new("Movable_object_0_move_no.0".to_string(), 1000, Action::Move(0)),
        message(presence, 1000, "occupancy:true"),
        message(light, 1000, "Downlink:On"),
        Event::new("Movable_object_0_move_no.1".to_string(), 5000, Action::Move(1)),
        message(presence, 5000, "occupancy:false"),
        message(light, 5000, "Downlink:Off"),
    ]);
    let evaluation = Evaluation::new(vec![1000, 1000], vec![vec![0, 0, 0], vec![40_000, 0, 0]]);
    let report = evaluation.calculate_consumption(&events).unwrap();
    assert_eq!(report.rooms, vec![bucket("R0", 44_444)]);
    assert_eq!(report.mean_room, Some(44_444));
    assert!(report.sub_rooms.is_empty());
    assert_eq!(report.mean_sub_room, None);
    let watt_hours = report.rooms[0].energy as f64 / 1_000_000.0;
    assert!((watt_hours - 40.0 * 4.0 / 3600.0).abs() < 0.000_001);
}

#[test]
fn mean_divides_by_locations_and_by_seconds_of_an_hour() {
    assert_eq!(mean(7_200_000, 2), Some(1000));
    assert_eq!(mean(7_199_999, 2), Some(999));
    assert_eq!(mean(5, 0), None);
    assert_eq!(mean(0, 1), Some(0));
}

#[test]
fn baseline_spreads_the_year_over_its_days() {
    assert_eq!(baseline(1000, 1, 50), 136_986);
    assert_eq!(baseline(1000, 2, 50), 273_972);
    assert_eq!(baseline(0, 2, 50), 0);
    assert_eq!(baseline(u32::MAX, 2, 3), u32::MAX as u128 * 1000 * 2 * 3 / 365);
}

#[test]
fn microwatt_hours_are_a_3600th() {
    let buckets = vec![bucket("a", 3600), bucket("b", 3599), bucket("c", 0)];
    assert_eq!(
        to_microwatt_hours(&buckets),
        vec![bucket("a", 1), bucket("b", 0), bucket("c", 0)]
    );
}

#[test]
fn profile_needs_two_classes_and_six_draws() {
    assert!(profile().is_well_formed());
    assert!(!Evaluation::new(vec![1], vec![vec![0, 0, 0], vec![0, 0, 0]]).is_well_formed());
    assert!(!Evaluation::new(vec![1, 1], vec![vec![0, 0, 0]]).is_well_formed());
    assert!(!Evaluation::new(vec![1, 1], vec![vec![0, 0, 0], vec![0, 0]]).is_well_formed());
    assert!(!Evaluation::new(vec![1, 1], vec![vec![0, 0], vec![0, 0, 0]]).is_well_formed());
    assert!(Evaluation::new(vec![1, 1, 9], vec![vec![0, 0, 0, 9], vec![0, 0, 0], vec![]])
        .is_well_formed());
}

#[test]
fn draw_is_read_by_category_and_state() {
    let evaluation = Evaluation::new(vec![0, 0], vec![vec![1, 2, 3], vec![4, 5, 6]]);
    assert_eq!(evaluation.draw_of(Category::SubRoom, LightState::On), 1);
    assert_eq!(evaluation.draw_of(Category::SubRoom, LightState::Dim), 2);
    assert_eq!(evaluation.draw_of(Category::SubRoom, LightState::Off), 3);
    assert_eq!(evaluation.draw_of(Category::Room, LightState::On), 4);
    assert_eq!(evaluation.draw_of(Category::Room, LightState::Dim), 5);
    assert_eq!(evaluation.draw_of(Category::Room, LightState::Off), 6);
}

#[test]
fn longest_interval_at_the_highest_draw_fits() {
    let evaluation =
        Evaluation::new(vec![0, 0], vec![vec![0, 0, 0], vec![u32::MAX, 0, 0]]);
    let events = vec![message(LIGHT_R0, 0, "X:On"), message(LIGHT_R0, u32::MAX, "X:Off")];
    let tally = evaluation.pair_durations(&events).unwrap();
    assert_eq!(tally.room_total, u32::MAX as u128 * u32::MAX as u128);
}

#[test]
fn chronological_order_is_recognised() {
    assert!(is_chronological(&Vec::new()));
    assert!(is_chronological(&vec![message("a", 5, "x")]));
    assert!(is_chronological(&vec![message("a", 5, "x"), message("b", 5, "x")]));
    assert!(!is_chronological(&vec![
        message("a", 5, "x"),
        message("b", 7, "x"),
        message("c", 6, "x")
    ]));
    assert!(EventList::new(vec![message("a", 1, "x"), message("a", 2, "x")]).is_chronological());
}

#[test]
fn measure_reports_one_event() {
    let events = vec![
        message(LIGHT_SUB, 100, "X:On"),
        message(PRESENCE_R0, 150, "X:On"),
        message(LIGHT_SUB, 300, "X:Off"),
    ];
    let credit = profile().measure(&events, 0).unwrap().unwrap();
    assert_eq!(credit.category, Category::SubRoom);
    assert_eq!(credit.location.iter().collect::<String>(), "RwnD0_RwD1_sub");
    assert_eq!(credit.energy, 45_000 * 200);
    assert!(profile().measure(&events, 1).unwrap().is_none());
    assert!(profile().measure(&events, 2).unwrap().is_none());
}

#[test]
fn report_is_the_same_without_the_presence_only_events() {
    let with = vec![
        message(LIGHT_R0, 1000, "X:On"),
        message(PRESENCE_R0, 1500, "occupancy:true"),
        message(LIGHT_SUB, 2000, "X:Dim"),
        message(PRESENCE_R0, 2500, "X:On"),
        message(LIGHT_R0, 5000, "X:Off"),
        message(LIGHT_SUB, 6000, "X:Off"),
        message(PRESENCE_R0, 7000, "occupancy:false"),
    ];
    let without: Vec<Event> = vec![
        message(LIGHT_R0, 1000, "X:On"),
        message(LIGHT_SUB, 2000, "X:Dim"),
        message(LIGHT_R0, 5000, "X:Off"),
        message(LIGHT_SUB, 6000, "X:Off"),
    ];
    let first = profile().calculate_consumption(&EventList { events: with }).unwrap();
    let second = profile().calculate_consumption(&EventList { events: without }).unwrap();
    assert_eq!(first, second);
    assert_eq!(first.rooms, vec![bucket("RwnD0", 160_000_000 / 3600)]);
    assert_eq!(first.sub_rooms.len(), 1);
}
