use building_automation::building::Building;
use building_automation::rules::{
    create_rules, make_rule, rules_for_room, sort_sensors, DeviceAction, DeviceCondition, Joint,
    RulePlan, TimeWindow, LIGHT_DIM, LIGHT_OFF, LIGHT_ON,
};
use building_automation::sensor::{Sensor, SensorType};

fn sensor(id: &str, kind: &str, number: i64) -> Sensor {
    Sensor::new(id.to_string(), SensorType::new(kind.to_string()), number)
}

fn sensors() -> Vec<Sensor> {
    vec![
        sensor("l0", "SensorType_0", 1),
        sensor("p0", "SensorType_1", 2),
        sensor("x", "SensorType_3", 3),
        sensor("p1", "SensorType_1", 4),
        sensor("both", "SensorType_0_SensorType_1", 5),
    ]
}

fn conditions(occupied: bool) -> Vec<DeviceCondition> {
    [("p0", 2), ("p1", 4), ("both", 5)]
        .iter()
        .map(|(id, number)| DeviceCondition { sensor_id: id.to_string(), number: *number, occupied })
        .collect()
}

fn actions(state: u8) -> Vec<DeviceAction> {
    vec![DeviceAction { sensor_id: "l0".to_string(), number: 1, state }]
}

#[test]
fn sensors_are_sorted_by_their_type() {
    let (found, lamps) = sort_sensors(&sensors());
    assert_eq!(found.iter().map(|s| s.get_id()).collect::<Vec<_>>(), vec!["p0", "p1", "both"]);
    assert_eq!(lamps.iter().map(|s| s.get_id()).collect::<Vec<_>>(), vec!["l0"]);
}

#[test]
fn a_room_gets_three_rules() {
    let rules = rules_for_room(&"RwnD0".to_string(), &sensors());
    assert_eq!(
        rules,
        vec![
            RulePlan {
                name: "Turn_lights_on_when_arriving_rule_node_RwnD0".to_string(),
                conditions: conditions(true),
                time: None,
                joints: vec![Joint::Or, Joint::Or],
                actions: actions(LIGHT_ON),
            },
            RulePlan {
                name: "Dim_lights_when_leaving_+_time_rule_node_RwnD0".to_string(),
                conditions: conditions(false),
                time: Some(TimeWindow { start: 6 * 3600 + 30 * 60, end: 17 * 3600 + 59 * 60 + 59 }),
                joints: vec![Joint::Or, Joint::Or, Joint::And],
                actions: actions(LIGHT_DIM),
            },
            RulePlan {
                name: "Turn_lights_off_when_leaving_+_time_rule_nodeRwnD0".to_string(),
                conditions: conditions(false),
                time: Some(TimeWindow { start: 18 * 3600, end: 6 * 3600 + 29 * 60 + 59 }),
                joints: vec![Joint::Or, Joint::Or, Joint::And],
                actions: actions(LIGHT_OFF),
            },
        ]
    );
}

#[test]
fn a_sub_room_gets_two_rules() {
    let rules = rules_for_room(
        &"RwnD0_RwD1_sub".to_string(),
        &vec![sensor("l", "SensorType_0", 1), sensor("p", "SensorType_1", 2)],
    );
    assert_eq!(rules.len(), 2);
    assert_eq!(rules[0].name, "Turn_lights_on_when_arriving_rule_node_RwnD0_RwD1_sub");
    assert_eq!(rules[1].name, "Turn_lights_off_when_leaving_rule_node_RwnD0_RwD1_sub");
    assert!(rules[0].joints.is_empty() && rules[1].joints.is_empty());
    assert_eq!(rules[1].time, None);
    assert_eq!(rules[1].actions[0].state, LIGHT_OFF);
    assert!(!rules[1].conditions[0].occupied);
}

#[test]
fn a_room_without_lights_or_without_detectors_gets_no_rule() {
    assert!(rules_for_room(&"R".to_string(), &vec![sensor("p", "SensorType_1", 2)]).is_empty());
    assert!(rules_for_room(&"R".to_string(), &vec![sensor("l", "SensorType_0", 2)]).is_empty());
    assert!(rules_for_room(&"R".to_string(), &Vec::new()).is_empty());
}

#[test]
fn a_single_rule_is_made_of_its_parts() {
    let found = vec![sensor("p", "SensorType_1", 2)];
    let room: Vec<char> = "R".chars().collect();
    let rule = make_rule("n_", &room, &found, true, None, &Vec::new(), 7);
    assert_eq!(
        rule,
        RulePlan {
            name: "n_R".to_string(),
            conditions: vec![DeviceCondition { sensor_id: "p".to_string(), number: 2, occupied: true }],
            time: None,
            joints: Vec::new(),
            actions: Vec::new(),
        }
    );
    let timed = make_rule(
        "n_",
        &room,
        &Vec::new(),
        true,
        Some(TimeWindow { start: 1, end: 2 }),
        &found,
        7,
    );
    assert_eq!(timed.joints, vec![Joint::And]);
    assert_eq!(timed.actions[0].state, 7);
}

#[test]
fn rules_follow_the_order_of_the_rooms() {
    let kinds = vec![
        (1, SensorType::new("SensorType_0".to_string())),
        (2, SensorType::new("SensorType_1".to_string())),
    ];
    let mut b = Building::new();
    b.add_staircase(0);
    let n = b.add_room_without_doors(0, kinds.clone(), false, -1);
    let (_, n) = b.add_sub_rooms_with_doors(1, "RwnD0".to_string(), kinds.clone(), true, n);
    let _ = b.add_room_with_doors(0, Vec::new(), false, n);
    let names: Vec<String> = create_rules(&b).into_iter().map(|r| r.name).collect();
    assert_eq!(
        names,
        vec![
            "Turn_lights_on_when_arriving_rule_node_RwnD0",
            "Dim_lights_when_leaving_+_time_rule_node_RwnD0",
            "Turn_lights_off_when_leaving_+_time_rule_nodeRwnD0",
            "Turn_lights_on_when_arriving_rule_node_RwnD0_RwD0_sub",
            "Turn_lights_off_when_leaving_rule_node_RwnD0_RwD0_sub",
        ]
    );
}
