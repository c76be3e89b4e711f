use building_automation::building::{make_sensor_name, make_sensors, Building};
use building_automation::sensor::SensorType;

fn kinds() -> Vec<(u32, SensorType)> {
    vec![
        (1, SensorType::new("SensorType_0".to_string())),
        (0, SensorType::new("SensorType_9".to_string())),
        (2, SensorType::new("SensorType_1".to_string())),
    ]
}

fn small() -> Building {
    let mut b = Building::new();
    b.add_staircase(0);
    let n = b.add_room_without_doors(0, kinds(), false, -1);
    assert_eq!(n, 2);
    let n = b.add_room_with_doors(0, kinds(), true, n);
    assert_eq!(n, 5);
    let n = b.add_room_without_doors(1, Vec::new(), false, n);
    assert_eq!(n, 5);
    b
}

#[test]
fn rooms_are_numbered_in_the_order_of_their_making() {
    let b = small();
    assert_eq!(b.get_number_of_rooms(), 4);
    assert_eq!(b.room_id_at(0), "S0");
    assert_eq!(b.room_id_at(1), "RwnD0");
    assert_eq!(b.room_id_at(2), "RwD0");
    assert_eq!(b.room_id_at(3), "RwnD1");
    assert_eq!(b.find_room(&"RwD0".to_string()), Some(2));
    assert_eq!(b.find_room(&"RwD1".to_string()), None);
    assert_eq!(b.get_floors().node_count(), 4);
    assert_eq!(b.get_graph_structure().edge_count(), 0);
}

#[test]
fn sensors_are_named_and_numbered_through() {
    let (sensors, last) = make_sensors(&"RwnD0".to_string(), &kinds(), 10);
    assert_eq!(last, 13);
    let seen: Vec<(String, String, i64)> =
        sensors.iter().map(|s| (s.get_id(), s.get_sensor_type().get_id(), s.get_number())).collect();
    assert_eq!(
        seen,
        vec![
            ("Sensor_RwnD0_no._0_of_type_SensorType_0".to_string(), "SensorType_0".to_string(), 11),
            ("Sensor_RwnD0_no._0_of_type_SensorType_1".to_string(), "SensorType_1".to_string(), 12),
            ("Sensor_RwnD0_no._1_of_type_SensorType_1".to_string(), "SensorType_1".to_string(), 13),
        ]
    );
    let room: Vec<char> = "R".chars().collect();
    let kind: Vec<char> = "T".chars().collect();
    assert_eq!(make_sensor_name(&room, 12, &kind), "Sensor_R_no._12_of_type_T");
}

#[test]
fn rooms_hold_the_sensors_made_for_them() {
    let b = small();
    let graph = b.get_floors();
    let per_room: Vec<Vec<i64>> = graph
        .node_indices()
        .map(|i| graph[i].sensors.iter().map(|s| s.number).collect())
        .collect();
    assert_eq!(per_room, vec![vec![], vec![0, 1, 2], vec![3, 4, 5], vec![]]);
}

#[test]
fn connection_needs_both_rooms() {
    let mut b = small();
    assert!(!b.new_door_connection("RwnD0".to_string(), "nowhere".to_string(), 0));
    assert!(!b.new_no_door_connection("nowhere".to_string(), "RwnD0".to_string(), 0));
    assert!(!b.new_door_connection("RwnD0".to_string(), "RwnD0".to_string(), 0));
    assert_eq!(b.get_floors().edge_count(), 0);
    assert!(b.new_door_connection("RwnD0".to_string(), "RwD0".to_string(), 7));
    assert_eq!(b.get_floors().edge_count(), 1);
    assert_eq!(b.find_pair(&"RwD0".to_string(), &"S0".to_string()), (Some(2), Some(0)));
    assert_eq!(b.find_pair(&"RwD0".to_string(), &"x".to_string()), (Some(2), None));
}

#[test]
fn connecting_twice_replaces_the_connection() {
    let mut b = small();
    assert!(b.new_door_connection("RwnD0".to_string(), "RwD0".to_string(), 7));
    assert!(b.new_no_door_connection("RwD0".to_string(), "RwnD0".to_string(), 8));
    assert_eq!(b.get_floors().edge_count(), 1);
    assert_eq!(b.get_connection_ids("RwnD0".to_string()), vec!["NoDoor8"]);
    assert_eq!(b.get_connection_ids("RwD0".to_string()), vec!["NoDoor8"]);
    assert_eq!(b.connection_id_at(0), "NoDoor8");
}

#[test]
fn neighbours_come_latest_first_leaving_before_coming() {
    let mut b = small();
    assert!(b.new_door_connection("S0".to_string(), "RwnD0".to_string(), 0));
    assert!(b.new_no_door_connection("RwnD0".to_string(), "RwD0".to_string(), 1));
    assert!(b.new_door_connection("RwnD1".to_string(), "RwnD0".to_string(), 2));
    assert!(b.new_no_door_connection("RwnD0".to_string(), "RwnD1".to_string(), 3));
    assert!(b.new_door_connection("RwnD0".to_string(), "S0".to_string(), 4));
    assert_eq!(b.get_floors().edge_count(), 3);
    assert_eq!(b.get_neighbours_ids("RwnD0".to_string()), vec!["RwD0", "RwnD1", "S0"]);
    assert_eq!(b.get_connection_ids("RwnD0".to_string()), vec!["NoDoor1", "NoDoor3", "Door4"]);
    assert_eq!(b.get_neighbours_ids("S0".to_string()), vec!["RwnD0"]);
    assert_eq!(b.get_neighbours_ids("RwnD1".to_string()), vec!["RwnD0"]);
    assert_eq!(b.get_neighbours_ids("RwD0".to_string()), vec!["RwnD0"]);
    assert!(b.get_neighbours_ids("nowhere".to_string()).is_empty());
    assert!(b.get_connection_ids("nowhere".to_string()).is_empty());
}

#[test]
fn sub_rooms_follow_their_parent() {
    let mut b = small();
    let (ok, n) = b.add_sub_rooms_with_doors(2, "RwnD0".to_string(), kinds(), true, 5);
    assert!(ok);
    assert_eq!(n, 11);
    let (ok, n) = b.add_sub_rooms_without_doors(1, "RwD0".to_string(), Vec::new(), false, n);
    assert!(ok);
    assert_eq!(n, 11);
    assert_eq!(b.get_number_of_rooms(), 7);
    assert_eq!(b.room_id_at(4), "RwnD0_RwD0_sub");
    assert_eq!(b.room_id_at(5), "RwnD0_RwD1_sub");
    assert_eq!(b.room_id_at(6), "RwD0_RwnD0_sub");
    assert_eq!(
        b.get_neighbours_ids("RwnD0".to_string()),
        vec!["RwnD0_RwD1_sub", "RwnD0_RwD0_sub"]
    );
    assert_eq!(b.get_connection_ids("RwnD0".to_string()), vec!["Door1_sub", "Door0_sub"]);
    assert_eq!(b.get_connection_ids("RwD0".to_string()), vec!["NoDoor0_sub"]);
    assert_eq!(b.get_neighbours_ids("RwnD0_RwD1_sub".to_string()), vec!["RwnD0"]);
    let table = b.sensor_table();
    assert_eq!(table.len(), 7);
    let ids: Vec<String> = table[5].iter().map(|s| s.get_id()).collect();
    assert_eq!(
        ids,
        vec![
            "Sensor_RwnD0_RwD1_sub_no._0_of_type_SensorType_0",
            "Sensor_RwnD0_RwD1_sub_no._0_of_type_SensorType_1",
            "Sensor_RwnD0_RwD1_sub_no._1_of_type_SensorType_1",
        ]
    );
    let numbers: Vec<i64> = table[5].iter().map(|s| s.get_number()).collect();
    assert_eq!(numbers, vec![9, 10, 11]);
    assert!(table[6].is_empty());
}

#[test]
fn sub_rooms_need_their_parent() {
    let mut b = small();
    assert_eq!(b.add_sub_rooms_with_doors(3, "nowhere".to_string(), kinds(), true, 5), (false, 5));
    assert_eq!(b.add_sub_rooms_without_doors(3, "x".to_string(), kinds(), true, 5), (false, 5));
    assert_eq!(b.add_sub_rooms_with_doors(-3, "RwnD0".to_string(), kinds(), true, 5), (true, 5));
    assert_eq!(b.add_sub_rooms_with_doors(0, "RwnD0".to_string(), kinds(), true, 5), (true, 5));
    assert_eq!(b.get_number_of_rooms(), 4);
    assert_eq!(b.get_floors().edge_count(), 0);
}

#[test]
fn parallel_connections_are_all_walked() {
    let mut b = small();
    assert!(b.new_door_connection("RwnD0".to_string(), "RwD0".to_string(), 0));
    let (ok, _) = b.add_sub_rooms_with_doors(1, "RwnD0".to_string(), Vec::new(), false, 0);
    assert!(ok);
    assert!(b.new_no_door_connection("RwnD0_RwD0_sub".to_string(), "RwnD0".to_string(), 9));
    assert_eq!(b.get_floors().edge_count(), 2);
    assert_eq!(b.get_connection_ids("RwnD0".to_string()), vec!["NoDoor9", "Door0"]);
    assert_eq!(b.get_neighbours_ids("RwnD0".to_string()), vec!["RwnD0_RwD0_sub", "RwD0"]);
}

#[test]
fn sensors_are_renamed_and_added_to_every_room_of_the_name() {
    let mut b = small();
    let _ = b.add_room_without_doors(0, Vec::new(), false, 5);
    let extra = vec![
        building_automation::sensor::Sensor::new(
            "old".to_string(),
            SensorType::new("SensorType_7".to_string()),
            40,
        ),
        building_automation::sensor::Sensor::new(
            "older".to_string(),
            SensorType::new("SensorType_8".to_string()),
            41,
        ),
    ];
    b.add_sensors_to_room("RwnD0".to_string(), extra);
    let table = b.sensor_table();
    let ids = |k: usize| table[k].iter().map(|s| (s.get_id(), s.get_number())).collect::<Vec<_>>();
    assert_eq!(ids(1).len(), 5);
    assert_eq!(ids(1)[3], ("Sensor_RwnD0_no._0_of_type_SensorType_7".to_string(), 40));
    assert_eq!(ids(1)[4], ("Sensor_RwnD0_no._1_of_type_SensorType_8".to_string(), 41));
    assert_eq!(
        ids(4),
        vec![
            ("Sensor_RwnD0_no._0_of_type_SensorType_7".to_string(), 40),
            ("Sensor_RwnD0_no._1_of_type_SensorType_8".to_string(), 41),
        ]
    );
    assert_eq!(ids(2).len(), 3);
    assert!(ids(0).is_empty());
}

#[test]
fn staircases_are_entrances_and_sub_rooms_destinations() {
    let mut b = small();
    b.add_staircase(1);
    let _ = b.add_sub_rooms_with_doors(2, "RwnD1".to_string(), Vec::new(), false, 0);
    assert_eq!(b.get_start_nodes(), vec![0, 4]);
    assert_eq!(b.get_end_nodes(), vec![0, 4]);
    assert_eq!(b.get_nodes_to_move_to(), vec![5, 6]);
    assert!(Building::new().get_start_nodes().is_empty());
}

#[test]
fn demands_and_connections_are_counted() {
    assert_eq!(building_automation::building::count_demanded(&kinds()), 3);
    assert_eq!(building_automation::building::count_demanded(&Vec::new()), 0);
    let mut b = small();
    assert_eq!(b.get_number_of_connections(), 0);
    assert!(b.new_door_connection("RwnD0".to_string(), "RwD0".to_string(), 0));
    assert!(b.new_door_connection("S0".to_string(), "RwD0".to_string(), 1));
    assert_eq!(b.get_number_of_connections(), 2);
}

#[test]
fn office_building_is_laid_out() {
    let what = vec![
        (1, SensorType::new("SensorType_0".to_string())),
        (2, SensorType::new("SensorType_1".to_string())),
    ];
    let (mut b, last) = building_automation::layout::create_building(&what, &what);
    assert_eq!(b.get_number_of_rooms(), 91);
    assert_eq!(b.get_number_of_connections(), 97);
    assert_eq!(last, 257);
    assert_eq!(b.room_id_at(0), "RwD0");
    assert_eq!(b.room_id_at(1), "S0");
    assert_eq!(b.room_id_at(2), "RwnD0");
    assert_eq!(b.room_id_at(18), "RwnD11");
    assert_eq!(b.room_id_at(19), "RwnD0_RwD0_sub");
    assert_eq!(b.room_id_at(90), "RwD1_RwD2_sub");
    assert_eq!(b.get_start_nodes().len(), 5);
    assert_eq!(b.get_nodes_to_move_to().len(), 72);
    assert_eq!(
        b.get_neighbours_ids("RwnD4".to_string()),
        vec!["RwnD5", "S1", "RwnD8", "RwnD2"]
    );
    assert_eq!(
        b.get_connection_ids("RwnD0_RwD10_sub".to_string()),
        vec!["Door1", "Door10_sub"]
    );
    assert_eq!(b.get_connection_ids("RwnD0".to_string()).len(), 16);
    let table = b.sensor_table();
    assert_eq!(table[90].last().unwrap().get_number(), 257);
    assert_eq!(table[0][0].get_number(), 0);
    let (plain, last) = building_automation::layout::create_building(&Vec::new(), &Vec::new());
    assert_eq!(plain.get_number_of_rooms(), 91);
    assert_eq!(last, -1);
}
