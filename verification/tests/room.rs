use building_automation::room::{Door, Floor, NoDoor, RoomWithDoors, RoomWithoutDoors, Staircase};

#[test]
fn staircase_is_named_by_its_number() {
    assert_eq!(Staircase::new(0).get_id(), "S0");
    assert_eq!(Staircase::new(14).get_id(), "S14");
    assert_eq!(Staircase::new(-3).get_id(), "S-3");
    assert_eq!(Staircase::new(i32::MIN).get_id(), "S-2147483648");
}

#[test]
fn rooms_are_named_by_kind_and_number() {
    let room = RoomWithDoors::new(1, false, "ignored".to_string(), true);
    assert_eq!(room.get_id(), "RwD1");
    assert!(room.has_windows());
    let room = RoomWithoutDoors::new(11, false, "".to_string(), false);
    assert_eq!(room.get_id(), "RwnD11");
    assert!(!room.has_windows());
}

#[test]
fn sub_rooms_carry_the_parent_and_the_flag() {
    let room = RoomWithDoors::new(10, true, "RwnD0".to_string(), true);
    assert_eq!(room.get_id(), "RwnD0_RwD10_sub");
    assert!(room.has_windows());
    let room = RoomWithoutDoors::new(2, true, "RwD1".to_string(), false);
    assert_eq!(room.get_id(), "RwD1_RwnD2_sub");
    let room = RoomWithoutDoors::new(2, true, "".to_string(), false);
    assert_eq!(room.get_id(), "_RwnD2_sub");
}

#[test]
fn connections_are_named_by_kind_and_number() {
    assert_eq!(Door::new(3, false).get_id(), "Door3");
    assert_eq!(Door::new(3, true).get_id(), "Door3_sub");
    assert_eq!(NoDoor::new(21, false).get_id(), "NoDoor21");
    assert_eq!(NoDoor::new(0, true).get_id(), "NoDoor0_sub");
    assert_eq!(Floor { id: "F1".to_string() }.get_id(), "F1");
}
