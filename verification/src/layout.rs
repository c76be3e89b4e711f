//! The layout of the office building.
//!
//! The building has twelve open rooms, two rooms with doors and five
//! staircases on its floor, the connections between them, and sub-rooms in
//! most of its rooms.

use crate::building::{
    connected, demanded, demands, is_first_room, lemma_first_room_unique, link_marker, room_view,
    scan_pair, staircase_view, sub_room_count, with_sub_rooms, Building, BuildingView, Demand,
    LinkKind, LinkView, NodeView, RoomKind,
};
use crate::graph::GRAPH_LIMIT;
use crate::room::connection_id;
use crate::sensor::SensorType;
use crate::text::{chars_of, contains, contains_in};
use vstd::prelude::*;

verus! {

/// The rounds in which the rooms of the floor are made.
pub const ROUNDS: i32 = 12;

/// The rooms with sensors of the floor.
pub const FLOOR_ROOMS: i64 = 14;

/// The sub-rooms of the building.
pub const SUB_ROOMS: i64 = 72;

/// The locations of the floor after the first `n` rounds, with the number of
/// the last sensor made. The first two rounds make a room with doors each,
/// the first five a staircase each, and every round makes an open room.
pub open spec fn floor_after(kinds: Seq<Demand>, n: int) -> (Seq<NodeView>, int)
    decreases n,
{
    if n <= 0 {
        (Seq::empty(), -1)
    } else {
        let before = floor_after(kinds, n - 1);
        let i = n - 1;
        let total = demanded(kinds, kinds.len() as int);
        let with_doors = if i <= 1 {
            (
                before.0.push(
                    room_view(RoomKind::RoomWithDoors, i, None, false, kinds, before.1),
                ),
                before.1 + total,
            )
        } else {
            before
        };
        let with_stairs = if i <= 4 {
            with_doors.0.push(staircase_view(i))
        } else {
            with_doors.0
        };
        (
            with_stairs.push(
                room_view(RoomKind::RoomWithoutDoors, i, None, false, kinds, with_doors.1),
            ),
            with_doors.1 + total,
        )
    }
}

/// The building once the rooms `first` and `second` are connected; it stays
/// as it is where one of them is not found.
pub open spec fn joined(
    building: BuildingView,
    first: Seq<char>,
    second: Seq<char>,
    kind: LinkKind,
    number: int,
) -> BuildingView {
    match scan_pair(building.rooms, first, second, building.rooms.len() as int) {
        (Some(a), Some(b)) => BuildingView {
            rooms: building.rooms,
            links: connected(
                building.links,
                a,
                b,
                kind,
                connection_id(link_marker(kind), number, false),
            ),
        },
        _ => building,
    }
}

/// The kind of the connection of two rooms of the floor: a door where one of
/// them is a room with doors.
pub open spec fn hallway_kind(first: Seq<char>, second: Seq<char>) -> LinkKind {
    if contains(first, "RwD"@) || contains(second, "RwD"@) {
        LinkKind::Door
    } else {
        LinkKind::NoDoor
    }
}

/// The building once two rooms of the floor are connected.
pub open spec fn hallway(building: BuildingView, first: Seq<char>, second: Seq<char>, number: int) -> BuildingView {
    joined(building, first, second, hallway_kind(first, second), number)
}

/// The building with the number of its last sensor, once the room `parent`
/// has got `count` sub-rooms with doors and windows; both stay as they are
/// where the room is not found.
pub open spec fn extended(state: (BuildingView, int), count: int, parent: Seq<char>, kinds: Seq<Demand>) -> (
    BuildingView,
    int,
) {
    if exists|k: int| is_first_room(state.0.rooms, parent, k) {
        let k = choose|k: int| is_first_room(state.0.rooms, parent, k);
        (
            with_sub_rooms(
                state.0,
                k,
                parent,
                RoomKind::RoomWithDoors,
                LinkKind::Door,
                true,
                kinds,
                state.1,
                count,
            ),
            state.1 + count * demanded(kinds, kinds.len() as int),
        )
    } else {
        state
    }
}

/// The floor with its connections.
pub open spec fn connected_floor(v0: BuildingView) -> BuildingView {
    let v1 = hallway(v0, "RwnD0"@, "RwD0"@, 0);
    let v2 = hallway(v1, "RwD0"@, "RwnD1"@, 1);
    let v3 = hallway(v2, "RwnD1"@, "S0"@, 2);
    let v4 = hallway(v3, "RwnD1"@, "RwD1"@, 3);
    let v5 = hallway(v4, "RwnD1"@, "RwnD2"@, 4);
    let v6 = hallway(v5, "RwnD2"@, "RwnD3"@, 5);
    let v7 = hallway(v6, "RwnD2"@, "RwnD4"@, 6);
    let v8 = hallway(v7, "RwnD4"@, "S1"@, 7);
    let v9 = hallway(v8, "RwnD4"@, "RwnD5"@, 8);
    let v10 = hallway(v9, "RwnD5"@, "RwnD0"@, 9);
    let v11 = hallway(v10, "RwnD5"@, "S2"@, 10);
    let v12 = hallway(v11, "RwnD5"@, "RwnD6"@, 11);
    let v13 = hallway(v12, "RwnD6"@, "RwnD7"@, 12);
    let v14 = hallway(v13, "RwnD7"@, "S3"@, 13);
    let v15 = hallway(v14, "RwnD7"@, "RwnD8"@, 14);
    let v16 = hallway(v15, "RwnD8"@, "RwnD4"@, 15);
    let v17 = hallway(v16, "RwnD8"@, "RwnD9"@, 16);
    let v18 = hallway(v17, "RwnD9"@, "RwnD10"@, 17);
    let v19 = hallway(v18, "RwnD10"@, "RwnD7"@, 18);
    let v20 = hallway(v19, "RwnD10"@, "S4"@, 19);
    let v21 = hallway(v20, "RwnD10"@, "RwnD11"@, 20);
    let v22 = hallway(v21, "RwnD11"@, "RwD1"@, 21);
    v22
}

/// The building with its sub-rooms.
pub open spec fn furnished(s0: (BuildingView, int), kinds: Seq<Demand>) -> (BuildingView, int) {
    let s1 = extended(s0, 14, "RwnD0"@, kinds);
    let s2 = (joined(s1.0, "RwnD0_RwD10_sub"@, "RwnD0_RwD11_sub"@, LinkKind::Door, 0), s1.1);
    let s3 = (joined(s2.0, "RwnD0_RwD10_sub"@, "RwnD0_RwD11_sub"@, LinkKind::Door, 1), s2.1);
    let s4 = extended(s3, 7, "RwnD1"@, kinds);
    let s5 = extended(s4, 7, "RwnD5"@, kinds);
    let s6 = extended(s5, 3, "RwnD6"@, kinds);
    let s7 = extended(s6, 6, "RwnD7"@, kinds);
    let s8 = extended(s7, 3, "RwnD8"@, kinds);
    let s9 = extended(s8, 5, "RwnD9"@, kinds);
    let s10 = extended(s9, 10, "RwnD10"@, kinds);
    let s11 = extended(s10, 9, "RwnD11"@, kinds);
    let s12 = extended(s11, 5, "RwD0"@, kinds);
    let s13 = (joined(s12.0, "RwD0_RwD0_sub"@, "RwD0_RwD1_sub"@, LinkKind::Door, 0), s12.1);
    let s14 = (joined(s13.0, "RwD0_RwD2_sub"@, "RwD0_RwD3_sub"@, LinkKind::Door, 1), s13.1);
    let s15 = extended(s14, 3, "RwD1"@, kinds);
    s15
}

/// The office building with the number of its last sensor.
pub open spec fn office(room_kinds: Seq<Demand>, sub_room_kinds: Seq<Demand>) -> (BuildingView, int) {
    let floor = floor_after(room_kinds, ROUNDS as int);
    furnished(
        (connected_floor(BuildingView { rooms: floor.0, links: Seq::empty() }), floor.1),
        sub_room_kinds,
    )
}

/// A copy of the demands.
pub fn copy_demands(what: &Vec<(u32, SensorType)>) -> (r: Vec<(u32, SensorType)>)
    ensures
        demands(r@) == demands(what@),
        r.len() == what.len(),
{
    let mut r: Vec<(u32, SensorType)> = Vec::new();
    let mut i: usize = 0;
    while i < what.len()
        invariant
            i <= what.len(),
            r.len() == i,
            forall|k: int| 0 <= k < i ==> demands(r@)[k] == demands(what@)[k],
        decreases what.len() - i,
    {
        r.push((what[i].0, what[i].1.duplicate()));
        i += 1;
    }
    assert(demands(r@) =~= demands(what@));
    r
}

/// Connects two rooms of the floor.
fn join(building: &mut Building, first: &str, second: &str, number: i32)
    requires
        old(building).wf(),
        old(building)@.links.len() < GRAPH_LIMIT,
    ensures
        final(building).wf(),
        final(building)@ == hallway(old(building)@, first@, second@, number as int),
        final(building)@.rooms == old(building)@.rooms,
        final(building)@.links.len() <= old(building)@.links.len() + 1,
{
    let marker = chars_of("RwD");
    let a = chars_of(first);
    let b = chars_of(second);
    let with_doors = contains_in(&b, &marker);
    if contains_in(&a, &marker) || with_doors {
        let _ = building.new_door_connection(
            String::from_str(first),
            String::from_str(second),
            number,
        );
    } else {
        let _ = building.new_no_door_connection(
            String::from_str(first),
            String::from_str(second),
            number,
        );
    }
}

/// Connects two sub-rooms through a door.
fn door(building: &mut Building, first: &str, second: &str, number: i32)
    requires
        old(building).wf(),
        old(building)@.links.len() < GRAPH_LIMIT,
    ensures
        final(building).wf(),
        final(building)@ == joined(
            old(building)@,
            first@,
            second@,
            LinkKind::Door,
            number as int,
        ),
        final(building)@.rooms == old(building)@.rooms,
        final(building)@.links.len() <= old(building)@.links.len() + 1,
{
    let _ = building.new_door_connection(String::from_str(first), String::from_str(second), number);
}

/// Gives a room its sub-rooms. `made` sub-rooms were made before.
fn extend(
    building: &mut Building,
    count: i32,
    parent: &str,
    what: &Vec<(u32, SensorType)>,
    offspring: i64,
    Ghost(made): Ghost<int>,
) -> (last: i64)
    requires
        old(building).wf(),
        0 <= count,
        0 <= made,
        made + count <= SUB_ROOMS,
        old(building)@.rooms.len() + count <= GRAPH_LIMIT,
        old(building)@.links.len() + count <= GRAPH_LIMIT,
        offspring + (SUB_ROOMS - made) * demanded(demands(what@), what.len() as int) <= i64::MAX,
    ensures
        final(building).wf(),
        (final(building)@, last as int) == extended(
            (old(building)@, offspring as int),
            count as int,
            parent@,
            demands(what@),
        ),
        final(building)@.rooms.len() <= old(building)@.rooms.len() + count,
        final(building)@.links.len() <= old(building)@.links.len() + count,
        last + (SUB_ROOMS - made - count) * demanded(demands(what@), what.len() as int)
            <= i64::MAX,
{
    let ghost total = demanded(demands(what@), what.len() as int);
    proof {
        crate::building::lemma_demanded_grows(demands(what@), 0, what.len() as int);
        assert(count * total <= (SUB_ROOMS - made) * total) by (nonlinear_arith)
            requires
                0 <= count <= SUB_ROOMS - made,
                total >= 0,
        ;
        assert((SUB_ROOMS - made - count) * total == (SUB_ROOMS - made) * total - count * total)
            by (nonlinear_arith);
        assert((SUB_ROOMS - made - count) * total <= (SUB_ROOMS - made) * total)
            by (nonlinear_arith)
            requires
                0 <= count,
                total >= 0,
        ;
    }
    let r = building.add_sub_rooms_with_doors(
        count,
        String::from_str(parent),
        copy_demands(what),
        true,
        offspring,
    );
    proof {
        if r.0 {
            let k = choose|k: int|
                is_first_room(old(building)@.rooms, parent@, k) && building@
                    == #[trigger] with_sub_rooms(
                    old(building)@,
                    k,
                    parent@,
                    RoomKind::RoomWithDoors,
                    LinkKind::Door,
                    true,
                    demands(what@),
                    offspring as int,
                    sub_room_count(count as int),
                );
            lemma_first_room_unique(old(building)@.rooms, parent@, k);
        } else {
            assert(!exists|k: int| is_first_room(old(building)@.rooms, parent@, k));
        }
    }
    r.1
}

/// Makes the rooms of the floor.
fn make_floor(building: &mut Building, what: &Vec<(u32, SensorType)>) -> (offspring: i64)
    requires
        old(building).wf(),
        old(building)@.rooms.len() == 0,
        old(building)@.links.len() == 0,
        -1 + FLOOR_ROOMS * demanded(demands(what@), what.len() as int) <= i64::MAX,
    ensures
        final(building).wf(),
        final(building)@.links.len() == 0,
        (final(building)@.rooms, offspring as int) == floor_after(demands(what@), ROUNDS as int),
        final(building)@.rooms.len() <= 3 * ROUNDS,
        offspring == -1 + FLOOR_ROOMS * demanded(demands(what@), what.len() as int),
{
    let ghost kinds = demands(what@);
    let ghost total = demanded(kinds, what.len() as int);
    proof {
        crate::building::lemma_demanded_grows(kinds, 0, what.len() as int);
    }
    let mut offspring: i64 = -1;
    let mut i: i32 = 0;
    let ghost mut made: int = 0;
    assert(building@.rooms =~= floor_after(kinds, 0).0);
    while i < ROUNDS
        invariant
            0 <= i <= ROUNDS,
            building.wf(),
            kinds == demands(what@),
            total == demanded(kinds, what.len() as int),
            total >= 0,
            -1 + FLOOR_ROOMS * total <= i64::MAX,
            building@.links.len() == 0,
            building@.rooms.len() <= 3 * i,
            made == i + if i < 2 {
                i as int
            } else {
                2
            },
            offspring == -1 + made * total,
            (building@.rooms, offspring as int) == floor_after(kinds, i as int),
        decreases ROUNDS - i,
    {
        proof {
            assert((made + 1) * total == made * total + total) by (nonlinear_arith);
            assert((made + 2) * total == made * total + 2 * total) by (nonlinear_arith);
            let step: int = if i <= 1 {
                2
            } else {
                1
            };
            assert((made + step) * total <= FLOOR_ROOMS * total) by (nonlinear_arith)
                requires
                    made + step <= FLOOR_ROOMS,
                    total >= 0,
            ;
            assert((made + 1) * total <= (made + step) * total) by (nonlinear_arith)
                requires
                    1 <= step,
                    total >= 0,
            ;
        }
        if i <= 1 {
            offspring = building.add_room_with_doors(i, copy_demands(what), false, offspring);
            proof {
                made = made + 1;
            }
        }
        if i <= 4 {
            building.add_staircase(i);
        }
        offspring = building.add_room_without_doors(i, copy_demands(what), false, offspring);
        proof {
            made = made + 1;
        }
        i = i + 1;
    }
    offspring
}

/// Connects the rooms of the floor.
fn connect_floor(building: &mut Building)
    requires
        old(building).wf(),
        old(building)@.links.len() == 0,
    ensures
        final(building).wf(),
        final(building)@ == connected_floor(old(building)@),
        final(building)@.rooms == old(building)@.rooms,
        final(building)@.links.len() <= 22,
{
    join(building, "RwnD0", "RwD0", 0);
    join(building, "RwD0", "RwnD1", 1);
    join(building, "RwnD1", "S0", 2);
    join(building, "RwnD1", "RwD1", 3);
    join(building, "RwnD1", "RwnD2", 4);
    join(building, "RwnD2", "RwnD3", 5);
    join(building, "RwnD2", "RwnD4", 6);
    join(building, "RwnD4", "S1", 7);
    join(building, "RwnD4", "RwnD5", 8);
    join(building, "RwnD5", "RwnD0", 9);
    join(building, "RwnD5", "S2", 10);
    join(building, "RwnD5", "RwnD6", 11);
    join(building, "RwnD6", "RwnD7", 12);
    join(building, "RwnD7", "S3", 13);
    join(building, "RwnD7", "RwnD8", 14);
    join(building, "RwnD8", "RwnD4", 15);
    join(building, "RwnD8", "RwnD9", 16);
    join(building, "RwnD9", "RwnD10", 17);
    join(building, "RwnD10", "RwnD7", 18);
    join(building, "RwnD10", "S4", 19);
    join(building, "RwnD10", "RwnD11", 20);
    join(building, "RwnD11", "RwD1", 21);
}

/// Gives the rooms their sub-rooms and connects some of the sub-rooms.
fn furnish(building: &mut Building, what: &Vec<(u32, SensorType)>, first: i64) -> (last: i64)
    requires
        old(building).wf(),
        old(building)@.rooms.len() <= 3 * ROUNDS,
        old(building)@.links.len() <= 22,
        first + SUB_ROOMS * demanded(demands(what@), what.len() as int) <= i64::MAX,
    ensures
        final(building).wf(),
        (final(building)@, last as int) == furnished(
            (old(building)@, first as int),
            demands(what@),
        ),
{
    let mut offspring: i64 = first;
    offspring = extend(building, 14, "RwnD0", what, offspring, Ghost(0));
    door(building, "RwnD0_RwD10_sub", "RwnD0_RwD11_sub", 0);
    door(building, "RwnD0_RwD10_sub", "RwnD0_RwD11_sub", 1);
    offspring = extend(building, 7, "RwnD1", what, offspring, Ghost(14));
    offspring = extend(building, 7, "RwnD5", what, offspring, Ghost(21));
    offspring = extend(building, 3, "RwnD6", what, offspring, Ghost(28));
    offspring = extend(building, 6, "RwnD7", what, offspring, Ghost(31));
    offspring = extend(building, 3, "RwnD8", what, offspring, Ghost(37));
    offspring = extend(building, 5, "RwnD9", what, offspring, Ghost(40));
    offspring = extend(building, 10, "RwnD10", what, offspring, Ghost(45));
    offspring = extend(building, 9, "RwnD11", what, offspring, Ghost(55));
    offspring = extend(building, 5, "RwD0", what, offspring, Ghost(64));
    door(building, "RwD0_RwD0_sub", "RwD0_RwD1_sub", 0);
    door(building, "RwD0_RwD2_sub", "RwD0_RwD3_sub", 1);
    offspring = extend(building, 3, "RwD1", what, offspring, Ghost(69));
    offspring
}

/// Lays out the office building: the rooms of the floor with the sensors that
/// `sensor_types_for_rooms` asks for, their connections, and the sub-rooms
/// with the sensors that `sensor_types_for_sub_rooms` asks for. The number of
/// the last sensor is returned with the building.
pub fn create_building(
    sensor_types_for_rooms: &Vec<(u32, SensorType)>,
    sensor_types_for_sub_rooms: &Vec<(u32, SensorType)>,
) -> (r: (Building, i64))
    requires
        -1 + FLOOR_ROOMS * demanded(
            demands(sensor_types_for_rooms@),
            sensor_types_for_rooms.len() as int,
        ) + SUB_ROOMS * demanded(
            demands(sensor_types_for_sub_rooms@),
            sensor_types_for_sub_rooms.len() as int,
        ) <= i64::MAX,
    ensures
        r.0.wf(),
        (r.0@, r.1 as int) == office(
            demands(sensor_types_for_rooms@),
            demands(sensor_types_for_sub_rooms@),
        ),
{
    proof {
        crate::building::lemma_demanded_grows(
            demands(sensor_types_for_sub_rooms@),
            0,
            sensor_types_for_sub_rooms.len() as int,
        );
        assert(SUB_ROOMS * demanded(
            demands(sensor_types_for_sub_rooms@),
            sensor_types_for_sub_rooms.len() as int,
        ) >= 0) by (nonlinear_arith)
            requires
                demanded(
                    demands(sensor_types_for_sub_rooms@),
                    sensor_types_for_sub_rooms.len() as int,
                ) >= 0,
                SUB_ROOMS == 72,
        ;
    }
    let mut building = Building::new();
    let floor_last = make_floor(&mut building, sensor_types_for_rooms);
    assert(building@ == (BuildingView { rooms: building@.rooms, links: Seq::empty() })) by {
        assert(building@.links =~= Seq::<LinkView>::empty());
    }
    connect_floor(&mut building);
    let last = furnish(&mut building, sensor_types_for_sub_rooms, floor_last);
    (building, last)
}

} // verus!
