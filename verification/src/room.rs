//! The rooms of a building and the connections between them.
//!
//! Every room and every connection is known by an identifier that is made
//! from its kind and a number. A sub-room carries the identifier of the room
//! around it in front of its own and `_sub` behind it.

pub use crate::building::Building;
use crate::text::{chars_of, push_all, push_signed_decimal, push_str, signed_decimal, string_of};
use vstd::prelude::*;

verus! {

/// The text that ends the identifier of a sub-room or of its connection.
pub open spec fn sub_flag() -> Seq<char> {
    "_sub"@
}

/// The identifier of the staircase with the given number.
pub open spec fn staircase_id(id_count: int) -> Seq<char> {
    "S"@ + signed_decimal(id_count)
}

/// The identifier of a room: `kind` and the number, and for a sub-room the
/// parent's identifier and `_` in front and `_sub` behind.
pub open spec fn room_id(kind: Seq<char>, id_count: int, sub_room: bool, parent_id: Seq<char>) -> Seq<
    char,
> {
    let own = kind + signed_decimal(id_count);
    if sub_room {
        parent_id + "_"@ + own + sub_flag()
    } else {
        own
    }
}

/// The identifier of a connection: `kind` and the number, and `_sub` behind
/// them where the connection leads into a sub-room.
pub open spec fn connection_id(kind: Seq<char>, id_count: int, sub_door: bool) -> Seq<char> {
    let own = kind + signed_decimal(id_count);
    if sub_door {
        own + sub_flag()
    } else {
        own
    }
}

/// Builds the identifier of a room.
fn make_room_id(kind: &str, id_count: i32, sub_room: bool, parent_id: &String) -> (id: String)
    ensures
        id@ == room_id(kind@, id_count as int, sub_room, parent_id@),
{
    let mut own: Vec<char> = Vec::new();
    push_str(&mut own, kind);
    push_signed_decimal(&mut own, id_count as i64);
    if sub_room {
        let mut id: Vec<char> = chars_of(parent_id.as_str());
        push_str(&mut id, "_");
        push_all(&mut id, &own);
        push_str(&mut id, "_sub");
        string_of(&id)
    } else {
        string_of(&own)
    }
}

/// Builds the identifier of a connection.
fn make_connection_id(kind: &str, id_count: i32, sub_door: bool) -> (id: String)
    ensures
        id@ == connection_id(kind@, id_count as int, sub_door),
{
    let mut id: Vec<char> = Vec::new();
    push_str(&mut id, kind);
    push_signed_decimal(&mut id, id_count as i64);
    if sub_door {
        push_str(&mut id, "_sub");
    }
    string_of(&id)
}

/// A floor of a building.
#[derive(Debug, Clone, PartialEq, Eq)]
pub struct Floor {
    /// The identifier of the floor.
    pub id: String,
}

impl Floor {
    /// The identifier of the floor.
    pub fn get_id(&self) -> (id: String)
        ensures
            id@ == self.id@,
    {
        self.id.clone()
    }
}

/// A staircase, through which movable objects enter and leave.
#[derive(Debug, Clone, PartialEq, Eq)]
pub struct Staircase {
    /// The identifier of the staircase.
    pub id: String,
}

impl Staircase {
    /// The staircase with the given number.
    pub fn new(id_count: i32) -> (staircase: Staircase)
        ensures
            staircase.id@ == staircase_id(id_count as int),
    {
        let mut id: Vec<char> = Vec::new();
        push_str(&mut id, "S");
        push_signed_decimal(&mut id, id_count as i64);
        Staircase { id: string_of(&id) }
    }

    /// The identifier of the staircase.
    pub fn get_id(&self) -> (id: String)
        ensures
            id@ == self.id@,
    {
        self.id.clone()
    }
}

/// A room that is entered through doors.
#[derive(Debug, Clone, PartialEq, Eq)]
pub struct RoomWithDoors {
    /// The identifier of the room.
    pub id: String,
    /// Whether the room has windows.
    pub windows: bool,
}

impl RoomWithDoors {
    /// The room with the given number, or the sub-room with that number of
    /// the room `parent_id`.
    pub fn new(id_count: i32, sub_room: bool, parent_id: String, windows: bool) -> (room:
        RoomWithDoors)
        ensures
            room.id@ == room_id("RwD"@, id_count as int, sub_room, parent_id@),
            room.windows == windows,
    {
        RoomWithDoors { id: make_room_id("RwD", id_count, sub_room, &parent_id), windows }
    }

    /// Whether the room has windows.
    pub fn has_windows(&self) -> (windows: bool)
        ensures
            windows == self.windows,
    {
        self.windows
    }

    /// The identifier of the room.
    pub fn get_id(&self) -> (id: String)
        ensures
            id@ == self.id@,
    {
        self.id.clone()
    }
}

/// A room that is open to its neighbours.
#[derive(Debug, Clone, PartialEq, Eq)]
pub struct RoomWithoutDoors {
    /// The identifier of the room.
    pub id: String,
    /// Whether the room has windows.
    pub windows: bool,
}

impl RoomWithoutDoors {
    /// The room with the given number, or the sub-room with that number of
    /// the room `parent_id`.
    pub fn new(id_count: i32, sub_room: bool, parent_id: String, windows: bool) -> (room:
        RoomWithoutDoors)
        ensures
            room.id@ == room_id("RwnD"@, id_count as int, sub_room, parent_id@),
            room.windows == windows,
    {
        RoomWithoutDoors { id: make_room_id("RwnD", id_count, sub_room, &parent_id), windows }
    }

    /// Whether the room has windows.
    pub fn has_windows(&self) -> (windows: bool)
        ensures
            windows == self.windows,
    {
        self.windows
    }

    /// The identifier of the room.
    pub fn get_id(&self) -> (id: String)
        ensures
            id@ == self.id@,
    {
        self.id.clone()
    }
}

/// A connection of two rooms through a door.
#[derive(Debug, Clone, PartialEq, Eq)]
pub struct Door {
    /// The identifier of the door.
    pub id: String,
}

impl Door {
    /// The door with the given number.
    pub fn new(id_count: i32, sub_door: bool) -> (door: Door)
        ensures
            door.id@ == connection_id("Door"@, id_count as int, sub_door),
    {
        Door { id: make_connection_id("Door", id_count, sub_door) }
    }

    /// The identifier of the door.
    pub fn get_id(&self) -> (id: String)
        ensures
            id@ == self.id@,
    {
        self.id.clone()
    }
}

/// A connection of two rooms without a door.
#[derive(Debug, Clone, PartialEq, Eq)]
pub struct NoDoor {
    /// The identifier of the connection.
    pub id: String,
}

impl NoDoor {
    /// The open connection with the given number.
    pub fn new(id_count: i32, sub_door: bool) -> (no_door: NoDoor)
        ensures
            no_door.id@ == connection_id("NoDoor"@, id_count as int, sub_door),
    {
        NoDoor { id: make_connection_id("NoDoor", id_count, sub_door) }
    }

    /// The identifier of the connection.
    pub fn get_id(&self) -> (id: String)
        ensures
            id@ == self.id@,
    {
        self.id.clone()
    }
}

/// What a node of the building is.
#[derive(Debug, Clone, PartialEq, Eq)]
pub enum NodeData {
    Floor(Floor),
    Staircase(Staircase),
    RoomWithDoors(RoomWithDoors),
    RoomWithoutDoors(RoomWithoutDoors),
}

/// What a connection of the building is.
#[derive(Debug, Clone, PartialEq, Eq)]
pub enum EdgeData {
    Door(Door),
    NoDoor(NoDoor),
}

/// A location of the building with its sensors.
#[derive(Debug, Clone, PartialEq, Eq)]
pub struct Node {
    /// What the location is.
    pub data: NodeData,
    /// The sensors of the location.
    pub sensors: Vec<crate::sensor::Sensor>,
}

/// A connection of two locations.
#[derive(Debug, Clone, PartialEq, Eq)]
pub struct Edge {
    /// What the connection is.
    pub data: EdgeData,
}

} // verus!
