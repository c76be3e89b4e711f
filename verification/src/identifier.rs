//! The grammar of entity identifiers and message payloads.
//!
//! A sensor's identifier reads `Sensor_<location>_no._<n>_of_type_<type>`,
//! which other text may precede. A movable object's identifier reads
//! `Movable_object_<entity>_<...>.<step>`. A payload reads
//! `<prefix>:<state>` and may go on after a comma.

use crate::text::{
    after_prefixes, chars_of, contains, contains_in, find, find_in, matches_at, parse_index,
    parse_index_in, remove_char, same_chars, skip_prefixes, slice_of, starts_with, without,
};
use vstd::prelude::*;

verus! {

/// The part of a building that a location belongs to.
#[derive(Debug, Clone, Copy, PartialEq, Eq)]
pub enum Category {
    /// A room inside another room.
    SubRoom,
    /// A room of its own.
    Room,
}

/// The state that a light reports.
#[derive(Debug, Clone, Copy, PartialEq, Eq)]
pub enum LightState {
    On,
    Dim,
    Off,
}

/// What a movable object's identifier names.
#[derive(Debug, Clone, Copy, PartialEq, Eq)]
pub struct MoveId {
    /// The number of the movable object.
    pub entity: usize,
    /// The number of the step that the object has just made.
    pub step: usize,
}

/// The text in front of the location in a sensor's identifier.
pub open spec fn sensor_marker() -> Seq<char> {
    "Sensor_"@
}

/// The text behind the location in a sensor's identifier.
pub open spec fn instance_marker() -> Seq<char> {
    "_no."@
}

/// The tag of the sensor type that only detects presence.
pub open spec fn occupancy_tag() -> Seq<char> {
    "SensorType_1"@
}

/// The text that marks the location of a sub-room.
pub open spec fn sub_room_marker() -> Seq<char> {
    "sub"@
}

/// The text that separates the prefix of a payload from its state.
pub open spec fn state_separator() -> Seq<char> {
    ":"@
}

/// The text that a movable object's identifier begins with.
pub open spec fn movable_marker() -> Seq<char> {
    "Movable_object_"@
}

/// The text that ends the entity number in a movable object's identifier.
pub open spec fn entity_separator() -> Seq<char> {
    "_"@
}

/// The text in front of the step number in a movable object's identifier.
pub open spec fn step_separator() -> Seq<char> {
    "."@
}

/// The identifier belongs to a sensor that only detects presence.
pub open spec fn is_occupancy_id(id: Seq<char>) -> bool {
    contains(id, occupancy_tag())
}

/// The location that a sensor's identifier names: what stands between the
/// first `Sensor_` and the first `_no.` behind it. An identifier without
/// either marker names no location.
pub open spec fn location_key(id: Seq<char>) -> Option<Seq<char>> {
    match find(id, sensor_marker()) {
        Some(a) => {
            let rest = id.skip(a + sensor_marker().len());
            match find(rest, instance_marker()) {
                Some(b) => Some(rest.take(b)),
                None => None,
            }
        },
        None => None,
    }
}

/// The category of the location with the given key.
pub open spec fn category_of(key: Seq<char>) -> Category {
    if contains(key, sub_room_marker()) {
        Category::SubRoom
    } else {
        Category::Room
    }
}

/// The state token of a payload: what follows the first `:`, without its
/// commas. A payload without `:` has none.
pub open spec fn state_token(payload: Seq<char>) -> Option<Seq<char>> {
    match find(payload, state_separator()) {
        Some(i) => Some(without(payload.skip(i + state_separator().len()), ',')),
        None => None,
    }
}

/// The light state that a state token names, if it names one.
pub open spec fn light_state(token: Seq<char>) -> Option<LightState> {
    if token == "On"@ {
        Some(LightState::On)
    } else if token == "Dim"@ {
        Some(LightState::Dim)
    } else if token == "Off"@ {
        Some(LightState::Off)
    } else {
        None
    }
}

/// What a movable object's identifier names. The identifier begins with
/// `Movable_object_`; behind the leading copies of that text stands the
/// entity number, up to the next `_`; the step number is what follows the
/// first `.` once every `_` is taken out of the identifier.
pub open spec fn parse_move_id(id: Seq<char>) -> Option<MoveId> {
    if !starts_with(id, movable_marker()) {
        None
    } else {
        let rest = id.skip(after_prefixes(id, movable_marker(), 0));
        let flat = without(id, '_');
        match (find(rest, entity_separator()), find(flat, step_separator())) {
            (Some(u), Some(d)) => match (
                parse_index(rest.take(u)),
                parse_index(flat.skip(d + step_separator().len())),
            ) {
                (Some(entity), Some(step)) => Some(MoveId { entity, step }),
                _ => None,
            },
            _ => None,
        }
    }
}

/// Whether the identifier belongs to a sensor that only detects presence.
pub fn is_occupancy(id: &Vec<char>) -> (b: bool)
    ensures
        b == is_occupancy_id(id@),
{
    let tag = chars_of("SensorType_1");
    contains_in(id, &tag)
}

/// The location that a sensor's identifier names.
pub fn location_key_of(id: &Vec<char>) -> (key: Option<Vec<char>>)
    ensures
        match key {
            Some(k) => location_key(id@) == Some(k@),
            None => location_key(id@) is None,
        },
{
    let marker = chars_of("Sensor_");
    match find_in(id, &marker) {
        Some(a) => {
            let rest = slice_of(id, a + marker.len(), id.len());
            let instance = chars_of("_no.");
            match find_in(&rest, &instance) {
                Some(b) => Some(slice_of(&rest, 0, b)),
                None => None,
            }
        },
        None => None,
    }
}

/// The category of the location with the given key.
pub fn category_of_key(key: &Vec<char>) -> (category: Category)
    ensures
        category == category_of(key@),
{
    let marker = chars_of("sub");
    if contains_in(key, &marker) {
        Category::SubRoom
    } else {
        Category::Room
    }
}

/// The state token of a payload.
pub fn state_token_of(payload: &Vec<char>) -> (token: Option<Vec<char>>)
    ensures
        match token {
            Some(t) => state_token(payload@) == Some(t@),
            None => state_token(payload@) is None,
        },
{
    let separator = chars_of(":");
    match find_in(payload, &separator) {
        Some(i) => {
            let tail = slice_of(payload, i + separator.len(), payload.len());
            Some(remove_char(&tail, ','))
        },
        None => None,
    }
}

/// The light state that a state token names.
pub fn light_state_of(token: &Vec<char>) -> (state: Option<LightState>)
    ensures
        state == light_state(token@),
{
    let on = chars_of("On");
    let dim = chars_of("Dim");
    let off = chars_of("Off");
    if same_chars(token, &on) {
        Some(LightState::On)
    } else if same_chars(token, &dim) {
        Some(LightState::Dim)
    } else if same_chars(token, &off) {
        Some(LightState::Off)
    } else {
        None
    }
}

/// Reads a movable object's identifier.
pub fn parse_move_id_of(id: &Vec<char>) -> (r: Option<MoveId>)
    ensures
        r == parse_move_id(id@),
{
    let marker = chars_of("Movable_object_");
    if !matches_at(id, &marker, 0) {
        return None;
    }
    let start = skip_prefixes(id, &marker);
    let rest = slice_of(id, start, id.len());
    let flat = remove_char(id, '_');
    let underscore = chars_of("_");
    let dot = chars_of(".");
    let entity_end = match find_in(&rest, &underscore) {
        Some(u) => u,
        None => {
            return None;
        },
    };
    let step_start = match find_in(&flat, &dot) {
        Some(d) => d + dot.len(),
        None => {
            return None;
        },
    };
    assert(rest@.take(entity_end as int) == rest@.subrange(0, entity_end as int));
    assert(flat@.skip(step_start as int) == flat@.subrange(
        step_start as int,
        flat@.len() as int,
    ));
    let entity = match parse_index_in(&rest, 0, entity_end) {
        Some(e) => e,
        None => {
            return None;
        },
    };
    match parse_index_in(&flat, step_start, flat.len()) {
        Some(step) => Some(MoveId { entity, step }),
        None => None,
    }
}

} // verus!
