//! The lighting rules of a building.
//!
//! A location with presence-only sensors and with lights gets rules: the
//! lights go on when someone arrives. In a sub-room they go off when the
//! room is left. In any other room they are dimmed when the room is left by
//! day, and they go off when it is left by night.

use crate::building::{Building, NodeView};
use crate::graph::graph_node_weight;
use crate::identifier::occupancy_tag;
use crate::sensor::{sensor_views, Sensor, SensorView};
use crate::text::{chars_of, contains, contains_in, push_all, push_str, string_of};
use vstd::prelude::*;

verus! {

/// The state of a light that an action asks for: on.
pub const LIGHT_ON: u8 = 0;

/// The state of a light that an action asks for: dimmed.
pub const LIGHT_DIM: u8 = 1;

/// The state of a light that an action asks for: off.
pub const LIGHT_OFF: u8 = 2;

/// The second of the day from which lights are dimmed: 06:30:00.
pub const DAY_BEGINS: u32 = 23_400;

/// The second of the day up to which lights are dimmed: 17:59:59.
pub const DAY_ENDS: u32 = 64_799;

/// The second of the day from which lights go off: 18:00:00.
pub const NIGHT_BEGINS: u32 = 64_800;

/// The second of the day up to which lights go off: 06:29:59.
pub const NIGHT_ENDS: u32 = 23_399;

/// What a sensor has to report for a rule to apply.
#[derive(Debug, Clone, PartialEq, Eq)]
pub struct DeviceCondition {
    /// The identifier of the sensor.
    pub sensor_id: String,
    /// The number of the sensor.
    pub number: i64,
    /// Whether the sensor has to report presence, or absence.
    pub occupied: bool,
}

/// What a rule does to a light.
#[derive(Debug, Clone, PartialEq, Eq)]
pub struct DeviceAction {
    /// The identifier of the light.
    pub sensor_id: String,
    /// The number of the light.
    pub number: i64,
    /// The state that the light is to take.
    pub state: u8,
}

/// The stretch of the day in which a rule applies, in seconds of the day. A
/// stretch that ends before it begins goes past midnight.
#[derive(Debug, Clone, Copy, PartialEq, Eq)]
pub struct TimeWindow {
    pub start: u32,
    pub end: u32,
}

/// How two conditions of a rule are joined.
#[derive(Debug, Clone, Copy, PartialEq, Eq)]
pub enum Joint {
    /// One of the two has to hold.
    Or,
    /// Both have to hold.
    And,
}

/// A rule: when its conditions hold, joined from left to right, its actions
/// are taken. The time condition, where there is one, is the last condition.
#[derive(Debug, Clone, PartialEq, Eq)]
pub struct RulePlan {
    pub name: String,
    pub conditions: Vec<DeviceCondition>,
    pub time: Option<TimeWindow>,
    pub joints: Vec<Joint>,
    pub actions: Vec<DeviceAction>,
}

/// The mathematical value of a [`DeviceCondition`].
pub struct ConditionView {
    pub sensor_id: Seq<char>,
    pub number: int,
    pub occupied: bool,
}

/// The mathematical value of a [`DeviceAction`].
pub struct ActionPlanView {
    pub sensor_id: Seq<char>,
    pub number: int,
    pub state: int,
}

/// The mathematical value of a [`RulePlan`].
pub struct RuleView {
    pub name: Seq<char>,
    pub conditions: Seq<ConditionView>,
    pub time: Option<TimeWindow>,
    pub joints: Seq<Joint>,
    pub actions: Seq<ActionPlanView>,
}

impl View for DeviceCondition {
    type V = ConditionView;

    open spec fn view(&self) -> ConditionView {
        ConditionView {
            sensor_id: self.sensor_id@,
            number: self.number as int,
            occupied: self.occupied,
        }
    }
}

impl View for DeviceAction {
    type V = ActionPlanView;

    open spec fn view(&self) -> ActionPlanView {
        ActionPlanView {
            sensor_id: self.sensor_id@,
            number: self.number as int,
            state: self.state as int,
        }
    }
}

impl View for RulePlan {
    type V = RuleView;

    open spec fn view(&self) -> RuleView {
        RuleView {
            name: self.name@,
            conditions: self.conditions@.map_values(|c: DeviceCondition| c@),
            time: self.time,
            joints: self.joints@,
            actions: self.actions@.map_values(|a: DeviceAction| a@),
        }
    }
}

/// The values of a list of rules.
pub open spec fn rule_views(rules: Seq<RulePlan>) -> Seq<RuleView> {
    rules.map_values(|r: RulePlan| r@)
}

/// The tag of the sensor type of lights.
pub open spec fn light_tag() -> Seq<char> {
    "SensorType_0"@
}

/// The sensor detects presence, going by its type.
pub open spec fn is_detector(sensor: SensorView) -> bool {
    contains(sensor.sensor_type, occupancy_tag())
}

/// The sensor is a light, going by its type.
pub open spec fn is_light(sensor: SensorView) -> bool {
    !is_detector(sensor) && contains(sensor.sensor_type, light_tag())
}

/// The detectors among the first `n` sensors, in order.
pub open spec fn detectors(sensors: Seq<SensorView>, n: int) -> Seq<SensorView>
    decreases n,
{
    if n <= 0 {
        Seq::empty()
    } else if is_detector(sensors[n - 1]) {
        detectors(sensors, n - 1).push(sensors[n - 1])
    } else {
        detectors(sensors, n - 1)
    }
}

/// The lights among the first `n` sensors, in order.
pub open spec fn lights(sensors: Seq<SensorView>, n: int) -> Seq<SensorView>
    decreases n,
{
    if n <= 0 {
        Seq::empty()
    } else if is_light(sensors[n - 1]) {
        lights(sensors, n - 1).push(sensors[n - 1])
    } else {
        lights(sensors, n - 1)
    }
}

/// One condition for each detector.
pub open spec fn conditions_of(found: Seq<SensorView>, occupied: bool) -> Seq<ConditionView> {
    found.map_values(|s: SensorView| ConditionView { sensor_id: s.id, number: s.number, occupied })
}

/// One action for each light.
pub open spec fn actions_of(found: Seq<SensorView>, state: int) -> Seq<ActionPlanView> {
    found.map_values(|s: SensorView| ActionPlanView { sensor_id: s.id, number: s.number, state })
}

/// The joints of a rule with `count` detectors: any detector will do, and the
/// time has to fit as well where the rule has one.
pub open spec fn joints_of(count: int, timed: bool) -> Seq<Joint> {
    let any = Seq::new(
        if count > 1 {
            (count - 1) as nat
        } else {
            0
        },
        |i: int| Joint::Or,
    );
    if timed {
        any.push(Joint::And)
    } else {
        any
    }
}

/// A rule of the location `room`.
pub open spec fn rule_of(
    prefix: Seq<char>,
    room: Seq<char>,
    found: Seq<SensorView>,
    occupied: bool,
    time: Option<TimeWindow>,
    lamps: Seq<SensorView>,
    state: int,
) -> RuleView {
    RuleView {
        name: prefix + room,
        conditions: conditions_of(found, occupied),
        time,
        joints: joints_of(found.len() as int, time is Some),
        actions: actions_of(lamps, state),
    }
}

/// The location is a sub-room, going by its identifier.
pub open spec fn is_sub_room(room: Seq<char>) -> bool {
    contains(room, "_sub"@)
}

/// The rules of a location with the given identifier and sensors.
pub open spec fn room_rules(room: Seq<char>, sensors: Seq<SensorView>) -> Seq<RuleView> {
    let found = detectors(sensors, sensors.len() as int);
    let lamps = lights(sensors, sensors.len() as int);
    if found.len() == 0 || lamps.len() == 0 {
        Seq::empty()
    } else {
        let arrive = rule_of(
            "Turn_lights_on_when_arriving_rule_node_"@,
            room,
            found,
            true,
            None,
            lamps,
            LIGHT_ON as int,
        );
        if is_sub_room(room) {
            seq![
                arrive,
                rule_of(
                    "Turn_lights_off_when_leaving_rule_node_"@,
                    room,
                    found,
                    false,
                    None,
                    lamps,
                    LIGHT_OFF as int,
                ),
            ]
        } else {
            seq![
                arrive,
                rule_of(
                    "Dim_lights_when_leaving_+_time_rule_node_"@,
                    room,
                    found,
                    false,
                    Some(TimeWindow { start: DAY_BEGINS, end: DAY_ENDS }),
                    lamps,
                    LIGHT_DIM as int,
                ),
                rule_of(
                    "Turn_lights_off_when_leaving_+_time_rule_node"@,
                    room,
                    found,
                    false,
                    Some(TimeWindow { start: NIGHT_BEGINS, end: NIGHT_ENDS }),
                    lamps,
                    LIGHT_OFF as int,
                ),
            ]
        }
    }
}

/// The rules of the first `n` locations, in the order of the locations.
pub open spec fn building_rules(rooms: Seq<NodeView>, n: int) -> Seq<RuleView>
    decreases n,
{
    if n <= 0 {
        Seq::empty()
    } else {
        building_rules(rooms, n - 1) + room_rules(rooms[n - 1].id, rooms[n - 1].sensors)
    }
}

/// The detectors and the lights among the given sensors.
pub fn sort_sensors(sensors: &Vec<Sensor>) -> (r: (Vec<Sensor>, Vec<Sensor>))
    ensures
        sensor_views(r.0@) == detectors(sensor_views(sensors@), sensors.len() as int),
        sensor_views(r.1@) == lights(sensor_views(sensors@), sensors.len() as int),
{
    let ghost all = sensor_views(sensors@);
    let detector_tag = chars_of("SensorType_1");
    let lamp_tag = chars_of("SensorType_0");
    let mut found: Vec<Sensor> = Vec::new();
    let mut lamps: Vec<Sensor> = Vec::new();
    let mut i: usize = 0;
    assert(sensor_views(found@) =~= detectors(all, 0));
    assert(sensor_views(lamps@) =~= lights(all, 0));
    while i < sensors.len()
        invariant
            i <= sensors.len(),
            all == sensor_views(sensors@),
            detector_tag@ == occupancy_tag(),
            lamp_tag@ == light_tag(),
            sensor_views(found@) == detectors(all, i as int),
            sensor_views(lamps@) == lights(all, i as int),
        decreases sensors.len() - i,
    {
        assert(all[i as int] == sensors[i as int]@);
        let kind = chars_of(sensors[i].sensor_type.id.as_str());
        if contains_in(&kind, &detector_tag) {
            let ghost held = sensor_views(found@);
            let copy = sensors[i].duplicate();
            found.push(copy);
            assert(sensor_views(found@) =~= held.push(copy@));
        } else if contains_in(&kind, &lamp_tag) {
            let ghost held = sensor_views(lamps@);
            let copy = sensors[i].duplicate();
            lamps.push(copy);
            assert(sensor_views(lamps@) =~= held.push(copy@));
        }
        i += 1;
    }
    (found, lamps)
}

/// Makes one rule of a location.
pub fn make_rule(
    prefix: &str,
    room: &Vec<char>,
    found: &Vec<Sensor>,
    occupied: bool,
    time: Option<TimeWindow>,
    lamps: &Vec<Sensor>,
    state: u8,
) -> (rule: RulePlan)
    ensures
        rule@ == rule_of(
            prefix@,
            room@,
            sensor_views(found@),
            occupied,
            time,
            sensor_views(lamps@),
            state as int,
        ),
{
    let mut name: Vec<char> = Vec::new();
    push_str(&mut name, prefix);
    push_all(&mut name, room);
    let mut conditions: Vec<DeviceCondition> = Vec::new();
    let mut i: usize = 0;
    while i < found.len()
        invariant
            i <= found.len(),
            conditions.len() == i,
            forall|k: int|
                0 <= k < i ==> (#[trigger] conditions[k])@ == conditions_of(
                    sensor_views(found@),
                    occupied,
                )[k],
        decreases found.len() - i,
    {
        conditions.push(
            DeviceCondition {
                sensor_id: found[i].id.clone(),
                number: found[i].number,
                occupied,
            },
        );
        i += 1;
    }
    let mut joints: Vec<Joint> = Vec::new();
    let mut j: usize = 1;
    while j < found.len()
        invariant
            1 <= j,
            j <= found.len() || (found.len() == 0 && j == 1),
            joints.len() == j - 1,
            forall|k: int| 0 <= k < joints.len() ==> #[trigger] joints[k] == Joint::Or,
        decreases found.len() - j,
    {
        joints.push(Joint::Or);
        j += 1;
    }
    let ghost any = joints@;
    assert(any =~= joints_of(found.len() as int, false));
    if time.is_some() {
        joints.push(Joint::And);
        assert(joints@ =~= any.push(Joint::And));
    }
    assert(joints@ =~= joints_of(found.len() as int, time is Some));
    let mut actions: Vec<DeviceAction> = Vec::new();
    let mut a: usize = 0;
    while a < lamps.len()
        invariant
            a <= lamps.len(),
            actions.len() == a,
            forall|k: int|
                0 <= k < a ==> (#[trigger] actions[k])@ == actions_of(
                    sensor_views(lamps@),
                    state as int,
                )[k],
        decreases lamps.len() - a,
    {
        actions.push(
            DeviceAction { sensor_id: lamps[a].id.clone(), number: lamps[a].number, state },
        );
        a += 1;
    }
    let rule = RulePlan { name: string_of(&name), conditions, time, joints, actions };
    assert(rule@.conditions =~= conditions_of(sensor_views(found@), occupied));
    assert(rule@.actions =~= actions_of(sensor_views(lamps@), state as int));
    assert(rule@.joints =~= joints_of(found.len() as int, time is Some));
    rule
}

/// The rules of a location with the given identifier and sensors.
pub fn rules_for_room(id: &String, sensors: &Vec<Sensor>) -> (rules: Vec<RulePlan>)
    ensures
        rule_views(rules@) == room_rules(id@, sensor_views(sensors@)),
{
    let mut rules: Vec<RulePlan> = Vec::new();
    let (found, lamps) = sort_sensors(sensors);
    if found.len() == 0 || lamps.len() == 0 {
        assert(rule_views(rules@) =~= room_rules(id@, sensor_views(sensors@)));
        return rules;
    }
    let room = chars_of(id.as_str());
    let marker = chars_of("_sub");
    rules.push(
        make_rule(
            "Turn_lights_on_when_arriving_rule_node_",
            &room,
            &found,
            true,
            None,
            &lamps,
            LIGHT_ON,
        ),
    );
    if contains_in(&room, &marker) {
        rules.push(
            make_rule(
                "Turn_lights_off_when_leaving_rule_node_",
                &room,
                &found,
                false,
                None,
                &lamps,
                LIGHT_OFF,
            ),
        );
    } else {
        rules.push(
            make_rule(
                "Dim_lights_when_leaving_+_time_rule_node_",
                &room,
                &found,
                false,
                Some(TimeWindow { start: DAY_BEGINS, end: DAY_ENDS }),
                &lamps,
                LIGHT_DIM,
            ),
        );
        rules.push(
            make_rule(
                "Turn_lights_off_when_leaving_+_time_rule_node",
                &room,
                &found,
                false,
                Some(TimeWindow { start: NIGHT_BEGINS, end: NIGHT_ENDS }),
                &lamps,
                LIGHT_OFF,
            ),
        );
    }
    assert(rule_views(rules@) =~= room_rules(id@, sensor_views(sensors@)));
    rules
}

/// The lighting rules of a building, location by location.
pub fn create_rules(building: &Building) -> (rules: Vec<RulePlan>)
    requires
        building.wf(),
    ensures
        rule_views(rules@) == building_rules(building@.rooms, building@.rooms.len() as int),
{
    let n = building.get_number_of_rooms();
    let mut rules: Vec<RulePlan> = Vec::new();
    let mut k: usize = 0;
    assert(rule_views(rules@) =~= building_rules(building@.rooms, 0));
    while k < n
        invariant
            k <= n,
            n == building@.rooms.len(),
            building.wf(),
            rule_views(rules@) == building_rules(building@.rooms, k as int),
        decreases n - k,
    {
        let id = building.room_id_at(k);
        let mut more = match graph_node_weight(&building.floors, k) {
            Some(node) => {
                assert(node@.sensors == sensor_views(node.sensors@));
                rules_for_room(&id, &node.sensors)
            },
            None => Vec::new(),
        };
        let ghost held = rule_views(rules@);
        let ghost added = rule_views(more@);
        rules.append(&mut more);
        assert(rule_views(rules@) =~= held + added);
        k += 1;
    }
    rules
}

} // verus!
