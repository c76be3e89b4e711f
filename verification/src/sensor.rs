//! The sensors of a location.

use crate::identifier::occupancy_tag;
use crate::text::{chars_of, same_chars};
use vstd::prelude::*;

verus! {

/// A type of sensor, known by its identifier.
#[derive(Debug, Clone, PartialEq, Eq)]
pub struct SensorType {
    /// The identifier of the type, such as `SensorType_1`.
    pub id: String,
}

impl SensorType {
    /// The sensor type with the given identifier.
    pub fn new(id: String) -> (sensor_type: SensorType)
        ensures
            sensor_type.id == id,
    {
        SensorType { id }
    }

    /// The identifier of the type.
    pub fn get_id(&self) -> (id: String)
        ensures
            id@ == self.id@,
    {
        self.id.clone()
    }

    /// A second sensor type of the same value.
    pub fn duplicate(&self) -> (copy: SensorType)
        ensures
            copy.id@ == self.id@,
    {
        SensorType { id: self.id.clone() }
    }
}

/// A sensor that is attached to a location.
#[derive(Debug, Clone, PartialEq, Eq)]
pub struct Sensor {
    /// The identifier of the sensor.
    pub id: String,
    /// The type of the sensor.
    pub sensor_type: SensorType,
    /// The number of the sensor among all sensors of the building.
    pub number: i64,
}

/// The mathematical value of a [`Sensor`].
pub struct SensorView {
    pub id: Seq<char>,
    pub sensor_type: Seq<char>,
    pub number: int,
}

impl View for Sensor {
    type V = SensorView;

    open spec fn view(&self) -> SensorView {
        SensorView { id: self.id@, sensor_type: self.sensor_type.id@, number: self.number as int }
    }
}

/// The values of a list of sensors.
pub open spec fn sensor_views(sensors: Seq<Sensor>) -> Seq<SensorView> {
    sensors.map_values(|s: Sensor| s@)
}

/// The sensor only detects presence.
pub open spec fn is_occupancy_sensor(sensor: SensorView) -> bool {
    sensor.sensor_type == occupancy_tag()
}

impl Sensor {
    /// A sensor with the given identifier, type and number.
    pub fn new(id: String, sensor_type: SensorType, number: i64) -> (sensor: Sensor)
        ensures
            sensor.id == id,
            sensor.sensor_type == sensor_type,
            sensor.number == number,
    {
        Sensor { id, sensor_type, number }
    }

    /// The identifier of the sensor.
    pub fn get_id(&self) -> (id: String)
        ensures
            id@ == self.id@,
    {
        self.id.clone()
    }

    /// The number of the sensor.
    pub fn get_number(&self) -> (number: i64)
        ensures
            number == self.number,
    {
        self.number
    }

    /// The type of the sensor.
    pub fn get_sensor_type(&self) -> (sensor_type: SensorType)
        ensures
            sensor_type.id@ == self.sensor_type.id@,
    {
        self.sensor_type.duplicate()
    }

    /// Gives the sensor another identifier.
    pub fn set_id(&mut self, id: String)
        ensures
            final(self).id == id,
            final(self).sensor_type == old(self).sensor_type,
            final(self).number == old(self).number,
    {
        self.id = id;
    }

    /// A second sensor of the same value.
    pub fn duplicate(&self) -> (copy: Sensor)
        ensures
            copy@ == self@,
    {
        Sensor {
            id: self.id.clone(),
            sensor_type: self.sensor_type.duplicate(),
            number: self.number,
        }
    }

    /// Whether the sensor only detects presence.
    pub fn detects_occupancy(&self) -> (b: bool)
        ensures
            b == is_occupancy_sensor(self@),
    {
        let held = chars_of(self.sensor_type.id.as_str());
        let tag = chars_of("SensorType_1");
        same_chars(&held, &tag)
    }
}

} // verus!
