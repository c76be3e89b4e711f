//! The people who move through the building.

use chrono::{NaiveTime, TimeDelta};
use vstd::prelude::*;

verus! {

#[verifier::external_type_specification]
#[verifier::external_body]
pub struct ExTimeDelta(TimeDelta);

/// A group of individuals. Each of them enters the building, goes to a
/// number of places at a steady speed and leaves again.
pub struct Individual {
    /// How many individuals there are.
    pub number_of_movable_objects: u32,
    /// The time of day from which individuals enter.
    pub time_of_creation: NaiveTime,
    /// The time of day by which individuals have left.
    pub time_of_deletion: NaiveTime,
    /// How many places an individual goes to.
    pub number_of_random_moves: u32,
    /// The time that an individual needs from one location to the next.
    pub speed: TimeDelta,
}

impl Individual {
    /// A group of individuals.
    pub fn new(
        number_of_movable_objects: u32,
        time_of_creation: NaiveTime,
        time_of_deletion: NaiveTime,
        number_of_random_moves: u32,
        speed: TimeDelta,
    ) -> (individual: Individual)
        ensures
            individual.number_of_movable_objects == number_of_movable_objects,
            individual.time_of_creation == time_of_creation,
            individual.time_of_deletion == time_of_deletion,
            individual.number_of_random_moves == number_of_random_moves,
            individual.speed == speed,
    {
        Individual {
            number_of_movable_objects,
            time_of_creation,
            time_of_deletion,
            number_of_random_moves,
            speed,
        }
    }

    /// How many individuals there are.
    pub fn get_number_of_movable_objects(&self) -> (n: u32)
        ensures
            n == self.number_of_movable_objects,
    {
        self.number_of_movable_objects
    }

    /// How many places an individual goes to.
    pub fn get_number_of_random_moves(&self) -> (n: u32)
        ensures
            n == self.number_of_random_moves,
    {
        self.number_of_random_moves
    }

    /// The time of day from which individuals enter.
    pub fn get_time_of_creation(&self) -> (time: NaiveTime)
        ensures
            time == self.time_of_creation,
    {
        self.time_of_creation
    }

    /// The time of day by which individuals have left.
    pub fn get_time_of_deletion(&self) -> (time: NaiveTime)
        ensures
            time == self.time_of_deletion,
    {
        self.time_of_deletion
    }

    /// The time that an individual needs from one location to the next.
    pub fn get_speed(&self) -> (speed: TimeDelta)
        ensures
            speed == self.speed,
    {
        self.speed
    }
}

} // verus!
