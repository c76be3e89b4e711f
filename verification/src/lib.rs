//! Analysis of building-automation event timelines.
//!
//! The crate pairs state-change messages into energy figures, derives
//! occupancy messages from movement events, and models the building topology
//! whose identifiers both steps read.

pub mod building;
pub mod clock;
pub mod error;
pub mod evaluation;
pub mod event;
pub mod graph;
pub mod human;
pub mod identifier;
pub mod layout;
pub mod render;
pub mod room;
pub mod rules;
pub mod sensor;
pub mod text;
pub mod uplink;
pub mod weather;
