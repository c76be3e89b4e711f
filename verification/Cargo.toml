[package]
name = "building_automation"
version = "0.1.0"
edition = "2021"
publish = false

[dependencies]
chrono = "0.4"
petgraph = "0.6"
rand = "0.8"
