[package]
name = "winston"
version = "0.1.0"
edition = "2021"
publish = false

[dependencies]
chrono = "*"
crossbeam-channel = "*"
parking_lot = "*"
logform = "*"
winston_transport = "*"
serde_json = "*"
