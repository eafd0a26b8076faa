[package]
name = "clashmap"
version = "1.0.0"
edition = "2021"
publish = false

[dependencies]
lock_api = "0.4"
parking_lot_core = "0.9"
crossbeam-utils = "0.8"
