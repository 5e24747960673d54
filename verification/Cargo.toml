[package]
name = "antigen_core"
version = "0.1.0"
edition = "2021"
publish = false

[dependencies]
crossbeam-channel = "0.5"
parking_lot = "0.12"
