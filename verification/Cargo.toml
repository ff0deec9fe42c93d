[package]
name = "process_wrapper_worker"
version = "0.1.0"
edition = "2021"
publish = false

[dependencies]
tinyjson = "2.5"
