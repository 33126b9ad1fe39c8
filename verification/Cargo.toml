[package]
name = "river"
version = "0.1.0"
edition = "2021"
publish = false

[dependencies]
chrono = "0.4"
clap = "2"
egg-mode = "0.15"
self_update = "*"
tokio = { version = "0.2", features = ["macros", "rt-threaded", "time"] }
walkdir = "2"
yansi = "0.5"
