[package]
name = "shift_planner"
version = "0.1.0"
edition = "2021"
publish = false

[dependencies]
chrono = "0.4"
prost = "0.13"
serde = { version = "1", features = ["derive"] }
serde_json = "1"
tokio = { version = "1", features = ["macros", "rt-multi-thread"] }
tonic = "0.12"
