[package]
name = "spectre_automation"
version = "0.1.0"
edition = "2021"
publish = false

[dependencies]
chrono = "*"
dotenvy = "*"
enigo = "*"
nvml-wrapper = "*"
plotters = "*"
rusqlite = { version = "*", features = ["bundled"] }
serde = { version = "*", features = ["derive"] }
serde_json = "*"
sysinfo = "*"
tokio = { version = "*", features = ["macros", "rt", "rt-multi-thread", "time", "process"] }
