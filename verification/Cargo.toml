[package]
name = "ra2m_sim"
version = "0.1.0"
edition = "2021"
publish = false

[dependencies]
regex = "=1.13.1"
tokio = { version = "=1.54.1", features = ["rt", "rt-multi-thread", "time", "sync", "macros"] }
crossbeam = "=0.8.5"
once_cell = "=1.21.4"
chrono = "=0.4.45"
rand = "=0.10.3"
