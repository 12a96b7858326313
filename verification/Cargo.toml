[package]
name = "financial_history_builder"
version = "0.1.0"
edition = "2021"
publish = false

[dependencies]
chrono = { version = "=0.4.45", default-features = false, features = ["alloc", "std", "serde"] }
serde = { version = "=1.0.229", features = ["derive"] }
serde_json = "=1.0.154"
rand = "=0.8.8"
rand_distr = "=0.4.3"
splines = "=4.4.2"
thiserror = "=1.0.69"
log = "=0.4.35"
schemars = { version = "=0.8.22", features = ["chrono"] }
rstructor = "=0.6.0"
