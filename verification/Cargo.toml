[package]
name = "guddalm_vsa"
version = "0.1.0"
edition = "2021"
publish = false

[dependencies]
rand = "0.8"
rand_distr = "0.4"
serde = { version = "1", features = ["derive"] }
serde_json = "1"
bincode = "1"
chrono = "0.4"
dirs = "5"
thiserror = "1"
rayon = "1"
ndarray = "0.15"
