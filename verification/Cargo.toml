[package]
name = "playrust_alert"
version = "0.1.0"
edition = "2021"
publish = false

[dependencies]
bincode = "1"
clap = "2"
csv = "1"
dedup_by = "*"
fnv = "1"
ndarray = "0.15"
rand = "0.3"
rayon = "1"
regex = "1"
reqwest = { version = "0.11", features = ["blocking"] }
rustlearn = "0.5"
serde = { version = "1", features = ["derive"] }
serde_json = "1"
stopwatch = "*"
tiny-keccak = { version = "2", features = ["sha3"] }
