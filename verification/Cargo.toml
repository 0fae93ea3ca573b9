[package]
name = "rustscout"
version = "0.1.0"
edition = "2021"
publish = false

[dependencies]
regex = "1"
glob = "0.3"
unicode_categories = "0.1"
similar = "2"
num_cpus = "1"
serde = { version = "1", features = ["derive"] }
serde_json = "1"
serde_yaml = "0.9"
thiserror = "1"
tracing = "0.1"
tracing-subscriber = { version = "0.3", features = ["env-filter"] }
clap = { version = "4", features = ["derive"] }
colored = "2"
crossterm = "0.27"
ignore = "0.4"
rayon = "1"
memmap2 = "0.9"
indicatif = "0.17"
once_cell = "1"
dashmap = "5"
