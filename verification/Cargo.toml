[package]
name = "convert_to_parquet"
version = "0.4.0"
edition = "2021"
publish = false

[dependencies]
anyhow = "1"
arrow = { version = "*", default-features = false, features = ["csv", "json"] }
parquet = { version = "*", default-features = false, features = ["arrow", "zstd"] }
calamine = "*"
chrono = { version = "0.4", default-features = false, features = ["alloc", "std"] }
clap = { version = "4", features = ["derive"] }
clap_mangen = "*"
colored = "*"
crossbeam = "*"
csv = "1"
flate2 = "1"
glob = "*"
indicatif = "*"
lexical-core = "*"
log = "0.4"
num_cpus = "1"
ratatui = "*"
rayon = "1"
rust_xlsxwriter = "*"
serde_json = "1"
tempfile = "3"
zstd = "*"
