[package]
name = "csvelo"
version = "0.1.0"
edition = "2021"
publish = false

[dependencies]
rayon = "=1.12.0"
anyhow = "=1.0.104"
memmap2 = "=0.9.12"
zip = { version = "=2.6.1", default-features = false, features = ["deflate"] }
walkdir = "=2.5.0"
fs_extra = "=1.3.0"
byte-unit = "=5.2.6"
num-format = "=0.4.4"
colored = "=2.2.0"
clap = { version = "=4.6.7", features = ["derive"] }
rstar = "0.12"
rand = "0.9"
