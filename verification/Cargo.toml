[package]
name = "esm_terrain"
version = "0.1.0"
edition = "2021"
publish = false

[dependencies]
clap = { version = "4", features = ["derive"] }
fastanvil = { version = "*", default-features = false }
fastnbt = "*"
file-guard = "*"
flate2 = "1"
indicatif = "*"
rayon = "1"
serde = { version = "1", features = ["derive"] }
