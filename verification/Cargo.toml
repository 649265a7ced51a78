[package]
name = "xwingtmg2_inventory_rs"
version = "0.1.0"
edition = "2021"
publish = false

[dependencies]
pico-args = "*"
rust_xlsxwriter = "*"
serde = { version = "1", features = ["derive"] }
serde_json = "1"
strum = { version = "*", features = ["derive"] }
