[package]
name = "fever"
version = "0.1.0"
edition = "2021"
publish = false

[dependencies]
anyhow = "1"
image = { version = "0.25", default-features = false }
log = "0.4"
rand = "0.10"
strum = "0.27"
strum_macros = "0.27"
