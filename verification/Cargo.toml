[package]
name = "spell_codec"
version = "0.1.0"
edition = "2021"
publish = false

[dependencies]
base64-simd = "0.8"
flate2 = "1"
napi = "2"
napi-derive = "2"
quartz_nbt = { version = "0.2", features = ["serde"] }
serde = { version = "1", features = ["derive"] }
