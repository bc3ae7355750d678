[package]
name = "rmtg"
version = "0.1.0"
edition = "2021"
publish = false

[dependencies]
uuid = "1"
rand = "0.9"
bevy_prng = { version = "0.12", default-features = false, features = ["wyrand"] }
bevy = { version = "0.17", default-features = false }
json = "0.12"
bitcode = "0.6"
enumset = "1"
enum-map = "2"
