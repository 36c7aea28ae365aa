[package]
name = "stroids"
version = "0.1.0"
edition = "2021"
publish = false

[dependencies]
bevy = { version = "0.14", default-features = false, features = ["bevy_asset", "bevy_state"] }
bevy_prng = { version = "0.7", default-features = false, features = ["wyrand"] }
bevy_rand = { version = "0.7", default-features = false, features = ["wyrand"] }
rand_core = "0.6"
