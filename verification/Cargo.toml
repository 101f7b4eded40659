[package]
name = "coalescence"
version = "0.1.0"
edition = "2021"
publish = false

[dependencies]
rand = "=0.9.5"
bevy = { version = "=0.17.3", default-features = false, features = ["std"] }
avian2d = { version = "=0.4.1", default-features = false, features = ["2d", "f32", "parry-f32"] }
bevy_rand = { version = "0.12", features = ["wyrand"] }
