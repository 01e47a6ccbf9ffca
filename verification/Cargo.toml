[package]
name = "tonic_tts"
version = "0.1.0"
edition = "2021"
publish = false

[dependencies]
unicode-normalization = "=0.1.25"
serde = { version = "1", features = ["derive"] }
serde_json = "1"
hound = "3"
rand = "0.8"
rand_distr = "0.4"
ndarray = "0.17"
ort = { version = "2.0.0-rc.13", default-features = false, features = ["std", "load-dynamic", "ndarray"] }
