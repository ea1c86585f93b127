[package]
name = "lightly-rusted"
version = "0.1.0"
edition = "2021"
publish = false

[dependencies]
image = { version = "0.25", default-features = false, features = ["png", "jpeg"] }
nalgebra = "0.33"
rayon = "1"
serde_json = "1"
tobj = "4"
