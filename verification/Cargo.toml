[package]
name = "pathcore"
version = "0.1.0"
edition = "2021"
publish = false

[dependencies]
rand = "0.7"
nalgebra-glm = "0.4"
bvh = "0.3"
rayon = "1"
indicatif = "0.15"
