[package]
name = "raytracer"
version = "0.1.0"
edition = "2021"
publish = false

[dependencies]
rand = "0.8"
image = "0.24"
rayon = "1"
indicatif = "0.17"
nalgebra = "0.32"
tobj = "3"
crossbeam = "0.8"
