[package]
name = "raytracer"
version = "0.1.0"
edition = "2021"
publish = false

[dependencies]
rand = "0.8"
image = "0.24"
tobj = "3"
indicatif = "0.16"
console = "0.15"
