[package]
name = "tile_world"
version = "0.1.0"
edition = "2021"
publish = false

[dependencies]
specs = "0.14"
specs-derive = "0.4"
ggez = "0.5"
imgui = "0.0.22"
warmy = "0.11"
log = "0.4"
