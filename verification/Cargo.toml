[package]
name = "guidance"
version = "0.1.0"
edition = "2021"
publish = false

[dependencies]
nalgebra = "=0.35.0"
gpx = "=0.10.0"
geojson = "=0.19.0"
lazy_static = "=1.5.1"
