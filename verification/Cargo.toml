[package]
name = "satrelay"
version = "0.1.0"
edition = "2021"
publish = false

[dependencies]
graphsearch = "=0.6.0"
nalgebra = "0.33.3"
