[package]
name = "parallel_factorial"
version = "0.1.0"
edition = "2021"
publish = false

[dependencies]
ibig = { version = "0.3", default-features = false, features = ["std"] }
rayon = "1"
