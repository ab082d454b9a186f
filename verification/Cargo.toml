[package]
name = "slide_attack"
version = "0.1.0"
edition = "2021"
publish = false

[dependencies]
rand = { version = "0.9", default-features = false }
rand_seeder = "0.4"

[dev-dependencies]
bitvec = "1"
