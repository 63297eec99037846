[package]
name = "vanity_search"
version = "0.1.0"
edition = "2021"
publish = false

[dependencies]
snarkvm = { version = "=4.11.0", default-features = false, features = ["console"] }
rand = "=0.10.3"
rayon = "=1.12.0"
num_cpus = "=1.17.0"
statrs = "=0.19.1"
