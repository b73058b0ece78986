[package]
name = "riaw"
version = "0.1.0"
edition = "2021"
publish = false

[dependencies]
rand = "0.7"
rand_pcg = "0.2"
rayon = "1"
failure = "0.1"
log = "0.4"
env_logger = "*"
minifb = "*"
