[package]
name = "praise_mod"
version = "0.1.0"
edition = "2021"
publish = false

[dependencies]
clap = { version = "*", features = ["derive"] }
fon = "*"
ghakuf = "*"
image = { version = "*", default-features = false, features = ["png"] }
lewton = "*"
log = "*"
rayon = "*"
rust-ini = "*"
simplelog = "*"
vorbis-encoder = "*"
