[package]
name = "taupipp"
version = "0.1.0"
edition = "2021"
publish = false

[dependencies]
paired = "=0.22.0"
groupy = "=0.4.1"
sha2 = "=0.9.9"
digest = "=0.9.0"
isahc = "=1.8.3"
hex = "=0.4.3"
bellperson = "=0.27.0"
blstrs = "=0.7.1"

[dev-dependencies]
bincode = "=1.3.3"
