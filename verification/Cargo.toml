[package]
name = "mds"
version = "0.1.0"
edition = "2021"
publish = false

[dependencies]
audio-clock = "*"
bela = "*"
euclidian-rythms = "*"
monome-rs = "*"
smallvec = "1"
