[package]
name = "aster_dyndbg"
version = "0.1.0"
edition = "2021"
publish = false

[dependencies]
log = "0.4"
owo-colors = "4"
spin = "0.9"
x86_64 = { version = "0.15", default-features = false, features = ["instructions"] }
linkme = "0.3"
