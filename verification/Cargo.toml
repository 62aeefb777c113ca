[package]
name = "turbo_delete"
version = "0.1.0"
edition = "2021"
publish = false

[dependencies]
jwalk = "*"
rayon = "*"
sysinfo = "*"
