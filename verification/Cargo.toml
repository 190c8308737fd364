[package]
name = "access_conflicts"
version = "0.1.0"
edition = "2021"
publish = false

[dependencies]
fixedbitset = "*"
fragile = "*"
gilrs = "*"
