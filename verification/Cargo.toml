[package]
name = "add_vanilla_refs"
version = "0.1.0"
edition = "2021"
publish = false

[dependencies]
tes3 = "*"
