[package]
name = "p_clmm"
version = "0.1.0"
edition = "2021"
publish = false

[dependencies]
primitive-types = { version = "=0.12.2", default-features = false }
pinocchio = "=0.9.3"
pinocchio-pubkey = "=0.3.0"
bytemuck = { version = "=1.25.2", features = ["derive", "min_const_generics"] }
