[package]
name = "pools"
version = "0.1.0"
edition = "2021"
publish = false

[dependencies]
frame-support = "*"
frame-system = "*"
log = "0.4"
parity-scale-codec = { version = "3", features = ["derive", "max-encoded-len"] }
scale-info = { version = "2", features = ["derive"] }
sp-arithmetic = "*"
sp-runtime = "*"
sp-staking = "*"
sp-std = "*"
