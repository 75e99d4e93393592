[package]
name = "router_gen"
version = "0.1.0"
edition = "2021"
publish = false

[dependencies]
yaml-rust = "*"
codegen = "*"
clap = { version = "*", features = ["derive"] }
validator = { version = "*", features = ["derive"] }

[dev-dependencies]
convert_case = "*"
