[package]
name = "citadel_workspace_server_kernel"
version = "0.1.0"
edition = "2021"
publish = false

[dependencies]
sha2 = "=0.10.9"
subtle = "=2.6.1"
uuid = { version = "=1.29.0", features = ["v4"] }
parking_lot = "=0.12.5"
