[package]
name = "debounce_dispatch"
version = "0.1.0"
edition = "2021"
publish = false

[dependencies]
local-ip-address = "=0.6.13"
serde = { version = "=1.0.229", features = ["derive"] }
tokio = { version = "=1.53.2", features = ["macros", "rt-multi-thread", "time"] }
warp = { version = "=0.4.3", features = ["server"] }
