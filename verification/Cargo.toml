[package]
name = "liquid_crystal_ui"
version = "0.1.0"
edition = "2021"
publish = false

[dependencies]
heapless = "=0.9.3"
thiserror = "=2.0.21"
embedded-hal = "=1.0.0"
embedded-hal-async = "=1.0.0"
log = "=0.4.35"
liquid_crystal = { version = "=0.2.0", features = ["async"] }
