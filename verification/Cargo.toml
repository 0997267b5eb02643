[package]
name = "hanami"
version = "0.1.0"
edition = "2021"
publish = false

[dependencies]
cpuio = "=0.2.0"
spin = "=0.12.3"
multiboot2 = "=0.28.0"
lazy_static = { version = "=1.5.1", features = ["spin_no_std"] }
