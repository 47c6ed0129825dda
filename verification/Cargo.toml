[package]
name = "renoir"
version = "0.1.0"
edition = "2021"
publish = false

[dependencies]
bytemuck = { version = "=1.25.2", features = ["derive"] }
cubecl = { version = "=0.8.1", default-features = false, features = ["std", "reduce"] }
log = "=0.4.35"
once_cell = "=1.21.4"
pollster = "=0.4.0"
thiserror = "=2.0.21"
