[package]
name = "crustcrab"
version = "0.1.0"
edition = "2021"
publish = false

[dependencies]
bitfield = "*"
rustc-hash = "*"
uuid = "*"
nalgebra = "*"
bytemuck = { version = "*", features = ["derive"] }
image = { version = "*", default-features = false, features = ["png"] }
