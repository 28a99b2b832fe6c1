[package]
name = "qfo"
version = "0.1.0"
edition = "2021"
publish = false

[dependencies]
anyhow = "*"
directories = "*"
hidapi = "*"
log = "*"
ron = "*"
serde = { version = "*", features = ["derive"] }
stderrlog = "*"
thiserror = "*"
x11rb = "*"
