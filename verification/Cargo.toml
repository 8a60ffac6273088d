[package]
name = "pass"
version = "0.1.0"
edition = "2021"
publish = false

[dependencies]
anyhow = "=1.0.104"
bcrypt = "=0.12.0"
clap = { version = "=4.6.7", features = ["derive"] }
cli-table = "=0.5.0"
colour = "=2.1.0"
inquire = "=0.9.4"
once_cell = "=1.21.4"
passwords = "=3.1.18"
rand = "=0.8.8"
ring = "=0.17.14"
serde-encrypt = "=0.7.0"
serde-encrypt-core = "=0.7.0"
thiserror = "=2.0.21"
xdg = "=3.0.0"
