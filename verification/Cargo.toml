[package]
name = "icboc"
version = "0.1.0"
edition = "2021"
publish = false

[dependencies]
anyhow = "*"
hidapi = "*"
miniscript = "*"
serde = { version = "*", features = ["derive"] }
sha2 = "*"
time = "*"
