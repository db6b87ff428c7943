[package]
name = "red_table"
version = "0.1.0"
edition = "2021"
publish = false

[dependencies]
base64-simd = "=0.8.0"
crossterm = "=0.29.0"
ignore = "=0.4.34"
image = "=0.25.10"
md5 = "=0.8.1"
png = "=0.18.1"
ratatui = "=0.30.2"
ratatui-image = { version = "=11.1.0", default-features = false, features = ["image-defaults", "crossterm"] }
serde = { version = "=1.0.229", features = ["derive"] }
toml = "=1.1.8"
url = "=2.5.8"
