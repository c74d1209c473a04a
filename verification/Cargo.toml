[package]
name = "text-hook"
version = "0.1.0"
edition = "2021"
publish = false

[dependencies]
path-clean = "=1.0.1"
sha2 = "=0.10.9"
zstd = "=0.13.4"
serde = { version = "=1.0.229", features = ["derive"] }
serde_json = "=1.0.154"
goblin = "*"
convert_case = "*"
iced-x86 = "*"
fontdue = "*"
