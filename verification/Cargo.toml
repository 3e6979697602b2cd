[package]
name = "git_ai"
version = "0.1.0"
edition = "2021"
publish = false

[dependencies]
gix-hash = { version = "=0.28.1", features = ["sha1"] }
gix-object = "=0.66.1"
gix-odb = "=0.87.0"
gix-ref = "=0.69.1"
serde = { version = "=1.0.229", features = ["derive"] }
serde_json = "=1.0.154"
smol = "=2.0.2"
