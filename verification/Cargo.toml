[package]
name = "finne"
version = "0.1.0"
edition = "2021"
publish = false

[dependencies]
bytes = "1"
slab = "0.4"
nom = "7"
mio = { version = "0.8", features = ["os-poll", "net"] }
clap = { version = "4", features = ["derive"] }
serde = { version = "1", features = ["derive"] }
serde_json = "1"
rusqlite = "*"
