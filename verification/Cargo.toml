[package]
name = "tere_server"
version = "0.1.0"
edition = "2021"
publish = false

[dependencies]
blake3 = "0.3"
libc = "0.2"
rand = "0.8"
serde = { version = "1", features = ["derive"] }
structopt = "0.3"
zbus = "1.9"
zvariant = "2"

[dev-dependencies]
bincode = "1.3"
