[package]
name = "lua_prototypes"
version = "0.1.0"
edition = "2021"
publish = false

[dependencies]
nom = "7"
petgraph = "0.6"
serde = { version = "1", features = ["derive"] }
ron = "0.8"
