[package]
name = "ulid"
version = "0.1.0"
edition = "2021"
publish = false

[dependencies]
rand = "*"
serde = "*"
structopt = "*"
bytes = "*"
postgres-types = "*"
