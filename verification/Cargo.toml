[package]
name = "symtree"
version = "0.1.0"
edition = "2021"
publish = false

[dependencies]
rustc-demangle = "*"
object = "*"
serde = { version = "*", features = ["derive"] }
serde_json = "*"
