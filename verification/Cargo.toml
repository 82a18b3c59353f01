[package]
name = "chunk_graph"
version = "0.1.0"
edition = "2021"
publish = false

[dependencies]
indexmap = "*"
regress = "*"
serde = { version = "*", features = ["derive"] }
serde_json = "*"
package_json_parser = "*"
up_finder = "*"
