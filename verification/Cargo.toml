[package]
name = "graph_challenge"
version = "0.1.0"
edition = "2021"
publish = false

[dependencies]
memmap2 = "0.9"
bincode = "1.3"
serde = { version = "1", features = ["derive"] }
rand = "0.8"
oorandom = "11.1"
dary_heap = "0.3"
nohash-hasher = "0.2"
num-traits = "0.2"
rayon = "1"
bytemuck = "1"
