[package]
name = "beggar_my_neighbour"
version = "0.1.0"
edition = "2021"
publish = false

[dependencies]
fastrand = "2"
clap = { version = "4", features = ["derive"] }
indoc = "2"
