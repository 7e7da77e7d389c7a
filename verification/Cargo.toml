[package]
name = "mp3_splitter"
version = "0.1.0"
edition = "2021"
publish = false

[dependencies]
id3 = "1"
symphonia = { version = "0.5", features = ["mp3"] }
