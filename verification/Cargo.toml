[package]
name = "sprunk"
version = "0.1.0"
edition = "2021"
publish = false

[dependencies]
anyhow = "*"
chrono = "*"
ebur128 = "*"
rand = "*"
symphonia = { version = "*", features = ["mp3", "flac", "ogg", "vorbis", "wav", "pcm"] }
