[package]
name = "audio_stream"
version = "0.1.0"
edition = "2021"
publish = false

[dependencies]
anyhow = "=1.0.104"
byteorder = "=1.5.0"
clap = { version = "=4.6.7", features = ["derive"] }
libspa = "0.7"
libspa-sys = "0.7"
pipewire = "=0.7.2"
pipewire-sys = "0.7"
wasapi = "=0.14.0"
