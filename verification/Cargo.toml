[package]
name = "fmp4_demuxer"
version = "0.1.0"
edition = "2021"
publish = false

[dependencies]
mp4-atom = "=0.16.2"
bytes = "=1.12.1"
anyhow = "=1.0.104"
thiserror = "=2.0.21"
uniffi = "=0.32.2"
