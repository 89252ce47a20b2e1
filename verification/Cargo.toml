[package]
name = "yt_downloader"
version = "0.1.0"
edition = "2021"
publish = false

[dependencies]
dirs = "=4.0.0"
iced = "=0.7.0"
rfd = "0.12"
