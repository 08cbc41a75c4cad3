[package]
name = "gopro_chaptered_video_assembler"
version = "0.1.0"
edition = "2021"
publish = false

[dependencies]
clap = { version = "*", features = ["derive"] }
colored = "*"
filetime = "*"
log = "*"
mp4-merge = "*"
normpath = "*"
simplelog = "*"
xdg = "*"
