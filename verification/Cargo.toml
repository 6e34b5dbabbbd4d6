[package]
name = "gguf"
version = "0.1.0"
edition = "2021"
publish = false

[dependencies]
clap = { version = "=4.6.7", features = ["derive"] }
serde_json = "=1.0.154"
rand = "=0.8.8"
rayon = "=1.12.0"
memmap2 = "=0.9.12"
eframe = { version = "=0.29.1", default-features = false, features = ["default_fonts", "glow", "x11"] }
rfd = { version = "=0.15.4", default-features = false, features = ["xdg-portal", "tokio"] }
windows-sys = { version = "=0.59.0", features = ["Win32_Foundation", "Win32_System_Console"] }
