[package]
name = "picmyweb"
version = "0.1.0"
edition = "2021"
publish = false

[dependencies]
anyhow = "=1.0.104"
chrono = "=0.4.45"
eframe = { version = "=0.22.0", default-features = false, features = ["default_fonts", "glow"] }
headless_chrome = "=1.0.22"
rfd = { version = "0.14", default-features = false, features = ["xdg-portal", "tokio"] }
tokio = { version = "=1.54.1", features = ["macros", "rt-multi-thread", "time"] }
