[package]
name = "raoc"
version = "0.1.0"
edition = "2021"
publish = false

[dependencies]
chrono = "=0.4.45"
tl = "=0.7.8"
reqwest = { version = "=0.13.5", default-features = false, features = ["blocking", "form"] }
webbrowser = "=1.2.4"
dirs = "=7.0.0"
pathdiv = "=0.1.0"
crossterm = "=0.29.0"
