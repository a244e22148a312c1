[package]
name = "handiva"
version = "0.1.0"
edition = "2021"
publish = false

[dependencies]
anyhow = "=1.0.104"
directories = "=6.0.0"
eframe = { version = "0.32", default-features = false, features = ["default_fonts", "glow", "x11"] }
egui = { version = "0.32", default-features = false, features = ["default_fonts"] }
egui_extras = { version = "0.32", default-features = false }
enigo = "=0.6.1"
global-hotkey = "=0.9.0"
ico = "=0.6.0"
image = { version = "=0.25.10", default-features = false, features = ["png", "bmp", "jpeg"] }
rdev = "=0.5.3"
rfd = { version = "=0.15.4", default-features = false, features = ["xdg-portal", "tokio"] }
serde = { version = "=1.0.229", features = ["derive"] }
toml = "=0.9.12"
tracing = "=0.1.44"
tracing-subscriber = { version = "=0.3.23", default-features = false, features = ["fmt", "std", "ansi"] }
windows-sys = { version = "=0.61.2", features = ["Win32_Foundation", "Win32_System_Threading", "Win32_UI_WindowsAndMessaging"] }
