[package]
name = "moonlighter_overlay"
version = "0.1.0"
edition = "2021"
publish = false

[dependencies]
regex = "1"
image = { version = "0.25", default-features = false, features = ["png"] }
serde = { version = "1", features = ["derive"] }
serde_json = "1"
toml = "0.8"
anyhow = "1"
rayon = "1"
ab_glyph = "0.2"
rust-embed = "8"
egui = "0.31"
font-loader = "0.11"
softbuffer = { version = "0.4", default-features = false, features = ["x11"] }
winit = { version = "0.30", default-features = false, features = ["x11", "rwh_06"] }
xcap = "0.6"
windows = { version = "0.61", features = ["Win32_Foundation", "Win32_UI_WindowsAndMessaging", "Win32_UI_Input_KeyboardAndMouse", "Win32_UI_Shell", "Win32_System_Console", "Win32_Graphics_Gdi"] }
