[package]
name = "account_autofill"
version = "0.1.0"
edition = "2021"
publish = false

[dependencies]
base64 = "0.22"
uuid = { version = "1", features = ["v4"] }
serde = { version = "1", features = ["derive"] }
serde_json = "1"
windows = { version = "0.52", features = ["Win32_Foundation", "Win32_UI_WindowsAndMessaging", "Win32_UI_Input_KeyboardAndMouse"] }
