[package]
name = "imlec"
version = "0.1.0"
edition = "2021"
publish = false

[dependencies]
anyhow = "=1.0.104"
evdev = "=0.13.2"
fastrand = "=2.5.0"
log = "=0.4.35"
serde = { version = "=1.0.229", features = ["derive"] }
smithay-client-toolkit = { version = "=0.21.1", default-features = false, features = ["calloop"] }
windows = { version = "=0.59.0", features = ["Win32_Foundation", "Win32_Graphics_Gdi", "Win32_System_LibraryLoader", "Win32_UI_HiDpi", "Win32_UI_Input_KeyboardAndMouse", "Win32_UI_Shell", "Win32_UI_WindowsAndMessaging"] }
x11rb = { version = "=0.13.2", features = ["shape"] }
