[package]
name = "taskbar_media_viewer"
version = "0.1.0"
edition = "2021"
publish = false

[dependencies]
nowhear = "=0.5.2"
pollster = "=0.4.0"
tokio = { version = "=1.54.1", features = ["rt-multi-thread", "macros"] }
windows = { version = "=0.61.3", features = ["Foundation", "Foundation_Collections", "Media_Control", "Win32_Foundation", "Win32_Graphics_Gdi", "Win32_System_Com", "Win32_UI_Accessibility", "Win32_UI_WindowsAndMessaging"] }
winreg = "=0.55.0"
