[package]
name = "holdrect"
version = "0.1.0"
edition = "2021"
publish = false

[dependencies]
serde = { version = "1", features = ["derive"] }
toml = "0.8"
dirs = "5"
winit = "0.30"
tray-icon = "0.19"
windows = { version = "0.58", features = ["Win32_Foundation", "Win32_Security", "Win32_Graphics_Gdi", "Win32_Storage_FileSystem", "Win32_System_Console", "Win32_System_IO", "Win32_System_Pipes", "Win32_System_ProcessStatus", "Win32_System_Registry", "Win32_System_Threading", "Win32_UI_HiDpi", "Win32_UI_Input_KeyboardAndMouse", "Win32_UI_Magnification", "Win32_UI_WindowsAndMessaging"] }
