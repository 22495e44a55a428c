[package]
name = "chromafree"
version = "0.1.0"
edition = "2021"
publish = false

[dependencies]
anyhow = "1"
half = "=2.7.1"
image = { version = "=0.25.10", default-features = false, features = ["png", "jpeg"] }
ort = { version = "=2.0.0-rc.12", default-features = false, features = ["std", "half", "load-dynamic", "directml", "api-24"] }
serde = { version = "1", features = ["derive"] }
slint = { version = "=1.18.1", default-features = false, features = ["std", "compat-1-2"] }
thiserror = "2"
toml = "=1.1.8"
tracing = "0.1"
tracing-subscriber = "0.3"
tray-icon = { version = "=0.26.1", default-features = false }
windows = { version = "=0.62.2", features = ["Win32_AI_MachineLearning_DirectML", "Win32_Foundation", "Win32_Globalization", "Win32_Graphics_Direct3D", "Win32_Graphics_Direct3D12", "Win32_Graphics_Direct3D_Fxc", "Win32_Graphics_Dxgi", "Win32_Graphics_Dxgi_Common", "Win32_Media_MediaFoundation", "Win32_Security", "Win32_Security_Authorization", "Win32_Storage_FileSystem", "Win32_System_Com", "Win32_System_Memory", "Win32_System_Performance", "Win32_System_Threading", "Win32_UI_Shell", "Win32_UI_Shell_Common", "Win32_UI_WindowsAndMessaging"] }
