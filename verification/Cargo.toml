[package]
name = "pixel_bot"
version = "0.1.0"
edition = "2021"
publish = false

[dependencies]
rustc-hash = "2"
rand = "0.8"
line_drawing = "1"
num-traits = "0.2"
crossbeam = "0.8"
spin_sleep = "1"
interception = "*"
fltk = "1"
minifb = "*"
windows = { version = "0.58", features = ["Win32_Foundation", "Win32_Graphics_Direct3D", "Win32_Graphics_Direct3D11", "Win32_Graphics_Dxgi", "Win32_Graphics_Dxgi_Common", "Win32_Graphics_Gdi", "Win32_Security", "Win32_System_StationsAndDesktops", "Win32_System_SystemServices", "Win32_UI_Input_KeyboardAndMouse", "Win32_UI_WindowsAndMessaging"] }
