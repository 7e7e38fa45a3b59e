[package]
name = "mega_clipboard"
version = "0.1.0"
edition = "2021"
publish = false

[dependencies]
arboard = "=3.7.0"
chrono = "=0.4.45"
directories = "=6.0.0"
global-hotkey = "=0.9.0"
iced = { version = "=0.14.0", default-features = false, features = ["image-without-codecs", "tiny-skia", "tokio", "x11"] }
image = { version = "=0.25.10", default-features = false, features = ["bmp", "dds", "ff", "gif", "hdr", "ico", "jpeg", "png", "pnm", "qoi", "tga", "tiff", "webp"] }
tray-icon = { version = "=0.26.1", default-features = false, features = ["ksni"] }
winreg = "=0.56.0"
windows-sys = { version = "0.60", features = ["Win32_Foundation", "Win32_UI_WindowsAndMessaging"] }
