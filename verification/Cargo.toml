[package]
name = "bitfun-sandbox"
version = "0.1.0"
edition = "2021"
publish = false

[dependencies]
anyhow = "1"
dunce = "1"
landlock = "0.4"
log = "0.4"
regex = "1"
serde = { version = "1", features = ["derive"] }
which = "*"
windows-sys = { version = "0.59", features = ["Win32_Foundation", "Win32_Security", "Win32_Security_Authorization", "Win32_Storage_FileSystem", "Win32_System_Console", "Win32_System_Memory", "Win32_System_Pipes", "Win32_System_Threading"] }
