[package]
name = "octane"
version = "0.1.0"
edition = "2021"
publish = false

[dependencies]
meval = "*"
colored = "*"
git2 = { version = "*", default-features = false }
windows-sys = { version = "*", features = ["Win32_Foundation", "Win32_System_Console"] }
