[package]
name = "chaoslab"
version = "0.1.0"
edition = "2021"
publish = false

[dependencies]
uuid = "1"
sdl2 = { version = "0.35", features = ["ttf"] }
winapi = { version = "0.3", features = ["handleapi", "memoryapi", "winnt", "ntdef"] }
