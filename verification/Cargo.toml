[package]
name = "wasm_poke"
version = "0.1.0"
edition = "2021"
publish = false

[dependencies]
wasmparser = "=0.263.0"
globset = "=0.4.21"
rustc-demangle = "=0.1.28"
addr2line = "=0.27.1"
gimli = "=0.34.0"
object = { version = "=0.40.0", features = ["wasm"] }
anyhow = "1"
clap = "=4.6.7"
serde = { version = "1", features = ["derive"] }
serde_json = "1"
bytesize = "=2.7.0"
eframe = { version = "=0.36.2", default-features = false, features = ["default_fonts", "glow", "x11"] }
egui = "=0.36.2"
egui_dock = "=0.21.1"
egui_extras = "=0.36.2"
env_logger = { version = "0.11", default-features = false }
log = "0.4"
