[package]
name = "spellcaster"
version = "0.1.0"
edition = "2021"
publish = false

[dependencies]
cgmath = "0.17"
gfx = "0.18"
gfx_glyph = "0.14"
sdl2 = "0.32"
serde = { version = "1", features = ["derive"] }
serde_derive = "1"
serde_json = "1"
specs = "0.14"
