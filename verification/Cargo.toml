[package]
name = "shooting_cubes"
version = "0.1.0"
edition = "2021"
publish = false

[dependencies]
bevy = { version = "=0.7.0", default-features = false, features = ["render", "bevy_winit", "x11"] }
bevy_asset_loader = "=0.10.0"
bevy_prototype_lyon = "=0.5.0"
leafwing-input-manager = "=0.3.0"
# Nothing here calls ndk-macro. It is named because bevy 0.7's derive macros
# use the "full" feature of syn 1 without asking for it, and of all that bevy
# depends on only this macro crate still turns that feature on for macros.
# Without it bevy_derive and bevy_reflect_derive do not compile.
ndk-macro = "=0.3.0"
