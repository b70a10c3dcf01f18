[package]
name = "fruit_merge"
version = "0.1.0"
edition = "2021"
publish = false

[dependencies]
rand = "=0.9.5"
bevy = { version = "=0.17.3", default-features = false, features = ["std", "bevy_log", "bevy_asset", "bevy_color", "bevy_window", "bevy_sprite_render", "bevy_ui", "bevy_ui_render", "bevy_mesh_picking_backend", "default_font"] }
avian2d = { version = "=0.4.1", default-features = false, features = ["2d", "f32", "parry-f32"] }
