[package]
name = "joker"
version = "0.1.0"
edition = "2021"

[dependencies]
random-number = "=0.1.10"
bevy = { version = "0.16", default-features = false, features = ["std", "bevy_asset", "bevy_color", "bevy_core_pipeline", "bevy_render", "bevy_sprite", "bevy_sprite_picking_backend", "bevy_picking", "bevy_text", "bevy_ui", "bevy_window"] }
