[package]
name = "solitaire_core"
version = "0.1.0"
edition = "2021"
publish = false

[dependencies]
bevy = { version = "0.15", default-features = false, features = ["bevy_asset", "bevy_color", "bevy_core_pipeline", "bevy_mesh_picking_backend", "bevy_picking", "bevy_render", "bevy_sprite", "bevy_state", "bevy_text", "bevy_ui"] }
bevy_asset_loader = "0.22"
rand = "0.8"
