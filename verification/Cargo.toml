[package]
name = "bevy_text_span_entities"
version = "0.1.0"
edition = "2021"
publish = false

[dependencies]
bevy = { version = "0.14", default-features = false }
cosmic-text = "0.12"
unicode-segmentation = "1"
