[package]
name = "fretboard"
version = "0.1.0"
edition = "2021"
publish = false

[dependencies]
itertools = "0.12"
rayon = "1"
serde = { version = "1", features = ["derive"] }
serde_json = "1"
once_cell = "1"
gtk4 = "0.8"
libadwaita = { version = "0.6", features = ["v1_5"] }
gettext-rs = "0.7"
i18n-format = "*"
