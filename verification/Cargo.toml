[package]
name = "walkers_editor"
version = "0.1.0"
edition = "2021"
publish = false

[dependencies]
rstar = "=0.13.0"
lyon_tessellation = "=1.0.23"
indexmap = "=2.14.2"
quick-xml = { version = "=0.42.0", features = ["serialize"] }
serde = { version = "=1.0.229", features = ["derive"] }
crossbeam-channel = "=0.5.17"
webmercator_tiles = "=1.0.0"
egui = "*"
egui_extras = { version = "*", features = ["svg"] }
walkers = "*"
ureq = { version = "*", features = ["json"] }
