[package]
name = "puzzhagoras_solver"
version = "0.1.0"
edition = "2021"
publish = false

[dependencies]
egui = { version = "0.28", default-features = false, features = ["default_fonts"] }
egui_extras = { version = "0.28", default-features = false, features = ["file", "image"] }
image = { version = "0.25", default-features = false, features = ["png"] }
log = "0.4"
serde = { version = "1", features = ["derive"] }
serde_json = "1"
tracing = "0.1"
tracing-subscriber = { version = "0.3", features = ["env-filter"] }
