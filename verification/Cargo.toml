[package]
name = "hackathon"
version = "0.1.0"
edition = "2021"
publish = false

[dependencies]
regex = "1"
encoding_rs = "0.8"
rand = "0.8"
rustybuzz = "0.14"
ttf-parser = "0.21"
lopdf = "0.34"
ab_glyph = "0.2"
image = { version = "0.25", default-features = false, features = ["jpeg"] }
docx-rust = "0.1"
csv = "1"
httpdate = "1"
tokio = { version = "1", features = ["full"] }
futures = "0.3"
reqwest = { version = "0.12", default-features = false, features = ["json"] }
serde = { version = "1", features = ["derive"] }
clap = { version = "4", features = ["derive"] }
thiserror = "1"
tracing = "0.1"
tracing-subscriber = { version = "0.3", features = ["env-filter"] }
