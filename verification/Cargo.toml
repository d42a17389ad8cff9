[package]
name = "skaner-dokumentow"
version = "0.1.0"
edition = "2021"
publish = false

[dependencies]
directories = "=6.0.0"
eframe = { version = "=0.37.0", default-features = false, features = ["default_fonts", "glow", "x11"] }
fax = "=0.3.0"
image = { version = "=0.25.10", default-features = false, features = ["jpeg", "png"] }
imageproc = { version = "=0.27.0", default-features = false }
lopdf = { version = "=0.46.0", default-features = false }
nokhwa = { version = "=0.10.11", default-features = false }
open = "=5.4.5"
reqwest = { version = "=0.12.28", default-features = false, features = ["blocking", "json", "multipart"] }
ron = "=0.12.3"
serde = { version = "1", features = ["derive"] }
trash = { version = "=5.2.9", default-features = false }
