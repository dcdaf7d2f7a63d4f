[package]
name = "appwatch"
version = "0.2.0"
edition = "2021"
publish = false

[dependencies]
etherparse = "0.13"
bytes = "1"
http-body-util = "0.1"
hyper = { version = "1", features = ["http1", "server", "client"] }
hyper-util = { version = "0.1", features = ["client-legacy", "http1", "server", "tokio"] }
hyper-rustls = { version = "0.27", default-features = false, features = ["http1", "ring", "tls12", "logging", "webpki-roots"] }
rustls = { version = "0.23", default-features = false, features = ["ring", "std", "tls12", "logging"] }
tokio-rustls = { version = "0.26", default-features = false, features = ["ring", "tls12", "logging"] }
tokio = { version = "1", features = ["full"] }
rcgen = { version = "*", default-features = false, features = ["crypto", "pem", "ring"] }
rusqlite = { version = "*", features = ["bundled"] }
eframe = { version = "*", default-features = false, features = ["default_fonts", "glow", "x11"] }
