[package]
name = "res_patcher"
version = "0.1.0"
edition = "2021"
publish = false

[dependencies]
iced = { version = "0.13", default-features = false, features = ["tiny-skia", "tokio"] }
rfd = { version = "0.15", default-features = false, features = ["xdg-portal", "tokio"] }
tokio = { version = "1", features = ["fs"] }

[dev-dependencies]
winnow = "0.7"
