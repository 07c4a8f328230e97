[package]
name = "scala_wrapper"
version = "0.1.0"
edition = "2021"
publish = false

[dependencies]
pulldown-cmark = "0.1"
pulldown-cmark-to-cmark = "=1.1.0"
mdbook = { version = "0.1", default-features = false }

[dev-dependencies]
regex = "1"
