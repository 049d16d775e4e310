[package]
name = "hayagriva_ffi"
version = "0.1.0"
edition = "2021"
publish = false

[dependencies]
hayagriva = { version = "*", features = ["archive", "biblatex"] }
biblatex = "*"
citationberg = "*"
miniserde = "*"
unicode-width = "*"
