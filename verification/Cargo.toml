[package]
name = "note_render"
version = "0.1.0"
edition = "2021"
publish = false

[dependencies]
pulldown-cmark = { version = "0.6", default-features = false }
regex = "1"
htmlescape = "0.3"
hotwatch = "0.4"
simple-server = "0.4"
web-view = "0.7"
include_dir = "0.6"
