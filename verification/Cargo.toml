[package]
name = "spellcards"
version = "0.1.0"
edition = "2021"
publish = false

[dependencies]
anyhow = "1"
json = "*"
pulldown-cmark = "*"
xml-rs = "*"
freetype-rs = "*"
printpdf = "0.6"
