[package]
name = "cosmic_text_fonts"
version = "0.1.0"
edition = "2021"
publish = false

[dependencies]
fontdb = "0.23"
skrifa = "*"
sys-locale = "0.3"
unicode-script = "0.5"
unicode-bidi = "0.3"
