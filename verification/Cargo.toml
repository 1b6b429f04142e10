[package]
name = "tanzim"
version = "0.1.0"
edition = "2021"
publish = false

[dependencies]
saphyr = "=0.3.3"
serde = "1"
spanned_json_parser = "=0.2.0"
toml_edit = "=0.22.27"
url = "=2.5.8"
