[package]
name = "dav-xml"
version = "0.1.0"
edition = "2021"
publish = false

[dependencies]
quick-xml = "0.38"
http = "1"
httpdate = "1"
time = { version = "0.3", features = ["parsing", "formatting"] }
mime = "0.3"
ureq = "3"
reqwest = { version = "0.12", default-features = false }
