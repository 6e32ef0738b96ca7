[package]
name = "note_store"
version = "0.1.0"
edition = "2021"
publish = false

[dependencies]
uuid = { version = "*", features = ["v4"] }
chrono = "*"
actix-web = "*"
actix-rt = "*"
diesel = { version = "*", features = ["sqlite"] }
libsqlite3-sys = { version = "*", features = ["bundled"] }
dotenv = "*"
serde = { version = "*", features = ["derive"] }
