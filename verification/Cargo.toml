[package]
name = "uiua_core"
version = "0.1.0"
edition = "2021"
publish = false

[dependencies]
clap = { version = "4", features = ["derive"] }
color-backtrace = "0.6"
ctrlc = "3"
enum-iterator = "1"
instant = "0.1"
leptos = "0.4"
leptos_router = "0.4"
notify = "6"
once_cell = "1"
open = "5"
parking_lot = "0.12"
term_size = "0.3"
