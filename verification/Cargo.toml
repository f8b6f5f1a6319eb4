[package]
name = "ssr_bench"
version = "0.1.0"
edition = "2021"
publish = false

[dependencies]
dioxus = { version = "*", default-features = false, features = ["macro", "html", "signals", "hooks", "launch", "router", "ssr"] }
leptos = { version = "*", features = ["ssr"] }
leptos_meta = { version = "*", features = ["ssr"] }
leptos_router = { version = "*", features = ["ssr"] }
