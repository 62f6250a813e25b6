[package]
name = "that_mafia_game"
version = "0.1.0"
edition = "2021"
publish = false

[dependencies]
rand = "=0.8.8"
takecell = "=0.1.1"
teloxide = { version = "=0.12.2", default-features = false, features = ["macros", "ctrlc_handler", "rustls"] }
tokio = { version = "1", features = ["macros", "rt-multi-thread"] }
dptree = "0.3"
log = "0.4"
pretty_env_logger = "0.5"
dotenv = "0.15"
derive_more = "0.99"
