[package]
name = "script_host"
version = "0.1.0"
edition = "2021"
publish = false

[dependencies]
bytes = "*"
env_logger = "*"
log = "*"
rusty_v8 = "*"
structopt = "*"
tokio = { version = "*", features = ["macros", "rt-multi-thread", "time"] }
warp = "*"
