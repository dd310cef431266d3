[package]
name = "obj_info"
version = "0.1.0"
edition = "2021"
publish = false

[dependencies]
anyhow = "=1.0.104"
async-trait = "=0.1.92"
diesel = { version = "=2.2.12", features = ["postgres_backend"] }
diesel-async = { version = "=0.5.2", features = ["postgres"] }
# diesel-async 0.5 calls `futures_util::try_join!` but does not switch on the
# feature that provides it; naming it here lets diesel-async compile.
futures-util = { version = "=0.3.34", features = ["async-await-macro"] }
