[package]
name = "bevy_mod_scripting_js"
version = "0.1.0"
edition = "2021"
publish = false

[dependencies]
boa_engine = "=0.20.0"
boa_gc = "=0.20.0"
bevy_mod_scripting_core = "=0.14.0"
bevy = { version = "0.16", default-features = false, features = ["bevy_log"] }
profiling = "=1.0.18"
