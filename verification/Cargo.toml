[package]
name = "pipeline_compiler"
version = "0.1.0"
edition = "2021"
publish = false

[dependencies]
bevy_app = "=0.1.3"
bevy_asset = "=0.1.3"
bevy_ecs = "=0.1.3"
bevy_transform = "=0.1.3"
legion = "=0.2.4"
# Nothing in this crate calls notify. bevy_asset 0.1.3 builds only with its file
# watcher, which was written against this pre-release; later ones changed the API.
notify = "=5.0.0-pre.2"
