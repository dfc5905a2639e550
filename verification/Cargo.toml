[package]
name = "urchin"
version = "0.1.0"
edition = "2021"
publish = false

[dependencies]
crossbeam-queue = "0.2"
lock_api = "0.4"
futures = { version = "0.3", default-features = false, features = ["alloc"] }
lazy_static = "1.4"
linked_list_allocator = "0.10"
crc = "1.8"
