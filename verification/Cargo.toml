[package]
name = "kernel"
version = "0.1.0"
edition = "2021"
publish = false

[dependencies]
x86_64 = { version = "=0.15.5", default-features = false, features = ["instructions"] }
linked_list_allocator = "=0.10.6"
jiff = { version = "=0.2.39", default-features = false }
crossbeam-queue = "=0.3.14"
spin = "=0.9.9"
conquer-once = { version = "=0.4.0", default-features = false }
log = "=0.4.35"
limine = "=0.5.0"
bootloader_api = "=0.11.17"
elfloader = "=0.16.0"
raw-cpuid = "=11.6.0"
