[package]
name = "ros"
version = "0.1.0"
edition = "2021"
publish = false

[dependencies]
x86_64 = { version = "=0.15.5", default-features = false, features = ["instructions"] }
spin = "=0.9.9"
pc-keyboard = "=0.9.0"
tar-no-std = "=0.5.0"
elf = { version = "=0.8.0", default-features = false }
bitflags = "=2.13.2"
num_enum = { version = "=0.7.6", default-features = false }
lazy_static = { version = "=1.5.1", features = ["spin_no_std"] }
linked_list_allocator = "=0.10.6"
