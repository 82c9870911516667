[package]
name = "os_kernel"
version = "0.1.0"
edition = "2021"
publish = false

[dependencies]
linked_list_allocator = { version = "0.9", default-features = false }
x86_64 = { version = "0.14", default-features = false, features = ["instructions"] }
pc-keyboard = "0.7"
spin = "0.9"
pic8259 = "0.10"
lazy_static = { version = "1.0", features = ["spin_no_std"] }
bootloader = { version = "0.9", features = ["map_physical_memory"] }
