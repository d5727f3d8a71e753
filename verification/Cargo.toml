[package]
name = "slab_heap"
version = "0.1.0"
edition = "2021"
publish = false

[dependencies]
spin = "*"
linked_list_allocator = { version = "*", default-features = false }
multiboot2 = { version = "*", default-features = false }
