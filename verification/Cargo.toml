[package]
name = "squirrel"
version = "0.1.0"
edition = "2021"
publish = false

[dependencies]
postcard = { version = "=1.1.3", default-features = false, features = ["alloc"] }
serde = { version = "=1.0.229", default-features = false, features = ["derive", "alloc"] }
x86_64 = { version = "=0.15.5", default-features = false, features = ["instructions"] }
pc-keyboard = "=0.8.0"
noto-sans-mono-bitmap = "=0.3.2"
spin = "=0.9.9"
smoltcp = { version = "=0.12.0", default-features = false, features = ["alloc", "medium-ethernet", "proto-ipv4", "proto-dhcpv4", "proto-dns", "socket-tcp", "socket-dhcpv4", "socket-dns"] }
embedded-tls = { version = "=0.18.0", default-features = false }
embedded-io = "=0.7.1"
rand_core = { version = "=0.6.4", default-features = false }
limine = "=0.5.0"
linked_list_allocator = "=0.10.6"
