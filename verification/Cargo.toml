[package]
name = "albion_packets"
version = "0.1.0"
edition = "2021"
publish = false

[dependencies]
byteorder = "1"
pcap = "2"
serde_json = "1"
