[package]
name = "oligo_counter"
version = "0.1.0"
edition = "2021"
publish = false

[dependencies]
csv = "1"
fastq = "0.6"
flate2 = "1"
