[package]
name = "sql_rustico"
version = "0.1.0"
edition = "2021"
publish = false
