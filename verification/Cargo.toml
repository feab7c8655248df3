[package]
name = "parser_combinator"
version = "0.1.0"
edition = "2021"

[dependencies]
dioxus = "0.6"
