[package]
name = "cm"
version = "0.1.0"
edition = "2021"
publish = false

[dependencies]
libc = "0.2"
ncurses = "5"
os_pipe = "1"
pcre2 = "0.2"
