[package]
name = "mochi"
version = "0.1.0"
edition = "2021"
publish = false

[dependencies]
codespan = "=0.2.1"
codespan-reporting = "=0.2.1"
cranelift = "=0.30.0"
cranelift-faerie = "=0.30.0"
cranelift-module = "=0.30.0"
dirs = "=1.0.5"
lalrpop-util = "=0.16.3"
rustyline = "=9.1.2"
structopt = "=0.2.18"
target-lexicon = "=0.3.0"

[dev-dependencies]
regex = "=1.13.1"
