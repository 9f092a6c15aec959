//! A single-pass compiler and stack-based virtual machine for a small
//! expression language: source text is scanned into tokens, parsed with an
//! operator-precedence (Pratt) algorithm, and compiled directly into a
//! compact bytecode chunk, which a dispatch-loop interpreter then executes
//! over an explicit operand stack.
#![allow(non_snake_case)]
#![allow(non_camel_case_types)]

pub mod ast;
pub mod binops;
pub mod chunk;
pub mod compiler;
pub mod debug;
pub mod opcodes;
pub mod rules;
pub mod scanner;
pub mod text;
pub mod value;
pub mod vm;
