//! A small dynamic language: parser, bytecode compiler and stack machine.

pub mod ast;
pub mod builtin_types;
pub mod compiler;
pub mod effect;
pub mod env;
pub mod grammar;
pub mod helpers;
pub mod jumps;
pub mod laws;
pub mod layout;
pub mod leb;
pub mod lexer;
pub mod modules;
pub mod obj;
pub mod parser;
pub mod text;
pub mod tokens;
pub mod vm;
pub mod yields;
