//! A small C compiler and stack virtual machine: a lexer for a C subset, a
//! single-pass code generator that emits bytecode, and an interpreter that
//! runs it.

pub mod text;
pub mod lexer;
pub mod parser;
pub mod parser_spec;
pub mod parser_expr;
pub mod parser_stmt;
pub mod parser_decl;
pub mod bytes;
pub mod vm_spec;
pub mod vm;
