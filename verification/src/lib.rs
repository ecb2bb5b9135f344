//! Code generation for Huff contracts: macro expansion, jump resolution and the
//! layout of jump tables, down to hexadecimal EVM bytecode.

pub mod abi;
pub mod abi_value;
pub mod artifact;
pub mod ast;
pub mod bytecode;
pub mod codegen;
pub mod depth;
pub mod error;
pub mod expand;
pub mod hex;
pub mod invariants;
pub mod jump_laws;
pub mod jumps;
pub mod laws;
pub mod layout;
pub mod model;
pub mod opcodes;
pub mod resolve;
pub mod tables;


pub use crate::codegen::Codegen;
