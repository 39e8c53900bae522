//! A bytecode interpreter front end for the Lox scripting language:
//! a tokenizer, an expression compiler, a fixed-capacity value store and
//! an interning object heap, each with its behaviour stated and proved.
pub mod chunk;
pub mod compiler;
pub mod fixed_vec;
pub mod heap;
pub mod object;
pub mod source;
pub mod text;
pub mod tokenizer;
pub mod value;
pub mod vm;
