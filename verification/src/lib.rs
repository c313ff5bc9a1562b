//! The middle and back end of a compiler from a small component language to
//! WebAssembly, with its contracts proved.
//!
//! The library works on the statement tree that a parser hands it ([`ast`]).
//! It models the types of values and lowers structures to primitive storage
//! slots ([`types`]), keeps the symbol table of a function body ([`locals`]),
//! checks the types of a statement ([`checking`], [`diagnostics`]) and
//! generates the stack-machine code of a statement ([`wasm`]). What holds of
//! these in general is proved in [`laws`]. Around them stand the text of a
//! source file ([`text`]), the texts of trees and numbers ([`render`],
//! [`decimal`]) and the errors of a compilation ([`error`]).

pub mod ast;
pub mod checking;
pub mod decimal;
pub mod diagnostics;
pub mod error;
pub mod laws;
pub mod locals;
pub mod render;
pub mod text;
pub mod types;
pub mod wasm;
