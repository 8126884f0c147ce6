//! A small SSA-oriented compiler intermediate representation and its
//! deterministic rendering to a line-oriented textual intermediate language.
//!
//! A front end interns names in a [`name::SymbolTable`], builds instructions,
//! blocks, functions and data declarations, finalizes each function, and
//! hands the frozen unit to the emitter in [`emit`].
pub mod name;
pub mod layout;
pub mod value;
pub mod inst;
pub mod block;
pub mod cfg;
pub mod function;
pub mod ssa;
pub mod finalize;
pub mod data;
pub mod text;
pub mod render;
pub mod emit;
