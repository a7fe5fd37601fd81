//! String interning: every distinct string is stored once and named by a
//! dense, insertion-ordered symbol.

pub mod arena;
pub mod equality;
pub mod index;
pub mod interner;
pub mod model;
pub mod symbol;

pub use crate::arena::Arena;
pub use crate::index::Index;
pub use crate::interner::{DefaultStringInterner, StringInterner};
pub use crate::symbol::{DefaultSymbol, Sym, Symbol};
