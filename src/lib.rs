//! A lossless concrete syntax tree with a forward-only cursor, the grammar
//! item model that decides which nodes may be inlined, and a deterministic
//! textual snapshot renderer over both.
pub mod cst;
pub mod cursor;
pub mod diagnostics;
pub mod grammar;
pub mod laws;
pub mod snapshot;
pub mod text;
