//! Moving about in a syntax tree that a parsing engine has produced: a cursor
//! that sees every node or the named ones only, a walk that yields the
//! entering and leaving of each node of a subtree, a trace of the ancestors
//! of a node, and the names and parameters that nodes declare.

pub mod cursor;
pub mod events;
pub mod file;
pub mod laws;
pub mod raw;
pub mod resolved;
pub mod syntax;
pub mod text;
pub mod tracer;
pub mod traverser;
pub mod utils;

pub use cursor::{Cursor, STKind};
pub use tracer::Trace;
pub use traverser::{Order, Traversal};
