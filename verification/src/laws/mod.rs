//! What holds of every cursor, walk and trace.

pub mod blocks;
pub mod cursors;
pub mod filtering;
pub mod modes;
pub mod nesting;
pub mod traces;
