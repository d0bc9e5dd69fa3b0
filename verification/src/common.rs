pub mod symbol_table;
pub mod symbol_table_generic;

pub use crate::ast::Type;

