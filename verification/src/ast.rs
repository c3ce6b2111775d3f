pub mod ast;
pub mod evaluator;
pub mod symbol;
pub mod symbol_table;
