//! Query a codebase with SQL: the SQL front end, the planner, the syntax-tree
//! adapters and the row analysis of `ql`.

pub mod text;
pub mod ast;
pub mod lexer;
pub mod parser;
pub mod plan;
pub mod rows;
pub mod analysis;
pub mod syntax;
pub mod adapter;
pub mod adapters;
pub mod source;
pub mod protocol;
pub mod query;
pub mod format;
pub mod readback;
