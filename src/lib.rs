//! Literal values and aggregation clauses of a query language's syntax tree,
//! with their string decoding and canonical printing.
pub mod canonical;
pub mod common;
pub mod concept;
pub mod pretty;
pub mod reduce;
pub mod text;
pub mod token;
pub mod value;
pub mod variable;
