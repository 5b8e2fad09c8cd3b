//! A small untyped lambda calculus with integers and addition, evaluated in
//! three ways: by substitution, with environments and closures, and on terms
//! with De Bruijn indices.

pub mod syntax;
pub mod env;
pub mod names;
pub mod subst;
pub mod closures;
pub mod debruijn;
pub mod lexer;
pub mod parser;
pub mod parse_laws;
pub mod laws;
pub mod agreement;
pub mod cbv;

pub use syntax::{Expr, ExprNode, Term};
pub use env::Env;
pub use names::fresh_name;
pub use closures::{Value, ValueNode};
pub use debruijn::{ExprDb, ExprDbNode};
pub use lexer::ParseError;
pub use parser::ExprParser;
