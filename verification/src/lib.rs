//! Streaming text extraction: templates are compiled into node lists, lines of
//! input are bound against them into rows, and the rows are turned into SQL
//! statements for a relational store.
//!
//! All text is handled as bytes. Every function in this crate is verified; the
//! few calls into other crates stand behind small wrappers whose contracts are
//! documented where they are declared.

pub mod ast;
pub mod text;
pub mod lexer;
pub mod expr;
pub mod parser;
pub mod row;
pub mod number;
pub mod filters;
pub mod stream;
pub mod app;
pub mod combinator;
pub mod evaluator;
pub mod driver;
pub mod db;
pub mod output;
pub mod storage;
pub mod copy;
pub mod laws;

pub use app::{App, AppConfig, Mode, Output, Token, TokenExpr, VarExpr};
pub use ast::{Cond, Expr, Node, Syntax, Target, WS};
pub use combinator::{token_expr, ErrorKind, MatchError};
pub use db::Glue;
pub use evaluator::{Error, TemplateError};
pub use filters::{Filter, Registry};
pub use lexer::{non_ascii, split_ws_parts};
pub use output::{print, printjson, printstd, Grid, OutputType, Printed};
pub use parser::{parse_template, ParseError};
pub use row::Row;
pub use storage::DataKey;
pub use stream::InputToken;
pub use text::slice_to_string;
