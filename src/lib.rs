//! A markdown parser: text in, a tree of typed nodes out.
mod bounds;
pub mod grammar;
pub mod laws;
pub mod node;
pub mod parser;
pub mod scan;
pub mod tokens;

pub use crate::node::{Node, NodeModel, NodeVec};
pub use crate::parser::Parser;
pub use crate::tokens::{create_token_map, triggers, TokenKind};
