//! Template directive language and rendering rules for turning Markdown pages into HTML.
use vstd::prelude::*;

pub mod args;
pub mod condition;
pub mod engine;
pub mod environment;
pub mod error;
pub mod evaluator;
pub mod filters;
pub mod fs_env;
pub mod lexer;
pub mod markdown;
pub mod paths;
pub mod serve;
pub mod strmap;
pub mod text;

verus! {

} // verus!
