//! The textual intermediate representation: slugs, names and the checks
//! that keep them valid.
use vstd::prelude::*;

pub mod adopt;
pub mod ast;
pub mod copy;
pub mod decompile;
pub mod desugar;
pub mod emit;
pub mod grouping;
pub mod lexer;
pub mod lint;
pub mod liveness;
pub mod model;
pub mod parser;
pub mod rename;
pub mod semantics;
pub mod template;
pub mod validate;

pub use ast::{
    ArgItem, Binding, BindingKind, BlockDecl, CmpOp, Expr, ExprWireDecl, ExternDecl, Item, LetDecl,
    MatchSpec, Module, MovedDecl, Operand, PortRef, RemovedDecl, SetDecl, TemplateDecl,
    TemplateParam, Value, WireDecl,
};
pub use decompile::{decompile, slugify, DecompileOptions, DecompileReport};
pub use desugar::DesugarInfo;
pub use validate::validate_ports;

verus! {
}
