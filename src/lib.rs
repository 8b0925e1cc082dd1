//! Semantic analysis for a small statically typed scripting language: scope resolution,
//! a type algebra with unions and subtyping, and the lowering of a syntax tree to a typed,
//! scope-resolved representation, with every diagnostic collected rather than the first.
pub mod ast;
pub mod derive;
pub mod errors;
pub mod ir;
pub mod lower;
pub mod program;
pub mod resolve;
pub mod scope;
pub mod types;

pub use ast::{CustomType, Expression, FunctionLiteral, Op, RawData, Span, Symbol};
pub use derive::{check_call, get_type_from_exp};
pub use errors::CompError;
pub use ir::{substitute_generics, CompData, CompExpression, FunctionAst, Program};
pub use lower::{transform_all, transform_ast, transform_exp};
pub use program::{create_program, flatten_action};
pub use resolve::{collect_ok_or_err, resolve_scope, transform_type};
pub use scope::{CompScope, CompVariable, NewVariable, TempScope, TypeEntry};
pub use types::CompType;
