//! Middle tier of a small procedural-language toolchain.
//!
//! The crate lowers a parsed syntax tree into an arena-resident intermediate
//! representation (IR) and then performs static type resolution over that
//! IR: name resolution, type inference for untyped bindings, structural type
//! checking, and control-flow typing.  Lexing, parsing and diagnostic
//! rendering are external collaborators and live outside this crate.

pub mod ast;
pub mod ir;
pub mod lower;
pub mod program;
pub mod typecheck;

pub use ast::AstArg;
pub use ast::AstBlock;
pub use ast::AstExpr;
pub use ast::AstItem;
pub use ast::AstParam;
pub use ast::AstProgram;
pub use ast::AstStmt;
pub use ast::AstType;
pub use ast::AstValue;
pub use ir::BinOp;
pub use ir::Block;
pub use ir::DirectType;
pub use ir::Expr;
pub use ir::FuncKey;
pub use ir::Function;
pub use ir::FunctionDecl;
pub use ir::LiteralKey;
pub use ir::LoweringError;
pub use ir::Param;
pub use ir::PrimitiveType;
pub use ir::Span;
pub use ir::Statement;
pub use ir::Type;
pub use ir::TypeError;
pub use ir::TypeKey;
pub use ir::UnaryOp;
pub use ir::Value;
pub use ir::Var;
pub use ir::Variable;
pub use ir::assignable;
pub use ir::type_eq;
pub use program::Program;
