//! The syntax tree that lowering consumes.  It is produced by an external
//! parser; this crate does not define or validate the concrete grammar.
//! Every name is still textual here; lowering resolves each one to an arena
//! key.

use vstd::prelude::*;

use crate::ir::BinOp;
use crate::ir::PrimitiveType;
use crate::ir::Span;
use crate::ir::UnaryOp;

verus! {

/// A type as written in source: primitives and compounds directly, nominal
/// types by name.
#[derive(Debug)]
pub enum AstType {
    Primitive(PrimitiveType),
    Named(String, Span),
    Unit,
    Ptr(Box<AstType>),
    Slice(Box<AstType>),
    Array { ty: Box<AstType>, len: i32 },
    Func { ret: Box<AstType>, params: Vec<AstType> },
}

/// One declared parameter; the optional outward name enables call-by-name
/// argument binding at call sites.
#[derive(Debug)]
pub struct AstParam {
    pub outward_name: Option<String>,
    pub name: String,
    pub ty: AstType,
}

/// An atomic operand as written in source.
#[derive(Debug)]
pub enum AstValue {
    /// A variable, referred to by name.
    Name(String, Span),
    Num(i32, Span),
    Str(String, Span),
    Uninit(Span),
    Unit(Span),
}

/// One call-site argument, positional or named (`f(msg = "x")`).
#[derive(Debug)]
pub struct AstArg {
    pub name: Option<String>,
    pub value: AstValue,
}

#[derive(Debug)]
pub enum AstExpr {
    Value(AstValue),
    FieldAccess(AstValue, String, Span),
    /// Qualified access to a member of a named type, e.g. an enum variant.
    PathAccess(String, String, Span),
    Call(String, Vec<AstArg>, Span),
    Return(Option<AstValue>, Span),
    Break(Span),
    Continue(Span),
    BinOp(AstValue, BinOp, AstValue, Span),
    UnaryOp(UnaryOp, AstValue, Span),
}

#[derive(Debug)]
pub struct AstBlock {
    pub stmts: Vec<AstStmt>,
}

#[derive(Debug)]
pub enum AstStmt {
    /// Declare a local variable, with an optional declared type, and assign
    /// it its first value.  Without a declared type the variable starts as
    /// `Undeclared` and is resolved by type resolution.
    Declare { name: String, ty: Option<AstType>, value: AstExpr, span: Span },
    /// Assign to an already-declared variable, by name.
    Assign { name: String, value: AstExpr, span: Span },
    DerefAssign { target: AstExpr, value: AstExpr, span: Span },
    FieldAssign { object: AstExpr, field: String, value: AstExpr, span: Span },
    Do { expr: AstExpr },
    Block { block: AstBlock, span: Span },
    If { cond: AstExpr, block: AstBlock, else_block: Option<AstBlock>, span: Span },
    Loop { block: AstBlock, span: Span },
}

/// One top-level declaration.
#[derive(Debug)]
pub enum AstItem {
    Struct { name: String, fields: Vec<(String, AstType)>, span: Span },
    Union { name: String, variants: Vec<(String, AstType)>, span: Span },
    Enum { name: String, variants: Vec<(String, i32)>, span: Span },
    Alias { name: String, ty: AstType, span: Span },
    Function { name: String, ret: AstType, params: Vec<AstParam>, body: AstBlock, span: Span },
}

/// A parsed compilation unit: the ordered sequence of top-level
/// declarations.
#[derive(Debug)]
pub struct AstProgram {
    pub items: Vec<AstItem>,
}

} // verus!
