//! The intermediate representation: source spans, arena keys, the type
//! model, and the control-flow bodies (blocks, statements, expressions) that
//! lowering produces and type resolution validates.
//!
//! Every executable IR node has a ghost view (`TypeView`, `ExprView`,
//! `StatementView`, ...) built from `Seq` and `Seq<char>`; all contracts in
//! this crate are stated over those views.

use vstd::prelude::*;

verus! {

/// A source span, kept on every IR node for diagnostics.
#[derive(Clone, Copy, Debug, PartialEq, Eq, Structural)]
pub struct Span {
    pub start: usize,
    pub end: usize,
}

/// Key into the nominal-type arena of a `Program`.
#[derive(Clone, Copy, Debug, PartialEq, Eq, Structural)]
pub struct TypeKey {
    pub idx: usize,
}

/// Key into the function arena of a `Program`.
#[derive(Clone, Copy, Debug, PartialEq, Eq, Structural)]
pub struct FuncKey {
    pub idx: usize,
}

/// Key into the string-literal arena of a `Program`.
#[derive(Clone, Copy, Debug, PartialEq, Eq, Structural)]
pub struct LiteralKey {
    pub idx: usize,
}

/// Key into the local variable arena of one `Function`.
///
/// A variable key is scoped to exactly one function; using it with another
/// function's arena is a defect of the caller.
#[derive(Clone, Copy, Debug, PartialEq, Eq, Structural)]
pub struct Var {
    pub idx: usize,
}

#[derive(Clone, Copy, Debug, PartialEq, Eq, Structural)]
pub enum PrimitiveType {
    I32,
    F32,
    Bool,
    U8,
}

/// A structural type descriptor.
#[derive(Debug)]
pub enum Type {
    /// Reference to a nominal type by arena key; two `Direct` types are equal
    /// iff their keys are equal, without expanding the referenced definition.
    Direct(TypeKey),
    Primitive(PrimitiveType),
    /// The "no value yet" marker `---`; assigning it always succeeds and
    /// leaves the target's static type unchanged.
    Uninit,
    /// The `void` type.
    Unit,
    /// The type of `return`, `break` and `continue`: the bottom type, which
    /// is assignable to every type.
    Never,
    /// Unresolved inference placeholder; it must not survive type resolution.
    Undeclared,
    Ptr(Box<Type>),
    Slice(Box<Type>),
    Array { ty: Box<Type>, len: i32 },
    Func { ret: Box<Type>, params: Vec<Type> },
}

/// Mathematical model of a `Type`.
#[verifier::ext_equal]
pub ghost enum TypeView {
    Direct(TypeKey),
    Primitive(PrimitiveType),
    Uninit,
    Unit,
    Never,
    Undeclared,
    Ptr(Box<TypeView>),
    Slice(Box<TypeView>),
    Array { ty: Box<TypeView>, len: i32 },
    Func { ret: Box<TypeView>, params: Seq<TypeView> },
}

pub open spec fn type_view(t: Type) -> TypeView
    decreases t,
{
    match t {
        Type::Direct(k) => TypeView::Direct(k),
        Type::Primitive(p) => TypeView::Primitive(p),
        Type::Uninit => TypeView::Uninit,
        Type::Unit => TypeView::Unit,
        Type::Never => TypeView::Never,
        Type::Undeclared => TypeView::Undeclared,
        Type::Ptr(inner) => TypeView::Ptr(Box::new(type_view(*inner))),
        Type::Slice(inner) => TypeView::Slice(Box::new(type_view(*inner))),
        Type::Array { ty, len } => TypeView::Array { ty: Box::new(type_view(*ty)), len },
        Type::Func { ret, params } => TypeView::Func {
            ret: Box::new(type_view(*ret)),
            params: types_view(params@),
        },
    }
}

pub open spec fn types_view(s: Seq<Type>) -> Seq<TypeView>
    decreases s,
{
    if s.len() == 0 {
        Seq::empty()
    } else {
        seq![type_view(s[0])] + types_view(s.subrange(1, s.len() as int))
    }
}

pub proof fn lemma_types_view(s: Seq<Type>)
    ensures
        types_view(s).len() == s.len(),
        forall|i: int| 0 <= i < s.len() ==> types_view(s)[i] == type_view(s[i]),
    decreases s.len(),
{
    if s.len() > 0 {
        lemma_types_view(s.subrange(1, s.len() as int));
    }
}

impl View for Type {
    type V = TypeView;

    open spec fn view(&self) -> TypeView {
        type_view(*self)
    }
}

/// A nominal type definition, owned by the type arena of a `Program`.
#[derive(Debug)]
pub enum DirectType {
    /// Ordered fields; order is significant for layout.
    Struct { fields: Vec<(String, Type)> },
    Union { variants: Vec<(String, Type)> },
    /// Caller-supplied discriminants, not required to be unique.
    Enum { variants: Vec<(String, i32)> },
    /// A transparent alias to a structural type.
    Type(Type),
}

#[verifier::ext_equal]
#[allow(inconsistent_fields)]
pub ghost enum DirectTypeView {
    Struct { fields: Seq<(Seq<char>, TypeView)> },
    Union { variants: Seq<(Seq<char>, TypeView)> },
    Enum { variants: Seq<(Seq<char>, i32)> },
    Type(TypeView),
}

pub open spec fn fields_view(s: Seq<(String, Type)>) -> Seq<(Seq<char>, TypeView)>
    decreases s,
{
    if s.len() == 0 {
        Seq::empty()
    } else {
        seq![(s[0].0@, type_view(s[0].1))] + fields_view(s.subrange(1, s.len() as int))
    }
}

pub proof fn lemma_fields_view(s: Seq<(String, Type)>)
    ensures
        fields_view(s).len() == s.len(),
        forall|i: int|
            0 <= i < s.len() ==> fields_view(s)[i] == (s[i].0@, type_view(s[i].1)),
    decreases s.len(),
{
    if s.len() > 0 {
        lemma_fields_view(s.subrange(1, s.len() as int));
    }
}

pub open spec fn enum_variants_view(s: Seq<(String, i32)>) -> Seq<(Seq<char>, i32)> {
    Seq::new(s.len(), |i: int| (s[i].0@, s[i].1))
}

pub open spec fn direct_type_view(d: DirectType) -> DirectTypeView {
    match d {
        DirectType::Struct { fields } => DirectTypeView::Struct { fields: fields_view(fields@) },
        DirectType::Union { variants } => DirectTypeView::Union {
            variants: fields_view(variants@),
        },
        DirectType::Enum { variants } => DirectTypeView::Enum {
            variants: enum_variants_view(variants@),
        },
        DirectType::Type(t) => DirectTypeView::Type(type_view(t)),
    }
}

impl View for DirectType {
    type V = DirectTypeView;

    open spec fn view(&self) -> DirectTypeView {
        direct_type_view(*self)
    }
}

/// An error found while lowering the syntax tree into the IR.
#[derive(Clone, Copy, Debug, PartialEq, Eq, Structural)]
pub enum LoweringError {
    DuplicateType(Span),
    DuplicateFunction(Span),
    UnknownFunction(Span),
    UnknownType(Span),
    UnknownVariable(Span),
}

/// An error found by type resolution.
#[derive(Clone, Copy, Debug, PartialEq, Eq, Structural)]
pub enum TypeError {
    TypeMismatch(Span),
    UnknownField(Span),
    NotAStruct(Span),
    NotAPointer(Span),
    ArityMismatch(Span),
    MissingReturnValue(Span),
    IllegalBreakOrContinue(Span),
    AddressOfNonLvalue(Span),
    UninferredVariable(Span),
}

/// Structural equality of types: same variant and recursively equal
/// payloads, with `Direct` keys compared by key identity.
#[verifier::loop_isolation(false)]
pub fn type_eq(a: &Type, b: &Type) -> (r: bool)
    ensures
        r == (a@ == b@),
    decreases *a,
{
    match a {
        Type::Direct(k1) => match b {
            Type::Direct(k2) => k1.idx == k2.idx,
            _ => false,
        },
        Type::Primitive(p1) => match b {
            Type::Primitive(p2) => *p1 == *p2,
            _ => false,
        },
        Type::Uninit => match b {
            Type::Uninit => true,
            _ => false,
        },
        Type::Unit => match b {
            Type::Unit => true,
            _ => false,
        },
        Type::Never => match b {
            Type::Never => true,
            _ => false,
        },
        Type::Undeclared => match b {
            Type::Undeclared => true,
            _ => false,
        },
        Type::Ptr(t1) => match b {
            Type::Ptr(t2) => type_eq(&*t1, &*t2),
            _ => false,
        },
        Type::Slice(t1) => match b {
            Type::Slice(t2) => type_eq(&*t1, &*t2),
            _ => false,
        },
        Type::Array { ty: t1, len: l1 } => match b {
            Type::Array { ty: t2, len: l2 } => *l1 == *l2 && type_eq(&*t1, &*t2),
            _ => false,
        },
        Type::Func { ret: r1, params: p1 } => match b {
            Type::Func { ret: r2, params: p2 } => {
                proof {
                    lemma_types_view(p1@);
                    lemma_types_view(p2@);
                }
                if !type_eq(&*r1, &*r2) {
                    false
                } else if p1.len() != p2.len() {
                    false
                } else {
                    let mut i: usize = 0;
                    while i < p1.len()
                        invariant
                            i <= p1@.len(),
                            forall|j: int| 0 <= j < i ==> type_view(p1@[j]) == type_view(p2@[j]),
                        decreases p1@.len() - i,
                    {
                        proof {
                            assert(decreases_to!(*p1 => p1@[i as int]));
                            assert(decreases_to!(*a => p1@[i as int]));
                        }
                        if !type_eq(&p1[i], &p2[i]) {
                            proof {
                                assert(types_view(p1@)[i as int] != types_view(p2@)[i as int]);
                                assert(types_view(p1@) != types_view(p2@));
                            }
                            return false;
                        }
                        i += 1;
                    }
                    proof {
                        assert(types_view(p1@) =~= types_view(p2@));
                        assert(a@ =~= b@);
                    }
                    true
                }
            },
            _ => false,
        },
    }
}

/// Whether a value of type `src` may be assigned into a slot of static type
/// `tgt`: the two are structurally equal, or `src` is the bottom type
/// `Never`, or `src` is the uninit marker (which never changes the target's
/// static type).  No implicit numeric widening exists.
pub open spec fn spec_assignable(src: TypeView, tgt: TypeView) -> bool {
    src == tgt || src is Never || src is Uninit
}

pub fn assignable(src: &Type, tgt: &Type) -> (r: bool)
    ensures
        r == spec_assignable(src@, tgt@),
{
    match src {
        Type::Never => true,
        Type::Uninit => true,
        _ => type_eq(src, tgt),
    }
}

/// The bottom type `Never` is assignable to every target type.
pub proof fn lemma_never_assignable_to_every_type(tgt: TypeView)
    ensures
        spec_assignable(TypeView::Never, tgt),
{
}

impl Clone for Type {
    /// Deep copy; the copy has the same view as the original.
    fn clone(&self) -> (r: Self)
        ensures
            r@ == self@,
    {
        clone_type(self)
    }
}

#[verifier::loop_isolation(false)]
fn clone_type(t: &Type) -> (r: Type)
    ensures
        r@ == t@,
    decreases *t,
{
    match t {
        Type::Direct(k) => Type::Direct(*k),
        Type::Primitive(p) => Type::Primitive(*p),
        Type::Uninit => Type::Uninit,
        Type::Unit => Type::Unit,
        Type::Never => Type::Never,
        Type::Undeclared => Type::Undeclared,
        Type::Ptr(inner) => Type::Ptr(Box::new(clone_type(&*inner))),
        Type::Slice(inner) => Type::Slice(Box::new(clone_type(&*inner))),
        Type::Array { ty, len } => Type::Array { ty: Box::new(clone_type(&*ty)), len: *len },
        Type::Func { ret, params } => {
            proof {
                lemma_types_view(params@);
            }
            let cret = Box::new(clone_type(&*ret));
            let mut cparams: Vec<Type> = Vec::new();
            let mut i: usize = 0;
            while i < params.len()
                invariant
                    i <= params@.len(),
                    cparams@.len() == i,
                    forall|j: int| 0 <= j < i ==> type_view(cparams@[j]) == type_view(params@[j]),
                decreases params@.len() - i,
            {
                proof {
                    assert(decreases_to!(*params => params@[i as int]));
                    assert(decreases_to!(*t => params@[i as int]));
                }
                let c = clone_type(&params[i]);
                cparams.push(c);
                i += 1;
            }
            proof {
                lemma_types_view(cparams@);
                assert(types_view(cparams@) =~= types_view(params@));
                assert(type_view(Type::Func { ret: cret, params: cparams }) =~= t@);
            }
            Type::Func { ret: cret, params: cparams }
        },
    }
}

/// An atomic operand: variable reference, integer literal, string-literal
/// key, the uninit marker, or the unit marker, each with its span.
#[derive(Clone, Copy, Debug, PartialEq, Eq, Structural)]
pub enum Value {
    Var(Var, Span),
    Num(i32, Span),
    Literal(LiteralKey, Span),
    Uninit(Span),
    Unit(Span),
}

#[derive(Clone, Copy, Debug, PartialEq, Eq, Structural)]
pub enum UnaryOp {
    AddressOf,
    Deref,
    Negate,
    Not,
}

#[derive(Clone, Copy, Debug, PartialEq, Eq, Structural)]
pub enum BinOp {
    Add,
    Sub,
    Mul,
    Div,
    Mod,
    LogicAnd,
    LogicOr,
    LogicXor,
    And,
    Or,
    Xor,
    Eq,
    Ne,
    Gt,
    Ge,
    Lt,
    Le,
}

/// An expression; every node carries its span.
#[derive(Debug)]
pub enum Expr {
    Value(Value),
    /// Field of a struct value, by field name.
    FieldAccess(Value, String, Span),
    /// Qualified access to a member of a nominal type, e.g. an enum variant.
    PathAccess(TypeKey, String, Span),
    FuncCall(FuncKey, Vec<Value>, Span),
    Return(Option<Value>, Span),
    Break(Span),
    Continue(Span),
    BinOp(Value, BinOp, Value, Span),
    UnaryOp(UnaryOp, Value, Span),
}

#[verifier::ext_equal]
pub ghost enum ExprView {
    Value(Value),
    FieldAccess(Value, Seq<char>, Span),
    PathAccess(TypeKey, Seq<char>, Span),
    FuncCall(FuncKey, Seq<Value>, Span),
    Return(Option<Value>, Span),
    Break(Span),
    Continue(Span),
    BinOp(Value, BinOp, Value, Span),
    UnaryOp(UnaryOp, Value, Span),
}

pub open spec fn expr_view(e: Expr) -> ExprView {
    match e {
        Expr::Value(v) => ExprView::Value(v),
        Expr::FieldAccess(v, name, span) => ExprView::FieldAccess(v, name@, span),
        Expr::PathAccess(k, name, span) => ExprView::PathAccess(k, name@, span),
        Expr::FuncCall(k, args, span) => ExprView::FuncCall(k, args@, span),
        Expr::Return(v, span) => ExprView::Return(v, span),
        Expr::Break(span) => ExprView::Break(span),
        Expr::Continue(span) => ExprView::Continue(span),
        Expr::BinOp(l, op, r, span) => ExprView::BinOp(l, op, r, span),
        Expr::UnaryOp(op, v, span) => ExprView::UnaryOp(op, v, span),
    }
}

impl View for Expr {
    type V = ExprView;

    open spec fn view(&self) -> ExprView {
        expr_view(*self)
    }
}

/// An ordered sequence of statements.
#[derive(Debug)]
pub struct Block {
    pub stmts: Vec<Statement>,
}

#[derive(Debug)]
pub enum Statement {
    /// Assign the value of the expression to a variable.
    Assign(Var, Expr, Span),
    /// Assign through a pointer: the first expression is the pointer target.
    DerefAssign(Expr, Expr, Span),
    /// Assign into a named field of a struct value.
    FieldAssign { object: Expr, field: String, value: Expr, span: Span },
    /// Evaluate an expression for its effect.
    Do(Expr),
    Block(Block, Span),
    /// Else-if chains are nested `If` statements inside the else block.
    If { cond: Expr, block: Block, else_block: Option<Block>, span: Span },
    /// Unconditional loop; exits only via `Break`.
    Loop(Block, Span),
}

#[verifier::ext_equal]
#[allow(inconsistent_fields)]
pub ghost enum StatementView {
    Assign(Var, ExprView, Span),
    DerefAssign(ExprView, ExprView, Span),
    FieldAssign { object: ExprView, field: Seq<char>, value: ExprView, span: Span },
    Do(ExprView),
    Block(Seq<StatementView>, Span),
    If { cond: ExprView, block: Seq<StatementView>, else_block: Option<Seq<StatementView>>, span: Span },
    Loop(Seq<StatementView>, Span),
}

pub open spec fn stmt_view(s: Statement) -> StatementView
    decreases s,
{
    match s {
        Statement::Assign(v, e, span) => StatementView::Assign(v, expr_view(e), span),
        Statement::DerefAssign(t, e, span) => StatementView::DerefAssign(
            expr_view(t),
            expr_view(e),
            span,
        ),
        Statement::FieldAssign { object, field, value, span } => StatementView::FieldAssign {
            object: expr_view(object),
            field: field@,
            value: expr_view(value),
            span,
        },
        Statement::Do(e) => StatementView::Do(expr_view(e)),
        Statement::Block(b, span) => StatementView::Block(stmts_view(b.stmts@), span),
        Statement::If { cond, block, else_block, span } => StatementView::If {
            cond: expr_view(cond),
            block: stmts_view(block.stmts@),
            else_block: match else_block {
                Some(b) => Some(stmts_view(b.stmts@)),
                None => None,
            },
            span,
        },
        Statement::Loop(b, span) => StatementView::Loop(stmts_view(b.stmts@), span),
    }
}

pub open spec fn stmts_view(s: Seq<Statement>) -> Seq<StatementView>
    decreases s,
{
    if s.len() == 0 {
        Seq::empty()
    } else {
        seq![stmt_view(s[0])] + stmts_view(s.subrange(1, s.len() as int))
    }
}

pub proof fn lemma_stmts_view(s: Seq<Statement>)
    ensures
        stmts_view(s).len() == s.len(),
        forall|i: int| 0 <= i < s.len() ==> stmts_view(s)[i] == stmt_view(s[i]),
    decreases s.len(),
{
    if s.len() > 0 {
        lemma_stmts_view(s.subrange(1, s.len() as int));
    }
}

impl View for Statement {
    type V = StatementView;

    open spec fn view(&self) -> StatementView {
        stmt_view(*self)
    }
}

impl View for Block {
    type V = Seq<StatementView>;

    open spec fn view(&self) -> Seq<StatementView> {
        stmts_view(self.stmts@)
    }
}

/// A local variable of one function; `span` is its declaration site.
#[derive(Debug)]
pub struct Variable {
    pub ty: Type,
    pub span: Span,
}

#[verifier::ext_equal]
pub ghost struct VariableView {
    pub ty: TypeView,
    pub span: Span,
}

pub open spec fn variables_view(s: Seq<Variable>) -> Seq<VariableView> {
    Seq::new(s.len(), |i: int| VariableView { ty: type_view(s[i].ty), span: s[i].span })
}

impl View for Variable {
    type V = VariableView;

    open spec fn view(&self) -> VariableView {
        VariableView { ty: type_view(self.ty), span: self.span }
    }
}

/// One declared parameter; the optional outward name enables call-by-name
/// argument binding at call sites.
#[derive(Debug)]
pub struct Param {
    pub outward_name: Option<String>,
    pub name: String,
    pub ty: Type,
}

#[verifier::ext_equal]
pub ghost struct ParamView {
    pub outward_name: Option<Seq<char>>,
    pub name: Seq<char>,
    pub ty: TypeView,
}

pub open spec fn param_view(p: Param) -> ParamView {
    ParamView {
        outward_name: match p.outward_name {
            Some(n) => Some(n@),
            None => None,
        },
        name: p.name@,
        ty: type_view(p.ty),
    }
}

pub open spec fn params_view(s: Seq<Param>) -> Seq<ParamView> {
    Seq::new(s.len(), |i: int| param_view(s[i]))
}

impl View for Param {
    type V = ParamView;

    open spec fn view(&self) -> ParamView {
        param_view(*self)
    }
}

/// Declaration metadata of a function: declared return type and ordered
/// parameters, decoupled from the executable body.  `span` is the
/// declaration site.
#[derive(Debug)]
pub struct FunctionDecl {
    pub ret: Type,
    pub params: Vec<Param>,
    pub span: Span,
}

#[verifier::ext_equal]
pub ghost struct FunctionDeclView {
    pub ret: TypeView,
    pub params: Seq<ParamView>,
    pub span: Span,
}

pub open spec fn decl_view(d: FunctionDecl) -> FunctionDeclView {
    FunctionDeclView { ret: type_view(d.ret), params: params_view(d.params@), span: d.span }
}

impl View for FunctionDecl {
    type V = FunctionDeclView;

    open spec fn view(&self) -> FunctionDeclView {
        decl_view(*self)
    }
}

/// A function: its local variable arena and its body.
#[derive(Debug)]
pub struct Function {
    pub variables: Vec<Variable>,
    pub body: Block,
}

#[verifier::ext_equal]
pub ghost struct FunctionView {
    pub variables: Seq<VariableView>,
    pub body: Seq<StatementView>,
}

pub open spec fn function_view(f: Function) -> FunctionView {
    FunctionView { variables: variables_view(f.variables@), body: stmts_view(f.body.stmts@) }
}

pub open spec fn functions_view(s: Seq<Function>) -> Seq<FunctionView> {
    Seq::new(s.len(), |i: int| function_view(s[i]))
}

impl View for Function {
    type V = FunctionView;

    open spec fn view(&self) -> FunctionView {
        function_view(*self)
    }
}

// Spans of IR nodes.
pub open spec fn spec_value_span(v: Value) -> Span {
    match v {
        Value::Var(_, span) => span,
        Value::Num(_, span) => span,
        Value::Literal(_, span) => span,
        Value::Uninit(span) => span,
        Value::Unit(span) => span,
    }
}

pub open spec fn spec_expr_span(e: ExprView) -> Span {
    match e {
        ExprView::Value(v) => spec_value_span(v),
        ExprView::FieldAccess(_, _, span) => span,
        ExprView::PathAccess(_, _, span) => span,
        ExprView::FuncCall(_, _, span) => span,
        ExprView::Return(_, span) => span,
        ExprView::Break(span) => span,
        ExprView::Continue(span) => span,
        ExprView::BinOp(_, _, _, span) => span,
        ExprView::UnaryOp(_, _, span) => span,
    }
}

pub open spec fn spec_stmt_span(s: StatementView) -> Span {
    match s {
        StatementView::Assign(_, _, span) => span,
        StatementView::DerefAssign(_, _, span) => span,
        StatementView::FieldAssign { span, .. } => span,
        StatementView::Do(e) => spec_expr_span(e),
        StatementView::Block(_, span) => span,
        StatementView::If { span, .. } => span,
        StatementView::Loop(_, span) => span,
    }
}

pub open spec fn spec_with_span(v: Value, span: Span) -> Value {
    match v {
        Value::Var(x, _) => Value::Var(x, span),
        Value::Num(n, _) => Value::Num(n, span),
        Value::Literal(l, _) => Value::Literal(l, span),
        Value::Uninit(_) => Value::Uninit(span),
        Value::Unit(_) => Value::Unit(span),
    }
}

impl Value {
    /// Wrap this operand as an expression.
    pub fn expr(self) -> (r: Expr)
        ensures
            r@ == ExprView::Value(self),
    {
        Expr::Value(self)
    }

    pub fn span(&self) -> (r: Span)
        ensures
            r == spec_value_span(*self),
    {
        match *self {
            Value::Var(_, span) => span,
            Value::Num(_, span) => span,
            Value::Literal(_, span) => span,
            Value::Uninit(span) => span,
            Value::Unit(span) => span,
        }
    }

    /// The same operand, carrying `span` instead of its old span.
    pub fn with_span(self, span: Span) -> (r: Self)
        ensures
            r == spec_with_span(self, span),
    {
        match self {
            Value::Var(v, _) => Value::Var(v, span),
            Value::Num(n, _) => Value::Num(n, span),
            Value::Literal(l, _) => Value::Literal(l, span),
            Value::Uninit(_) => Value::Uninit(span),
            Value::Unit(_) => Value::Unit(span),
        }
    }
}

impl Expr {
    pub fn span(&self) -> (r: Span)
        ensures
            r == spec_expr_span(self@),
    {
        match self {
            Expr::Value(value) => value.span(),
            Expr::FieldAccess(_, _, span) => *span,
            Expr::PathAccess(_, _, span) => *span,
            Expr::FuncCall(_, _, span) => *span,
            Expr::Return(_, span) => *span,
            Expr::Break(span) => *span,
            Expr::Continue(span) => *span,
            Expr::BinOp(_, _, _, span) => *span,
            Expr::UnaryOp(_, _, span) => *span,
        }
    }
}

impl Statement {
    pub fn span(&self) -> (r: Span)
        ensures
            r == spec_stmt_span(self@),
    {
        match self {
            Statement::Assign(_, _, span) => *span,
            Statement::DerefAssign(_, _, span) => *span,
            Statement::FieldAssign { span, .. } => *span,
            Statement::Do(expr) => expr.span(),
            Statement::Block(_, span) => *span,
            Statement::If { span, .. } => *span,
            Statement::Loop(_, span) => *span,
        }
    }
}

impl Block {
    /// Span of the block's trailing statement.  Querying it on an empty
    /// block is a contract violation of the caller, so empty blocks are
    /// excluded here.
    pub fn last_expr_span(&self) -> (r: Span)
        requires
            self@.len() > 0,
        ensures
            r == spec_stmt_span(self@.last()),
    {
        proof {
            lemma_stmts_view(self.stmts@);
        }
        self.stmts[self.stmts.len() - 1].span()
    }
}

} // verus!
