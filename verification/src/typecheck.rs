//! Type resolution: a second pass over the lowered IR that resolves
//! placeholder variable types from their first assignment, validates every
//! statement and expression against the typing rules, and collects
//! diagnostics without halting on the first error.
//!
//! The typing rules themselves are the spec functions in this module
//! (`check_expr`, `check_stmt`, ...); the executable pass is proved to
//! return exactly what they say.

use vstd::prelude::*;

use crate::ir::DirectType;
use crate::ir::DirectTypeView;
use crate::ir::ExprView;
use crate::ir::FunctionDeclView;
use crate::ir::FunctionView;
use crate::ir::ParamView;
use crate::ir::PrimitiveType;
use crate::ir::Span;
use crate::ir::StatementView;
use crate::ir::TypeError;
use crate::ir::TypeView;
use crate::ir::Value;
use crate::ir::VariableView;
use crate::ir::BinOp;
use crate::ir::UnaryOp;
use crate::ir::Type;
use crate::ir::Expr;
use crate::ir::FunctionDecl;
use crate::ir::TypeKey;
use crate::ir::FuncKey;
use crate::ir::Var;
use crate::ir::Variable;
use crate::ir::Statement;
use crate::ir::Function;
use crate::ir::stmts_view;
use crate::ir::lemma_stmts_view;
use crate::ir::Param;
use crate::ir::type_view;
use crate::ir::type_eq;
use crate::ir::types_view;
use crate::ir::lemma_types_view;
use crate::ir::decl_view;
use crate::ir::function_view;
use crate::ir::variables_view;
use crate::ir::params_view;
use crate::ir::fields_view;
use crate::ir::direct_type_view;
use crate::ir::lemma_fields_view;
use crate::ir::assignable;
use crate::ir::spec_expr_span;
use crate::ir::spec_stmt_span;
use crate::ir::spec_value_span;
use crate::ir::spec_assignable;
use crate::program::ProgramView;
use crate::program::direct_types_view;
use crate::program::decls_view;
use crate::program::names_view;
use crate::program::spec_lookup;
use crate::program::lemma_lookup_skip;
use crate::program::lemma_lookup_found;
use crate::program::lookup_name;

verus! {

// ---------------------------------------------------------------------------
// Well-formedness: every arena key stored in the IR points into its arena.
// ---------------------------------------------------------------------------

/// Bounds of the key spaces a node may refer to.
pub ghost struct WfCtx {
    pub n_vars: int,
    pub n_lits: int,
    pub n_types: int,
    pub n_funcs: int,
}

pub open spec fn wf_type(t: TypeView, n_types: int) -> bool
    decreases t,
{
    match t {
        TypeView::Direct(k) => k.idx < n_types,
        TypeView::Primitive(_) => true,
        TypeView::Uninit => true,
        TypeView::Unit => true,
        TypeView::Never => true,
        TypeView::Undeclared => true,
        TypeView::Ptr(inner) => wf_type(*inner, n_types),
        TypeView::Slice(inner) => wf_type(*inner, n_types),
        TypeView::Array { ty, .. } => wf_type(*ty, n_types),
        TypeView::Func { ret, params } => wf_type(*ret, n_types) && wf_types(params, n_types),
    }
}

pub open spec fn wf_types(s: Seq<TypeView>, n_types: int) -> bool
    decreases s,
{
    if s.len() == 0 {
        true
    } else {
        wf_type(s[0], n_types) && wf_types(s.subrange(1, s.len() as int), n_types)
    }
}

pub proof fn lemma_wf_types(s: Seq<TypeView>, n_types: int)
    ensures
        wf_types(s, n_types) <==> (forall|i: int| 0 <= i < s.len() ==> wf_type(s[i], n_types)),
    decreases s.len(),
{
    if s.len() > 0 {
        let tail = s.subrange(1, s.len() as int);
        lemma_wf_types(tail, n_types);
        if wf_types(s, n_types) {
            assert forall|i: int| 0 <= i < s.len() implies wf_type(s[i], n_types) by {
                if i > 0 {
                    assert(s[i] == tail[i - 1]);
                }
            }
        }
        if forall|i: int| 0 <= i < s.len() ==> wf_type(s[i], n_types) {
            assert forall|i: int| 0 <= i < tail.len() implies wf_type(tail[i], n_types) by {
                assert(tail[i] == s[i + 1]);
            }
            assert(wf_type(s[0], n_types));
        }
    }
}

pub open spec fn wf_fields(s: Seq<(Seq<char>, TypeView)>, n_types: int) -> bool {
    forall|i: int| 0 <= i < s.len() ==> wf_type(#[trigger] s[i].1, n_types)
}

pub open spec fn wf_direct(d: DirectTypeView, n_types: int) -> bool {
    match d {
        DirectTypeView::Struct { fields } => wf_fields(fields, n_types),
        DirectTypeView::Union { variants } => wf_fields(variants, n_types),
        DirectTypeView::Enum { .. } => true,
        DirectTypeView::Type(t) => wf_type(t, n_types),
    }
}

pub open spec fn wf_value(v: Value, c: WfCtx) -> bool {
    match v {
        Value::Var(k, _) => k.idx < c.n_vars,
        Value::Literal(k, _) => k.idx < c.n_lits,
        _ => true,
    }
}

pub open spec fn wf_expr(e: ExprView, c: WfCtx) -> bool {
    match e {
        ExprView::Value(v) => wf_value(v, c),
        ExprView::FieldAccess(v, _, _) => wf_value(v, c),
        ExprView::PathAccess(k, _, _) => k.idx < c.n_types,
        ExprView::FuncCall(k, args, _) => k.idx < c.n_funcs && forall|i: int|
            0 <= i < args.len() ==> wf_value(#[trigger] args[i], c),
        ExprView::Return(v, _) => match v {
            Some(v) => wf_value(v, c),
            None => true,
        },
        ExprView::Break(_) => true,
        ExprView::Continue(_) => true,
        ExprView::BinOp(l, _, r, _) => wf_value(l, c) && wf_value(r, c),
        ExprView::UnaryOp(_, v, _) => wf_value(v, c),
    }
}

pub proof fn lemma_wf_call_arg(k: FuncKey, args: Seq<Value>, span: Span, c: WfCtx, j: int)
    requires
        wf_expr(ExprView::FuncCall(k, args, span), c),
        0 <= j < args.len(),
    ensures
        wf_value(args[j], c),
{
    let e = ExprView::FuncCall(k, args, span);
    match e {
        ExprView::FuncCall(k2, args2, s2) => {
            assert(wf_value(args2[j], c));
        },
        _ => {},
    }
}

pub open spec fn wf_stmt(s: StatementView, c: WfCtx) -> bool
    decreases s,
{
    match s {
        StatementView::Assign(v, e, _) => v.idx < c.n_vars && wf_expr(e, c),
        StatementView::DerefAssign(t, e, _) => wf_expr(t, c) && wf_expr(e, c),
        StatementView::FieldAssign { object, value, .. } => wf_expr(object, c) && wf_expr(
            value,
            c,
        ),
        StatementView::Do(e) => wf_expr(e, c),
        StatementView::Block(b, _) => wf_stmts(b, c),
        StatementView::If { cond, block, else_block, .. } => wf_expr(cond, c) && wf_stmts(
            block,
            c,
        ) && match else_block {
            Some(b) => wf_stmts(b, c),
            None => true,
        },
        StatementView::Loop(b, _) => wf_stmts(b, c),
    }
}

pub open spec fn wf_stmts(ss: Seq<StatementView>, c: WfCtx) -> bool
    decreases ss,
{
    if ss.len() == 0 {
        true
    } else {
        wf_stmt(ss[0], c) && wf_stmts(ss.subrange(1, ss.len() as int), c)
    }
}

pub proof fn lemma_wf_stmts(ss: Seq<StatementView>, c: WfCtx)
    ensures
        wf_stmts(ss, c) <==> (forall|i: int| 0 <= i < ss.len() ==> wf_stmt(ss[i], c)),
    decreases ss.len(),
{
    if ss.len() > 0 {
        let tail = ss.subrange(1, ss.len() as int);
        lemma_wf_stmts(tail, c);
        if wf_stmts(ss, c) {
            assert forall|i: int| 0 <= i < ss.len() implies wf_stmt(ss[i], c) by {
                if i > 0 {
                    assert(ss[i] == tail[i - 1]);
                }
            }
        }
        if forall|i: int| 0 <= i < ss.len() ==> wf_stmt(ss[i], c) {
            assert forall|i: int| 0 <= i < tail.len() implies wf_stmt(tail[i], c) by {
                assert(tail[i] == ss[i + 1]);
            }
            assert(wf_stmt(ss[0], c));
        }
    }
}

/// Well-formedness of a value is stable when the arenas only grow.
pub proof fn lemma_wf_value_grow(v: Value, c1: WfCtx, c2: WfCtx)
    requires
        wf_value(v, c1),
        c1.n_vars <= c2.n_vars,
        c1.n_lits <= c2.n_lits,
    ensures
        wf_value(v, c2),
{
}

/// Well-formedness of an expression is stable when the variable and
/// literal arenas grow and the type and function arenas stay.
pub proof fn lemma_wf_expr_grow(e: ExprView, c1: WfCtx, c2: WfCtx)
    requires
        wf_expr(e, c1),
        c1.n_vars <= c2.n_vars,
        c1.n_lits <= c2.n_lits,
        c1.n_types <= c2.n_types,
        c1.n_funcs <= c2.n_funcs,
    ensures
        wf_expr(e, c2),
{
    match e {
        ExprView::FuncCall(k, args, span) => {
            assert forall|i: int| 0 <= i < args.len() implies wf_value(
                #[trigger] args[i],
                c2,
            ) by {
                lemma_wf_call_arg(k, args, span, c1, i);
            }
        },
        _ => {},
    }
}

/// Well-formedness of a statement is stable when the variable and literal
/// arenas grow and the type and function arenas stay.
pub proof fn lemma_wf_stmt_grow(s: StatementView, c1: WfCtx, c2: WfCtx)
    requires
        wf_stmt(s, c1),
        c1.n_vars <= c2.n_vars,
        c1.n_lits <= c2.n_lits,
        c1.n_types <= c2.n_types,
        c1.n_funcs <= c2.n_funcs,
    ensures
        wf_stmt(s, c2),
    decreases s,
{
    match s {
        StatementView::Assign(_, e, _) => {
            lemma_wf_expr_grow(e, c1, c2);
        },
        StatementView::DerefAssign(t, e, _) => {
            lemma_wf_expr_grow(t, c1, c2);
            lemma_wf_expr_grow(e, c1, c2);
        },
        StatementView::FieldAssign { object, value, .. } => {
            lemma_wf_expr_grow(object, c1, c2);
            lemma_wf_expr_grow(value, c1, c2);
        },
        StatementView::Do(e) => {
            lemma_wf_expr_grow(e, c1, c2);
        },
        StatementView::Block(b, _) => {
            lemma_wf_stmts_grow(b, c1, c2);
        },
        StatementView::If { cond, block, else_block, .. } => {
            lemma_wf_expr_grow(cond, c1, c2);
            lemma_wf_stmts_grow(block, c1, c2);
            match else_block {
                Some(eb) => {
                    lemma_wf_stmts_grow(eb, c1, c2);
                },
                None => {},
            }
        },
        StatementView::Loop(b, _) => {
            lemma_wf_stmts_grow(b, c1, c2);
        },
    }
}

pub proof fn lemma_wf_stmts_grow(ss: Seq<StatementView>, c1: WfCtx, c2: WfCtx)
    requires
        wf_stmts(ss, c1),
        c1.n_vars <= c2.n_vars,
        c1.n_lits <= c2.n_lits,
        c1.n_types <= c2.n_types,
        c1.n_funcs <= c2.n_funcs,
    ensures
        wf_stmts(ss, c2),
    decreases ss,
{
    if ss.len() > 0 {
        lemma_wf_stmt_grow(ss[0], c1, c2);
        lemma_wf_stmts_grow(ss.subrange(1, ss.len() as int), c1, c2);
    }
}


/// Well-formedness of a type is stable when the type arena grows.
pub proof fn lemma_wf_type_grow(t: TypeView, n1: int, n2: int)
    requires
        wf_type(t, n1),
        n1 <= n2,
    ensures
        wf_type(t, n2),
    decreases t,
{
    match t {
        TypeView::Ptr(inner) => {
            lemma_wf_type_grow(*inner, n1, n2);
        },
        TypeView::Slice(inner) => {
            lemma_wf_type_grow(*inner, n1, n2);
        },
        TypeView::Array { ty, .. } => {
            lemma_wf_type_grow(*ty, n1, n2);
        },
        TypeView::Func { ret, params } => {
            lemma_wf_type_grow(*ret, n1, n2);
            lemma_wf_types_grow(params, n1, n2);
        },
        _ => {},
    }
}

pub proof fn lemma_wf_types_grow(s: Seq<TypeView>, n1: int, n2: int)
    requires
        wf_types(s, n1),
        n1 <= n2,
    ensures
        wf_types(s, n2),
    decreases s,
{
    if s.len() > 0 {
        lemma_wf_type_grow(s[0], n1, n2);
        lemma_wf_types_grow(s.subrange(1, s.len() as int), n1, n2);
    }
}

/// Well-formedness of a nominal-type definition is stable when the type
/// arena grows.
pub proof fn lemma_wf_direct_grow(d: DirectTypeView, n1: int, n2: int)
    requires
        wf_direct(d, n1),
        n1 <= n2,
    ensures
        wf_direct(d, n2),
{
    match d {
        DirectTypeView::Struct { fields } => {
            assert forall|i: int| 0 <= i < fields.len() implies wf_type(
                #[trigger] fields[i].1,
                n2,
            ) by {
                lemma_wf_type_grow(fields[i].1, n1, n2);
            }
        },
        DirectTypeView::Union { variants } => {
            assert forall|i: int| 0 <= i < variants.len() implies wf_type(
                #[trigger] variants[i].1,
                n2,
            ) by {
                lemma_wf_type_grow(variants[i].1, n1, n2);
            }
        },
        DirectTypeView::Type(t) => {
            lemma_wf_type_grow(t, n1, n2);
        },
        _ => {},
    }
}

/// Well-formedness of a declaration is stable when the type arena grows.
pub proof fn lemma_wf_decl_grow(d: FunctionDeclView, n1: int, n2: int)
    requires
        wf_decl(d, n1),
        n1 <= n2,
    ensures
        wf_decl(d, n2),
{
    lemma_wf_type_grow(d.ret, n1, n2);
    assert forall|i: int| 0 <= i < d.params.len() implies wf_type(
        #[trigger] d.params[i].ty,
        n2,
    ) by {
        lemma_wf_type_grow(d.params[i].ty, n1, n2);
    }
}

/// Well-formedness of a function is stable when the arenas of the program
/// only grow.
pub proof fn lemma_wf_function_grow(f: FunctionView, p1: ProgramView, p2: ProgramView)
    requires
        wf_function(f, p1),
        p1.types.len() <= p2.types.len(),
        p1.literals.len() <= p2.literals.len(),
        p1.function_decls.len() <= p2.function_decls.len(),
    ensures
        wf_function(f, p2),
{
    assert forall|i: int| 0 <= i < f.variables.len() implies wf_type(
        #[trigger] f.variables[i].ty,
        p2.types.len() as int,
    ) by {
        lemma_wf_type_grow(f.variables[i].ty, p1.types.len() as int, p2.types.len() as int);
    }
    lemma_wf_stmts_grow(
        f.body,
        WfCtx {
            n_vars: f.variables.len() as int,
            n_lits: p1.literals.len() as int,
            n_types: p1.types.len() as int,
            n_funcs: p1.function_decls.len() as int,
        },
        WfCtx {
            n_vars: f.variables.len() as int,
            n_lits: p2.literals.len() as int,
            n_types: p2.types.len() as int,
            n_funcs: p2.function_decls.len() as int,
        },
    );
}

pub open spec fn wf_vars(vars: Seq<VariableView>, n_types: int) -> bool {
    forall|i: int| 0 <= i < vars.len() ==> wf_type(#[trigger] vars[i].ty, n_types)
}

pub open spec fn wf_decl(d: FunctionDeclView, n_types: int) -> bool {
    wf_type(d.ret, n_types) && forall|i: int|
        0 <= i < d.params.len() ==> wf_type(#[trigger] d.params[i].ty, n_types)
}

pub open spec fn wf_function(f: FunctionView, p: ProgramView) -> bool {
    wf_vars(f.variables, p.types.len() as int) && wf_stmts(
        f.body,
        WfCtx {
            n_vars: f.variables.len() as int,
            n_lits: p.literals.len() as int,
            n_types: p.types.len() as int,
            n_funcs: p.function_decls.len() as int,
        },
    )
}

/// A lowered program is well-formed: the function and declaration arenas
/// are parallel, and every stored key points into its arena.
pub open spec fn wf_program(p: ProgramView) -> bool {
    &&& p.functions.len() == p.function_decls.len()
    &&& forall|i: int|
        0 <= i < p.types.len() ==> wf_direct(#[trigger] p.types[i], p.types.len() as int)
    &&& forall|i: int|
        0 <= i < p.function_decls.len() ==> wf_decl(
            #[trigger] p.function_decls[i],
            p.types.len() as int,
        )
    &&& forall|i: int| 0 <= i < p.functions.len() ==> wf_function(#[trigger] p.functions[i], p)
    &&& forall|i: int|
        0 <= i < p.type_names.len() ==> (#[trigger] p.type_names[i]).1.idx < p.types.len()
    &&& forall|i: int|
        0 <= i < p.function_names.len() ==> (#[trigger] p.function_names[i]).1.idx
            < p.functions.len()
}

// ---------------------------------------------------------------------------
// The typing rules.
// ---------------------------------------------------------------------------

/// The read-only context of type resolution: the nominal-type arena and the
/// declaration arena.
pub ghost struct TcCtx {
    pub types: Seq<DirectTypeView>,
    pub decls: Seq<FunctionDeclView>,
}

pub open spec fn wf_tc(c: TcCtx) -> bool {
    &&& forall|i: int|
        0 <= i < c.types.len() ==> wf_direct(#[trigger] c.types[i], c.types.len() as int)
    &&& forall|i: int|
        0 <= i < c.decls.len() ==> wf_decl(#[trigger] c.decls[i], c.types.len() as int)
}

/// The type of a string literal: a slice of bytes.
pub open spec fn literal_ty() -> TypeView {
    TypeView::Slice(Box::new(TypeView::Primitive(PrimitiveType::U8)))
}

/// The type of an atomic operand.  Integer literals are `I32`; the uninit
/// and unit markers have their own types; a variable has its stored type.
pub open spec fn value_ty(vars: Seq<VariableView>, v: Value) -> TypeView {
    match v {
        Value::Var(k, _) => vars[k.idx as int].ty,
        Value::Num(_, _) => TypeView::Primitive(PrimitiveType::I32),
        Value::Literal(_, _) => literal_ty(),
        Value::Uninit(_) => TypeView::Uninit,
        Value::Unit(_) => TypeView::Unit,
    }
}

/// The struct definition behind a type, looking through one pointer level:
/// `p->x` works on a struct as well as on a pointer to one.
pub open spec fn struct_fields_of(c: TcCtx, t: TypeView) -> Option<Seq<(Seq<char>, TypeView)>> {
    match t {
        TypeView::Direct(k) => direct_struct(c, k),
        TypeView::Ptr(inner) => match *inner {
            TypeView::Direct(k) => direct_struct(c, k),
            _ => None,
        },
        _ => None,
    }
}

pub open spec fn direct_struct(c: TcCtx, k: crate::ir::TypeKey) -> Option<
    Seq<(Seq<char>, TypeView)>,
> {
    if 0 <= k.idx < c.types.len() {
        match c.types[k.idx as int] {
            DirectTypeView::Struct { fields } => Some(fields),
            _ => None,
        }
    } else {
        None
    }
}

pub open spec fn is_numeric(p: PrimitiveType) -> bool {
    p == PrimitiveType::I32 || p == PrimitiveType::F32 || p == PrimitiveType::U8
}

pub open spec fn is_integer(p: PrimitiveType) -> bool {
    p == PrimitiveType::I32 || p == PrimitiveType::U8
}

/// Typing of a unary operation.  `AddressOf` needs an lvalue (a variable
/// reference) and yields a pointer; `Deref` needs a pointer; `Negate` a
/// numeric primitive; `Not` a `Bool`.
pub open spec fn check_unary(
    vars: Seq<VariableView>,
    op: UnaryOp,
    v: Value,
    span: Span,
) -> (Seq<TypeError>, Option<TypeView>) {
    match op {
        UnaryOp::AddressOf => match v {
            Value::Var(_, _) => (
                Seq::empty(),
                Some(TypeView::Ptr(Box::new(value_ty(vars, v)))),
            ),
            _ => (seq![TypeError::AddressOfNonLvalue(span)], None::<TypeView>),
        },
        UnaryOp::Deref => match value_ty(vars, v) {
            TypeView::Ptr(inner) => (Seq::empty(), Some(*inner)),
            _ => (seq![TypeError::NotAPointer(span)], None::<TypeView>),
        },
        UnaryOp::Negate => match value_ty(vars, v) {
            TypeView::Primitive(p) => if is_numeric(p) {
                (Seq::empty(), Some(TypeView::Primitive(p)))
            } else {
                (seq![TypeError::TypeMismatch(span)], None::<TypeView>)
            },
            _ => (seq![TypeError::TypeMismatch(span)], None::<TypeView>),
        },
        UnaryOp::Not => if value_ty(vars, v) == TypeView::Primitive(PrimitiveType::Bool) {
            (Seq::empty(), Some(TypeView::Primitive(PrimitiveType::Bool)))
        } else {
            (seq![TypeError::TypeMismatch(span)], None::<TypeView>)
        },
    }
}

pub open spec fn is_arith(op: BinOp) -> bool {
    op == BinOp::Add || op == BinOp::Sub || op == BinOp::Mul || op == BinOp::Div || op
        == BinOp::Mod
}

pub open spec fn is_logic(op: BinOp) -> bool {
    op == BinOp::LogicAnd || op == BinOp::LogicOr || op == BinOp::LogicXor
}

pub open spec fn is_bitwise(op: BinOp) -> bool {
    op == BinOp::And || op == BinOp::Or || op == BinOp::Xor
}

/// Typing of a binary operation: arithmetic needs both operands the same
/// numeric primitive and yields it; logic ops need two `Bool`s; bitwise ops
/// need the same integer primitive; comparisons need the same primitive and
/// yield `Bool`.
pub open spec fn check_binop(lt: TypeView, rt: TypeView, op: BinOp, span: Span) -> (
    Seq<TypeError>,
    Option<TypeView>,
) {
    if is_arith(op) {
        match lt {
            TypeView::Primitive(p) => if is_numeric(p) && rt == lt {
                (Seq::<TypeError>::empty(), Some(lt))
            } else {
                (seq![TypeError::TypeMismatch(span)], None::<TypeView>)
            },
            _ => (seq![TypeError::TypeMismatch(span)], None::<TypeView>),
        }
    } else if is_logic(op) {
        if lt == TypeView::Primitive(PrimitiveType::Bool) && rt == lt {
            (Seq::<TypeError>::empty(), Some(lt))
        } else {
            (seq![TypeError::TypeMismatch(span)], None::<TypeView>)
        }
    } else if is_bitwise(op) {
        match lt {
            TypeView::Primitive(p) => if is_integer(p) && rt == lt {
                (Seq::<TypeError>::empty(), Some(lt))
            } else {
                (seq![TypeError::TypeMismatch(span)], None::<TypeView>)
            },
            _ => (seq![TypeError::TypeMismatch(span)], None::<TypeView>),
        }
    } else {
        // Comparison: both operands the same primitive, result Bool.
        match lt {
            TypeView::Primitive(_) => if rt == lt {
                (Seq::<TypeError>::empty(), Some(TypeView::Primitive(PrimitiveType::Bool)))
            } else {
                (seq![TypeError::TypeMismatch(span)], None::<TypeView>)
            },
            _ => (seq![TypeError::TypeMismatch(span)], None::<TypeView>),
        }
    }
}

/// One `TypeMismatch` at the argument's span for every argument that is not
/// assignable to its parameter, in argument order.
pub open spec fn check_args(
    vars: Seq<VariableView>,
    params: Seq<ParamView>,
    args: Seq<Value>,
) -> Seq<TypeError>
    decreases args.len(),
{
    if args.len() == 0 || params.len() == 0 {
        Seq::empty()
    } else {
        (if spec_assignable(value_ty(vars, args[0]), params[0].ty) {
            Seq::<TypeError>::empty()
        } else {
            seq![TypeError::TypeMismatch(spec_value_span(args[0]))]
        }) + check_args(
            vars,
            params.subrange(1, params.len() as int),
            args.subrange(1, args.len() as int),
        )
    }
}

/// Typing of an expression.  The second component is the expression's type,
/// or `None` when it has none because of an error in it.
pub open spec fn check_expr(
    c: TcCtx,
    ret: TypeView,
    in_loop: bool,
    vars: Seq<VariableView>,
    e: ExprView,
) -> (Seq<TypeError>, Option<TypeView>) {
    match e {
        ExprView::Value(v) => (Seq::<TypeError>::empty(), Some(value_ty(vars, v))),
        ExprView::FieldAccess(v, field, span) => match struct_fields_of(c, value_ty(vars, v)) {
            Some(fields) => match spec_lookup(fields, field) {
                Some(t) => (Seq::<TypeError>::empty(), Some(t)),
                None => (seq![TypeError::UnknownField(span)], None::<TypeView>),
            },
            None => (seq![TypeError::NotAStruct(span)], None::<TypeView>),
        },
        ExprView::PathAccess(k, member, span) => match c.types[k.idx as int] {
            DirectTypeView::Enum { variants } => match spec_lookup(variants, member) {
                Some(_) => (Seq::<TypeError>::empty(), Some(TypeView::Direct(k))),
                None => (seq![TypeError::UnknownField(span)], None::<TypeView>),
            },
            _ => (seq![TypeError::NotAStruct(span)], None::<TypeView>),
        },
        ExprView::FuncCall(k, args, span) => {
            let d = c.decls[k.idx as int];
            if args.len() != d.params.len() {
                (seq![TypeError::ArityMismatch(span)], Some(d.ret))
            } else {
                (check_args(vars, d.params, args), Some(d.ret))
            }
        },
        ExprView::Return(v, span) => if ret is Unit {
            match v {
                None => (Seq::<TypeError>::empty(), Some(TypeView::Never)),
                Some(v) => if spec_assignable(value_ty(vars, v), TypeView::Unit) {
                    (Seq::<TypeError>::empty(), Some(TypeView::Never))
                } else {
                    (seq![TypeError::TypeMismatch(span)], Some(TypeView::Never))
                },
            }
        } else {
            match v {
                None => (seq![TypeError::MissingReturnValue(span)], Some(TypeView::Never)),
                Some(v) => if spec_assignable(value_ty(vars, v), ret) {
                    (Seq::<TypeError>::empty(), Some(TypeView::Never))
                } else {
                    (seq![TypeError::TypeMismatch(span)], Some(TypeView::Never))
                },
            }
        },
        ExprView::Break(span) => if in_loop {
            (Seq::<TypeError>::empty(), Some(TypeView::Never))
        } else {
            (seq![TypeError::IllegalBreakOrContinue(span)], Some(TypeView::Never))
        },
        ExprView::Continue(span) => if in_loop {
            (Seq::<TypeError>::empty(), Some(TypeView::Never))
        } else {
            (seq![TypeError::IllegalBreakOrContinue(span)], Some(TypeView::Never))
        },
        ExprView::BinOp(l, op, r, span) => check_binop(
            value_ty(vars, l),
            value_ty(vars, r),
            op,
            span,
        ),
        ExprView::UnaryOp(op, v, span) => check_unary(vars, op, v, span),
    }
}

/// Typing of a statement: the updated variable types (first-write inference
/// may resolve an `Undeclared` variable) and the errors found, in order.
pub open spec fn check_stmt(
    c: TcCtx,
    ret: TypeView,
    in_loop: bool,
    vars: Seq<VariableView>,
    s: StatementView,
) -> (Seq<VariableView>, Seq<TypeError>)
    decreases s,
{
    match s {
        StatementView::Assign(v, e, span) => {
            let (errs, ty) = check_expr(c, ret, in_loop, vars, e);
            match ty {
                None => (vars, errs),
                Some(t) => if vars[v.idx as int].ty is Undeclared {
                    (
                        vars.update(
                            v.idx as int,
                            VariableView { ty: t, span: vars[v.idx as int].span },
                        ),
                        errs,
                    )
                } else if spec_assignable(t, vars[v.idx as int].ty) {
                    (vars, errs)
                } else {
                    (vars, errs.push(TypeError::TypeMismatch(span)))
                },
            }
        },
        StatementView::DerefAssign(target, value, span) => {
            let (e1, t1) = check_expr(c, ret, in_loop, vars, target);
            let (e2, t2) = check_expr(c, ret, in_loop, vars, value);
            match t1 {
                None => (vars, e1 + e2),
                Some(tt) => match tt {
                    TypeView::Ptr(inner) => match t2 {
                        None => (vars, e1 + e2),
                        Some(tv) => if spec_assignable(tv, *inner) {
                            (vars, e1 + e2)
                        } else {
                            (vars, (e1 + e2).push(TypeError::TypeMismatch(span)))
                        },
                    },
                    _ => (vars, (e1 + e2).push(TypeError::NotAPointer(span))),
                },
            }
        },
        StatementView::FieldAssign { object, field, value, span } => {
            let (e1, t1) = check_expr(c, ret, in_loop, vars, object);
            let (e2, t2) = check_expr(c, ret, in_loop, vars, value);
            match t1 {
                None => (vars, e1 + e2),
                Some(to) => match struct_fields_of(c, to) {
                    None => (vars, (e1 + e2).push(TypeError::NotAStruct(span))),
                    Some(fields) => match spec_lookup(fields, field) {
                        None => (vars, (e1 + e2).push(TypeError::UnknownField(span))),
                        Some(ft) => match t2 {
                            None => (vars, e1 + e2),
                            Some(tv) => if spec_assignable(tv, ft) {
                                (vars, e1 + e2)
                            } else {
                                (vars, (e1 + e2).push(TypeError::TypeMismatch(span)))
                            },
                        },
                    },
                },
            }
        },
        StatementView::Do(e) => (vars, check_expr(c, ret, in_loop, vars, e).0),
        StatementView::Block(b, _) => check_stmts(c, ret, in_loop, vars, b),
        StatementView::If { cond, block, else_block, .. } => {
            let (ec, tc) = check_expr(c, ret, in_loop, vars, cond);
            let cond_errs = match tc {
                Some(t) => if t == TypeView::Primitive(PrimitiveType::Bool) {
                    ec
                } else {
                    ec.push(TypeError::TypeMismatch(spec_expr_span(cond)))
                },
                None => ec,
            };
            let (v1, e1) = check_stmts(c, ret, in_loop, vars, block);
            match else_block {
                None => (v1, cond_errs + e1),
                Some(eb) => {
                    let (v2, e2) = check_stmts(c, ret, in_loop, v1, eb);
                    (v2, cond_errs + e1 + e2)
                },
            }
        },
        StatementView::Loop(b, _) => check_stmts(c, ret, true, vars, b),
    }
}

pub open spec fn check_stmts(
    c: TcCtx,
    ret: TypeView,
    in_loop: bool,
    vars: Seq<VariableView>,
    ss: Seq<StatementView>,
) -> (Seq<VariableView>, Seq<TypeError>)
    decreases ss,
{
    if ss.len() == 0 {
        (vars, Seq::<TypeError>::empty())
    } else {
        let (v1, e1) = check_stmt(c, ret, in_loop, vars, ss[0]);
        let (v2, e2) = check_stmts(c, ret, in_loop, v1, ss.subrange(1, ss.len() as int));
        (v2, e1 + e2)
    }
}

/// Whether a statement definitely returns from the enclosing function.
/// `break` and `continue` never count; a loop is conservatively assumed to
/// fall through.
pub open spec fn stmt_returns(s: StatementView) -> bool
    decreases s,
{
    match s {
        StatementView::Assign(_, e, _) => e is Return,
        StatementView::Do(e) => e is Return,
        StatementView::Block(b, _) => block_returns(b),
        StatementView::If { block, else_block, .. } => match else_block {
            Some(eb) => block_returns(block) && block_returns(eb),
            None => false,
        },
        _ => false,
    }
}

pub open spec fn block_returns(ss: Seq<StatementView>) -> bool
    decreases ss,
{
    if ss.len() == 0 {
        false
    } else {
        stmt_returns(ss[0]) || block_returns(ss.subrange(1, ss.len() as int))
    }
}

/// One `UninferredVariable` error, at the variable's declaration span, for
/// every variable whose type is still `Undeclared` after the pass.
pub open spec fn uninferred_errors(vars: Seq<VariableView>) -> Seq<TypeError>
    decreases vars.len(),
{
    if vars.len() == 0 {
        Seq::empty()
    } else {
        (if vars[0].ty is Undeclared {
            seq![TypeError::UninferredVariable(vars[0].span)]
        } else {
            Seq::<TypeError>::empty()
        }) + uninferred_errors(vars.subrange(1, vars.len() as int))
    }
}

/// The whole pass over one function: check the body statement by statement,
/// then report a missing return value if the declared return type is not
/// `Unit` and the body can fall through, then report every variable whose
/// type was never inferred.
pub open spec fn check_function(c: TcCtx, f: FunctionView, d: FunctionDeclView) -> (
    Seq<VariableView>,
    Seq<TypeError>,
) {
    let (vars1, errs1) = check_stmts(c, d.ret, false, f.variables, f.body);
    let errs2 = if !(d.ret is Unit) && !block_returns(f.body) {
        errs1.push(
            TypeError::MissingReturnValue(
                if f.body.len() > 0 {
                    spec_stmt_span(f.body.last())
                } else {
                    d.span
                },
            ),
        )
    } else {
        errs1
    };
    (vars1, errs2 + uninferred_errors(vars1))
}

pub open spec fn tc_ctx(p: ProgramView) -> TcCtx {
    TcCtx { types: p.types, decls: p.function_decls }
}

/// The functions of `p` after the pass: each keeps its body and gets its
/// resolved variable types.
pub open spec fn checked_functions(p: ProgramView) -> Seq<FunctionView> {
    Seq::new(
        p.functions.len(),
        |i: int|
            FunctionView {
                variables: check_function(tc_ctx(p), p.functions[i], p.function_decls[i]).0,
                body: p.functions[i].body,
            },
    )
}

/// All type errors of the program from function `i` on, in function order.
pub open spec fn check_all_errors(p: ProgramView, i: int) -> Seq<TypeError>
    decreases p.functions.len() - i,
{
    if i < 0 || i >= p.functions.len() {
        Seq::empty()
    } else {
        check_function(tc_ctx(p), p.functions[i], p.function_decls[i]).1 + check_all_errors(
            p,
            i + 1,
        )
    }
}

// ---------------------------------------------------------------------------
// The executable pass, proved to return exactly what the rules above say.
// ---------------------------------------------------------------------------

pub open spec fn ty_opt_view(r: Option<Type>) -> Option<TypeView> {
    match r {
        Some(t) => Some(type_view(t)),
        None => None::<TypeView>,
    }
}

/// The variable key of an operand, if any, is in bounds.
pub open spec fn value_var_ok(v: Value, n_vars: int) -> bool {
    match v {
        Value::Var(k, _) => k.idx < n_vars,
        _ => true,
    }
}

fn numeric_prim(p: &PrimitiveType) -> (b: bool)
    ensures
        b == is_numeric(*p),
{
    matches!(p, PrimitiveType::I32 | PrimitiveType::F32 | PrimitiveType::U8)
}

fn integer_prim(p: &PrimitiveType) -> (b: bool)
    ensures
        b == is_integer(*p),
{
    matches!(p, PrimitiveType::I32 | PrimitiveType::U8)
}

fn eval_value_ty(vars: &Vec<Variable>, v: &Value) -> (r: Type)
    requires
        value_var_ok(*v, vars@.len() as int),
    ensures
        r@ == value_ty(variables_view(vars@), *v),
{
    match v {
        Value::Var(k, _) => {
            let r = vars[k.idx].ty.clone();
            proof {
                assert(variables_view(vars@)[k.idx as int].ty == type_view(vars@[k.idx as int].ty));
            }
            r
        },
        Value::Num(_, _) => Type::Primitive(PrimitiveType::I32),
        Value::Literal(_, _) => {
            let inner = Box::new(Type::Primitive(PrimitiveType::U8));
            proof {
                assert(type_view(*inner) == TypeView::Primitive(PrimitiveType::U8));
            }
            let r = Type::Slice(inner);
            proof {
                assert(r@ == literal_ty());
            }
            r
        },
        Value::Uninit(_) => Type::Uninit,
        Value::Unit(_) => Type::Unit,
    }
}

/// First-match lookup of a field name in a struct's field list.
#[verifier::loop_isolation(false)]
fn lookup_field(fields: &Vec<(String, Type)>, name: &String) -> (r: Option<Type>)
    ensures
        ty_opt_view(r) == spec_lookup(fields_view(fields@), name@),
{
    let ghost t = fields_view(fields@);
    proof {
        lemma_fields_view(fields@);
    }
    let mut i: usize = 0;
    while i < fields.len()
        invariant
            i <= fields@.len(),
            forall|j: int| 0 <= j < i ==> t[j].0 != name@,
        decreases fields@.len() - i,
    {
        let entry = &fields[i];
        if entry.0 == *name {
            proof {
                lemma_lookup_skip(t, name@, i as int);
                assert(t.subrange(i as int, t.len() as int)[0] == t[i as int]);
            }
            return Some(entry.1.clone());
        }
        i += 1;
    }
    proof {
        lemma_lookup_skip(t, name@, t.len() as int);
        assert(t.subrange(t.len() as int, t.len() as int) =~= Seq::<(Seq<char>, TypeView)>::empty());
    }
    None
}

/// The struct definition behind a type, looking through one pointer level.
fn struct_fields<'a>(types: &'a Vec<DirectType>, t: &Type) -> (r: Option<&'a Vec<(String, Type)>>)
    requires
        wf_type(t@, types@.len() as int),
        forall|i: int|
            0 <= i < types@.len() ==> wf_direct(
                #[trigger] direct_types_view(types@)[i],
                types@.len() as int,
            ),
    ensures
        match r {
            Some(f) => {
                &&& struct_fields_of(TcCtx { types: direct_types_view(types@), decls: Seq::empty() }, t@)
                    == Some(fields_view(f@))
                &&& wf_fields(fields_view(f@), types@.len() as int)
            },
            None => struct_fields_of(
                TcCtx { types: direct_types_view(types@), decls: Seq::empty() },
                t@,
            ) is None,
        },
{
    let k: TypeKey = match t {
        Type::Direct(k) => {
            proof {
                assert(t@ == TypeView::Direct(*k));
            }
            *k
        },
        Type::Ptr(inner) => match &**inner {
            Type::Direct(k) => {
                proof {
                    assert(t@ == TypeView::Ptr(Box::new(TypeView::Direct(*k))));
                    assert(wf_type(TypeView::Direct(*k), types@.len() as int));
                }
                *k
            },
            _ => {
                proof {
                    assert(t@ == TypeView::Ptr(Box::new(type_view(**inner))));
                    assert(!(type_view(**inner) is Direct));
                }
                return None;
            },
        },
        _ => {
            proof {
                assert(!(t@ is Direct) && !(t@ is Ptr));
            }
            return None;
        },
    };
    proof {
        assert(k.idx < types@.len());
    }
    match &types[k.idx] {
        DirectType::Struct { fields } => {
            proof {
                assert(direct_types_view(types@)[k.idx as int] == direct_type_view(
                    types@[k.idx as int],
                ));
            }
            Some(fields)
        },
        _ => None,
    }
}

#[verifier::loop_isolation(false)]
fn eval_args(
    vars: &Vec<Variable>,
    params: &Vec<Param>,
    args: &Vec<Value>,
    errs: &mut Vec<TypeError>,
)
    requires
        params@.len() == args@.len(),
        forall|i: int| 0 <= i < args@.len() ==> value_var_ok(#[trigger] args@[i], vars@.len() as int),
    ensures
        final(errs)@ == old(errs)@ + check_args(variables_view(vars@), params_view(params@), args@),
{
    let ghost varsv = variables_view(vars@);
    let ghost paramsv = params_view(params@);
    let ghost argsv = args@;
    let ghost errs0 = errs@;
    let ghost n = args@.len() as int;
    proof {
        assert(paramsv.subrange(0, n) =~= paramsv);
        assert(argsv.subrange(0, n) =~= argsv);
    }
    let mut i: usize = 0;
    while i < args.len()
        invariant
            i <= n,
            errs@ + check_args(varsv, paramsv.subrange(i as int, n), argsv.subrange(i as int, n))
                == errs0 + check_args(varsv, paramsv, argsv),
        decreases n - i,
    {
        let ghost ps = paramsv.subrange(i as int, n);
        let ghost asq = argsv.subrange(i as int, n);
        proof {
            assert(ps[0] == paramsv[i as int]);
            assert(asq[0] == argsv[i as int]);
            assert(ps.subrange(1, ps.len() as int) =~= paramsv.subrange(i as int + 1, n));
            assert(asq.subrange(1, asq.len() as int) =~= argsv.subrange(i as int + 1, n));
        }
        let at = eval_value_ty(vars, &args[i]);
        if !assignable(&at, &params[i].ty) {
            let sp = args[i].span();
            errs.push(TypeError::TypeMismatch(sp));
            proof {
                assert(errs@ =~= (errs0 + check_args(varsv, paramsv, argsv)).subrange(
                    0,
                    errs@.len() as int,
                )) by {
                    assert(check_args(varsv, ps, asq) == seq![
                        TypeError::TypeMismatch(spec_value_span(argsv[i as int])),
                    ] + check_args(
                        varsv,
                        paramsv.subrange(i as int + 1, n),
                        argsv.subrange(i as int + 1, n),
                    ));
                    assert(errs@ + check_args(
                        varsv,
                        paramsv.subrange(i as int + 1, n),
                        argsv.subrange(i as int + 1, n),
                    ) =~= errs0 + check_args(varsv, paramsv, argsv));
                };
            }
        } else {
            proof {
                assert(check_args(varsv, ps, asq) == check_args(
                    varsv,
                    paramsv.subrange(i as int + 1, n),
                    argsv.subrange(i as int + 1, n),
                ));
            }
        }
        i += 1;
        proof {
            assert(errs@ + check_args(
                varsv,
                paramsv.subrange(i as int, n),
                argsv.subrange(i as int, n),
            ) =~= errs0 + check_args(varsv, paramsv, argsv));
        }
    }
    proof {
        assert(paramsv.subrange(n, n) =~= Seq::<ParamView>::empty());
        assert(argsv.subrange(n, n) =~= Seq::<Value>::empty());
        assert(errs@ =~= errs0 + check_args(varsv, paramsv, argsv));
    }
}

pub proof fn lemma_value_ty_wf(vars: Seq<VariableView>, v: Value, n: int)
    requires
        wf_vars(vars, n),
        value_var_ok(v, vars.len() as int),
    ensures
        wf_type(value_ty(vars, v), n),
{
    match v {
        Value::Var(k, _) => {
            assert(wf_type(vars[k.idx as int].ty, n));
        },
        Value::Literal(_, _) => {
            assert(wf_type(TypeView::Primitive(PrimitiveType::U8), n));
        },
        _ => {},
    }
}

fn eval_unary(
    vars: &Vec<Variable>,
    op: UnaryOp,
    v: &Value,
    span: Span,
    errs: &mut Vec<TypeError>,
    Ghost(n_types): Ghost<int>,
) -> (r: Option<Type>)
    requires
        value_var_ok(*v, vars@.len() as int),
        wf_vars(variables_view(vars@), n_types),
    ensures
        ({
            let (serrs, sty) = check_unary(variables_view(vars@), op, *v, span);
            &&& final(errs)@ == old(errs)@ + serrs
            &&& ty_opt_view(r) == sty
            &&& match r {
                Some(t) => wf_type(t@, n_types),
                None => true,
            }
        }),
{
    let ghost varsv = variables_view(vars@);
    proof {
        lemma_value_ty_wf(varsv, *v, n_types);
    }
    match op {
        UnaryOp::AddressOf => match v {
            Value::Var(_, _) => {
                let t = eval_value_ty(vars, v);
                let r = Type::Ptr(Box::new(t));
                proof {
                    assert(errs@ =~= errs@ + Seq::<TypeError>::empty());
                }
                Some(r)
            },
            _ => {
                errs.push(TypeError::AddressOfNonLvalue(span));
                proof {
                    assert(errs@ =~= old(errs)@ + seq![TypeError::AddressOfNonLvalue(span)]);
                }
                None
            },
        },
        UnaryOp::Deref => {
            let t = eval_value_ty(vars, v);
            match t {
                Type::Ptr(inner) => {
                    proof {
                        assert(errs@ =~= errs@ + Seq::<TypeError>::empty());
                    }
                    Some(*inner)
                },
                _ => {
                    proof {
                        assert(!(value_ty(varsv, *v) is Ptr));
                    }
                    errs.push(TypeError::NotAPointer(span));
                    proof {
                        assert(errs@ =~= old(errs)@ + seq![TypeError::NotAPointer(span)]);
                    }
                    None
                },
            }
        },
        UnaryOp::Negate => {
            let t = eval_value_ty(vars, v);
            match t {
                Type::Primitive(p) => {
                    if numeric_prim(&p) {
                        proof {
                            assert(errs@ =~= errs@ + Seq::<TypeError>::empty());
                        }
                        Some(Type::Primitive(p))
                    } else {
                        errs.push(TypeError::TypeMismatch(span));
                        proof {
                            assert(errs@ =~= old(errs)@ + seq![TypeError::TypeMismatch(span)]);
                        }
                        None
                    }
                },
                _ => {
                    proof {
                        assert(!(value_ty(varsv, *v) is Primitive));
                    }
                    errs.push(TypeError::TypeMismatch(span));
                    proof {
                        assert(errs@ =~= old(errs)@ + seq![TypeError::TypeMismatch(span)]);
                    }
                    None
                },
            }
        },
        UnaryOp::Not => {
            let t = eval_value_ty(vars, v);
            if type_eq(&t, &Type::Primitive(PrimitiveType::Bool)) {
                proof {
                    assert(errs@ =~= errs@ + Seq::<TypeError>::empty());
                }
                Some(Type::Primitive(PrimitiveType::Bool))
            } else {
                errs.push(TypeError::TypeMismatch(span));
                proof {
                    assert(errs@ =~= old(errs)@ + seq![TypeError::TypeMismatch(span)]);
                }
                None
            }
        },
    }
}

fn eval_binop(lt: Type, rt: Type, op: BinOp, span: Span, errs: &mut Vec<TypeError>) -> (r: Option<
    Type,
>)
    ensures
        ({
            let (serrs, sty) = check_binop(type_view(lt), type_view(rt), op, span);
            &&& final(errs)@ == old(errs)@ + serrs
            &&& ty_opt_view(r) == sty
            &&& match r {
                Some(t) => t@ == type_view(lt) || t@ == TypeView::Primitive(PrimitiveType::Bool),
                None => true,
            }
        }),
{
    let arith = matches!(op, BinOp::Add | BinOp::Sub | BinOp::Mul | BinOp::Div | BinOp::Mod);
    let logic = matches!(op, BinOp::LogicAnd | BinOp::LogicOr | BinOp::LogicXor);
    let bitwise = matches!(op, BinOp::And | BinOp::Or | BinOp::Xor);
    proof {
        assert(arith == is_arith(op));
        assert(logic == is_logic(op));
        assert(bitwise == is_bitwise(op));
    }
    if arith {
        match lt {
            Type::Primitive(p) => {
                if numeric_prim(&p) && type_eq(&rt, &Type::Primitive(p)) {
                    proof {
                        assert(errs@ =~= errs@ + Seq::<TypeError>::empty());
                    }
                    Some(Type::Primitive(p))
                } else {
                    errs.push(TypeError::TypeMismatch(span));
                    proof {
                        assert(errs@ =~= old(errs)@ + seq![TypeError::TypeMismatch(span)]);
                    }
                    None
                }
            },
            _ => {
                proof {
                    assert(!(type_view(lt) is Primitive));
                }
                errs.push(TypeError::TypeMismatch(span));
                proof {
                    assert(errs@ =~= old(errs)@ + seq![TypeError::TypeMismatch(span)]);
                }
                None
            },
        }
    } else if logic {
        let lb = type_eq(&lt, &Type::Primitive(PrimitiveType::Bool));
        let rb = type_eq(&rt, &lt);
        if lb && rb {
            proof {
                assert(errs@ =~= errs@ + Seq::<TypeError>::empty());
            }
            Some(lt)
        } else {
            errs.push(TypeError::TypeMismatch(span));
            proof {
                assert(errs@ =~= old(errs)@ + seq![TypeError::TypeMismatch(span)]);
            }
            None
        }
    } else if bitwise {
        match lt {
            Type::Primitive(p) => {
                if integer_prim(&p) && type_eq(&rt, &Type::Primitive(p)) {
                    proof {
                        assert(errs@ =~= errs@ + Seq::<TypeError>::empty());
                    }
                    Some(Type::Primitive(p))
                } else {
                    errs.push(TypeError::TypeMismatch(span));
                    proof {
                        assert(errs@ =~= old(errs)@ + seq![TypeError::TypeMismatch(span)]);
                    }
                    None
                }
            },
            _ => {
                proof {
                    assert(!(type_view(lt) is Primitive));
                }
                errs.push(TypeError::TypeMismatch(span));
                proof {
                    assert(errs@ =~= old(errs)@ + seq![TypeError::TypeMismatch(span)]);
                }
                None
            },
        }
    } else {
        match lt {
            Type::Primitive(p) => {
                if type_eq(&rt, &Type::Primitive(p)) {
                    proof {
                        assert(errs@ =~= errs@ + Seq::<TypeError>::empty());
                    }
                    Some(Type::Primitive(PrimitiveType::Bool))
                } else {
                    errs.push(TypeError::TypeMismatch(span));
                    proof {
                        assert(errs@ =~= old(errs)@ + seq![TypeError::TypeMismatch(span)]);
                    }
                    None
                }
            },
            _ => {
                proof {
                    assert(!(type_view(lt) is Primitive));
                }
                errs.push(TypeError::TypeMismatch(span));
                proof {
                    assert(errs@ =~= old(errs)@ + seq![TypeError::TypeMismatch(span)]);
                }
                None
            },
        }
    }
}

pub open spec fn exec_tc(types: Seq<DirectType>, decls: Seq<FunctionDecl>) -> TcCtx {
    TcCtx { types: direct_types_view(types), decls: decls_view(decls) }
}

fn eval_expr(
    types: &Vec<DirectType>,
    decls: &Vec<FunctionDecl>,
    ret: &Type,
    in_loop: bool,
    vars: &Vec<Variable>,
    e: &Expr,
    errs: &mut Vec<TypeError>,
    Ghost(wfc): Ghost<WfCtx>,
) -> (r: Option<Type>)
    requires
        wfc.n_vars == vars@.len() as int,
        wfc.n_types == types@.len() as int,
        wfc.n_funcs == decls@.len() as int,
        wf_tc(exec_tc(types@, decls@)),
        wf_vars(variables_view(vars@), wfc.n_types),
        wf_expr(e@, wfc),
    ensures
        ({
            let (serrs, sty) = check_expr(
                exec_tc(types@, decls@),
                type_view(*ret),
                in_loop,
                variables_view(vars@),
                e@,
            );
            &&& final(errs)@ == old(errs)@ + serrs
            &&& ty_opt_view(r) == sty
            &&& match r {
                Some(t) => wf_type(t@, wfc.n_types),
                None => true,
            }
        }),
{
    let ghost c = exec_tc(types@, decls@);
    let ghost varsv = variables_view(vars@);
    match e {
        Expr::Value(v) => {
            let t = eval_value_ty(vars, v);
            proof {
                lemma_value_ty_wf(varsv, *v, wfc.n_types);
                assert(errs@ =~= errs@ + Seq::<TypeError>::empty());
            }
            Some(t)
        },
        Expr::FieldAccess(v, name, span) => {
            let ot = eval_value_ty(vars, v);
            proof {
                lemma_value_ty_wf(varsv, *v, wfc.n_types);
            }
            match struct_fields(types, &ot) {
                Some(fields) => match lookup_field(fields, name) {
                    Some(t) => {
                        proof {
                            lemma_lookup_found(fields_view(fields@), name@);
                            let j = choose|j: int|
                                0 <= j < fields_view(fields@).len() && fields_view(fields@)[j].0
                                    == name@ && spec_lookup(fields_view(fields@), name@) == Some(
                                    fields_view(fields@)[j].1,
                                );
                            assert(wf_type(fields_view(fields@)[j].1, wfc.n_types));
                            assert(errs@ =~= errs@ + Seq::<TypeError>::empty());
                        }
                        Some(t)
                    },
                    None => {
                        errs.push(TypeError::UnknownField(*span));
                        proof {
                            assert(errs@ =~= old(errs)@ + seq![TypeError::UnknownField(*span)]);
                        }
                        None
                    },
                },
                None => {
                    errs.push(TypeError::NotAStruct(*span));
                    proof {
                        assert(errs@ =~= old(errs)@ + seq![TypeError::NotAStruct(*span)]);
                    }
                    None
                },
            }
        },
        Expr::PathAccess(k, member, span) => {
            match &types[k.idx] {
                DirectType::Enum { variants } => {
                    proof {
                        assert(direct_types_view(types@)[k.idx as int] == direct_type_view(
                            types@[k.idx as int],
                        ));
                        assert(crate::ir::enum_variants_view(variants@) =~= names_view(
                            variants@,
                        ));
                    }
                    if lookup_name(variants, member).is_some() {
                        proof {
                            assert(errs@ =~= errs@ + Seq::<TypeError>::empty());
                        }
                        Some(Type::Direct(*k))
                    } else {
                        errs.push(TypeError::UnknownField(*span));
                        proof {
                            assert(errs@ =~= old(errs)@ + seq![TypeError::UnknownField(*span)]);
                        }
                        None
                    }
                },
                _ => {
                    proof {
                        assert(direct_types_view(types@)[k.idx as int] == direct_type_view(
                            types@[k.idx as int],
                        ));
                        assert(!(c.types[k.idx as int] is Enum));
                    }
                    errs.push(TypeError::NotAStruct(*span));
                    proof {
                        assert(errs@ =~= old(errs)@ + seq![TypeError::NotAStruct(*span)]);
                    }
                    None
                },
            }
        },
        Expr::FuncCall(k, args, span) => {
            let d = &decls[k.idx];
            proof {
                assert(decls_view(decls@)[k.idx as int] == decl_view(decls@[k.idx as int]));
                assert(wf_decl(decls_view(decls@)[k.idx as int], wfc.n_types));
            }
            if args.len() != d.params.len() {
                errs.push(TypeError::ArityMismatch(*span));
                proof {
                    assert(errs@ =~= old(errs)@ + seq![TypeError::ArityMismatch(*span)]);
                }
                Some(d.ret.clone())
            } else {
                proof {
                    assert forall|i: int|
                        0 <= i < args@.len() implies value_var_ok(
                        #[trigger] args@[i],
                        vars@.len() as int,
                    ) by {
                        assert(wf_value(args@[i], wfc));
                    }
                }
                eval_args(vars, &d.params, args, errs);
                Some(d.ret.clone())
            }
        },
        Expr::Return(vo, span) => {
            let ret_is_unit = matches!(ret, Type::Unit);
            proof {
                assert(ret_is_unit == (type_view(*ret) is Unit));
            }
            match vo {
                None => {
                    if ret_is_unit {
                        proof {
                            assert(errs@ =~= errs@ + Seq::<TypeError>::empty());
                        }
                    } else {
                        errs.push(TypeError::MissingReturnValue(*span));
                        proof {
                            assert(errs@ =~= old(errs)@ + seq![
                                TypeError::MissingReturnValue(*span),
                            ]);
                        }
                    }
                    Some(Type::Never)
                },
                Some(v) => {
                    let vt = eval_value_ty(vars, v);
                    let tgt = if ret_is_unit {
                        Type::Unit
                    } else {
                        ret.clone()
                    };
                    if assignable(&vt, &tgt) {
                        proof {
                            assert(errs@ =~= errs@ + Seq::<TypeError>::empty());
                        }
                    } else {
                        errs.push(TypeError::TypeMismatch(*span));
                        proof {
                            assert(errs@ =~= old(errs)@ + seq![TypeError::TypeMismatch(*span)]);
                        }
                    }
                    Some(Type::Never)
                },
            }
        },
        Expr::Break(span) => {
            if in_loop {
                proof {
                    assert(errs@ =~= errs@ + Seq::<TypeError>::empty());
                }
            } else {
                errs.push(TypeError::IllegalBreakOrContinue(*span));
                proof {
                    assert(errs@ =~= old(errs)@ + seq![TypeError::IllegalBreakOrContinue(*span)]);
                }
            }
            Some(Type::Never)
        },
        Expr::Continue(span) => {
            if in_loop {
                proof {
                    assert(errs@ =~= errs@ + Seq::<TypeError>::empty());
                }
            } else {
                errs.push(TypeError::IllegalBreakOrContinue(*span));
                proof {
                    assert(errs@ =~= old(errs)@ + seq![TypeError::IllegalBreakOrContinue(*span)]);
                }
            }
            Some(Type::Never)
        },
        Expr::BinOp(l, op, r2, span) => {
            let lt = eval_value_ty(vars, l);
            let rt = eval_value_ty(vars, r2);
            proof {
                lemma_value_ty_wf(varsv, *l, wfc.n_types);
            }
            eval_binop(lt, rt, *op, *span, errs)
        },
        Expr::UnaryOp(op, v, span) => eval_unary(vars, *op, v, *span, errs, Ghost(wfc.n_types)),
    }
}

#[verifier::loop_isolation(false)]
fn eval_stmt(
    types: &Vec<DirectType>,
    decls: &Vec<FunctionDecl>,
    ret: &Type,
    in_loop: bool,
    vars: &mut Vec<Variable>,
    s: &Statement,
    errs: &mut Vec<TypeError>,
    Ghost(wfc): Ghost<WfCtx>,
)
    requires
        wfc.n_vars == old(vars)@.len() as int,
        wfc.n_types == types@.len() as int,
        wfc.n_funcs == decls@.len() as int,
        wf_tc(exec_tc(types@, decls@)),
        wf_vars(variables_view(old(vars)@), wfc.n_types),
        wf_stmt(s@, wfc),
    ensures
        ({
            let (svars, serrs) = check_stmt(
                exec_tc(types@, decls@),
                type_view(*ret),
                in_loop,
                variables_view(old(vars)@),
                s@,
            );
            &&& variables_view(final(vars)@) == svars
            &&& final(errs)@ == old(errs)@ + serrs
            &&& final(vars)@.len() == old(vars)@.len()
            &&& wf_vars(variables_view(final(vars)@), wfc.n_types)
        }),
    decreases *s,
{
    let ghost c = exec_tc(types@, decls@);
    let ghost rv = type_view(*ret);
    let ghost vars0 = variables_view(vars@);
    let ghost errs0 = errs@;
    match s {
        Statement::Assign(v, e, span) => {
            let ty = eval_expr(types, decls, ret, in_loop, vars, e, errs, Ghost(wfc));
            match ty {
                None => {},
                Some(t) => {
                    let undeclared = matches!(vars[v.idx].ty, Type::Undeclared);
                    proof {
                        assert(undeclared == (vars0[v.idx as int].ty is Undeclared));
                    }
                    if undeclared {
                        let ghost tv = t@;
                        let slot = &mut vars[v.idx];
                        slot.ty = t;
                        proof {
                            assert(variables_view(vars@) =~= vars0.update(
                                v.idx as int,
                                VariableView { ty: tv, span: vars0[v.idx as int].span },
                            ));
                            assert forall|j: int|
                                0 <= j < variables_view(vars@).len() implies wf_type(
                                #[trigger] variables_view(vars@)[j].ty,
                                wfc.n_types,
                            ) by {
                                if j != v.idx as int {
                                    assert(variables_view(vars@)[j] == vars0[j]);
                                }
                            }
                        }
                    } else {
                        if assignable(&t, &vars[v.idx].ty) {
                        } else {
                            errs.push(TypeError::TypeMismatch(*span));
                            proof {
                                let e1 = check_expr(c, rv, in_loop, vars0, e@).0;
                                assert(errs@ =~= errs0 + e1.push(TypeError::TypeMismatch(*span)));
                            }
                        }
                    }
                },
            }
        },
        Statement::DerefAssign(target, value, span) => {
            let t1 = eval_expr(types, decls, ret, in_loop, vars, target, errs, Ghost(wfc));
            let t2 = eval_expr(types, decls, ret, in_loop, vars, value, errs, Ghost(wfc));
            let ghost e1 = check_expr(c, rv, in_loop, vars0, target@).0;
            let ghost e2 = check_expr(c, rv, in_loop, vars0, value@).0;
            proof {
                assert(errs@ =~= errs0 + (e1 + e2));
            }
            match t1 {
                None => {},
                Some(tt) => match tt {
                    Type::Ptr(inner) => match t2 {
                        None => {},
                        Some(tv) => {
                            if assignable(&tv, &*inner) {
                            } else {
                                errs.push(TypeError::TypeMismatch(*span));
                                proof {
                                    assert(errs@ =~= errs0 + (e1 + e2).push(
                                        TypeError::TypeMismatch(*span),
                                    ));
                                }
                            }
                        },
                    },
                    _ => {
                        proof {
                            assert(!(type_view(tt) is Ptr));
                        }
                        errs.push(TypeError::NotAPointer(*span));
                        proof {
                            assert(errs@ =~= errs0 + (e1 + e2).push(TypeError::NotAPointer(*span)));
                        }
                    },
                },
            }
        },
        Statement::FieldAssign { object, field, value, span } => {
            let t1 = eval_expr(types, decls, ret, in_loop, vars, object, errs, Ghost(wfc));
            let t2 = eval_expr(types, decls, ret, in_loop, vars, value, errs, Ghost(wfc));
            let ghost e1 = check_expr(c, rv, in_loop, vars0, object@).0;
            let ghost e2 = check_expr(c, rv, in_loop, vars0, value@).0;
            proof {
                assert(errs@ =~= errs0 + (e1 + e2));
            }
            match t1 {
                None => {},
                Some(to) => match struct_fields(types, &to) {
                    None => {
                        errs.push(TypeError::NotAStruct(*span));
                        proof {
                            assert(errs@ =~= errs0 + (e1 + e2).push(TypeError::NotAStruct(*span)));
                        }
                    },
                    Some(fields) => match lookup_field(fields, field) {
                        None => {
                            errs.push(TypeError::UnknownField(*span));
                            proof {
                                assert(errs@ =~= errs0 + (e1 + e2).push(
                                    TypeError::UnknownField(*span),
                                ));
                            }
                        },
                        Some(ft) => match t2 {
                            None => {},
                            Some(tv) => {
                                if assignable(&tv, &ft) {
                                } else {
                                    errs.push(TypeError::TypeMismatch(*span));
                                    proof {
                                        assert(errs@ =~= errs0 + (e1 + e2).push(
                                            TypeError::TypeMismatch(*span),
                                        ));
                                    }
                                }
                            },
                        },
                    },
                },
            }
        },
        Statement::Do(e) => {
            let _ = eval_expr(types, decls, ret, in_loop, vars, e, errs, Ghost(wfc));
        },
        Statement::Block(b, _) => {
            proof {
                assert(decreases_to!(*s => *b));
                assert(decreases_to!(*b => b.stmts));
            }
            eval_block(types, decls, ret, in_loop, vars, &b.stmts, errs, Ghost(wfc));
        },
        Statement::If { cond, block, else_block, span } => {
            let tc = eval_expr(types, decls, ret, in_loop, vars, cond, errs, Ghost(wfc));
            let ghost ec = check_expr(c, rv, in_loop, vars0, cond@).0;
            match tc {
                Some(t) => {
                    if !type_eq(&t, &Type::Primitive(PrimitiveType::Bool)) {
                        let sp = cond.span();
                        errs.push(TypeError::TypeMismatch(sp));
                        proof {
                            assert(errs@ =~= errs0 + ec.push(
                                TypeError::TypeMismatch(spec_expr_span(cond@)),
                            ));
                        }
                    }
                },
                None => {},
            }
            let ghost cond_errs = errs@.subrange(errs0.len() as int, errs@.len() as int);
            proof {
                assert(errs@ =~= errs0 + cond_errs);
                assert(decreases_to!(*s => *block));
                assert(decreases_to!(*block => block.stmts));
            }
            eval_block(types, decls, ret, in_loop, vars, &block.stmts, errs, Ghost(wfc));
            let ghost pair1 = check_stmts(c, rv, in_loop, vars0, stmts_view(block.stmts@));
            proof {
                assert(errs@ =~= errs0 + (cond_errs + pair1.1));
            }
            match else_block {
                None => {},
                Some(eb) => {
                    proof {
                        assert(decreases_to!(*s => *eb));
                        assert(decreases_to!(*eb => eb.stmts));
                    }
                    eval_block(types, decls, ret, in_loop, vars, &eb.stmts, errs, Ghost(wfc));
                    let ghost pair2 = check_stmts(c, rv, in_loop, pair1.0, stmts_view(eb.stmts@));
                    proof {
                        assert(errs@ =~= errs0 + (cond_errs + pair1.1 + pair2.1));
                    }
                },
            }
        },
        Statement::Loop(b, _) => {
            proof {
                assert(decreases_to!(*s => *b));
                assert(decreases_to!(*b => b.stmts));
            }
            eval_block(types, decls, ret, true, vars, &b.stmts, errs, Ghost(wfc));
        },
    }
}

#[verifier::loop_isolation(false)]
fn eval_block(
    types: &Vec<DirectType>,
    decls: &Vec<FunctionDecl>,
    ret: &Type,
    in_loop: bool,
    vars: &mut Vec<Variable>,
    ss: &Vec<Statement>,
    errs: &mut Vec<TypeError>,
    Ghost(wfc): Ghost<WfCtx>,
)
    requires
        wfc.n_vars == old(vars)@.len() as int,
        wfc.n_types == types@.len() as int,
        wfc.n_funcs == decls@.len() as int,
        wf_tc(exec_tc(types@, decls@)),
        wf_vars(variables_view(old(vars)@), wfc.n_types),
        wf_stmts(stmts_view(ss@), wfc),
    ensures
        ({
            let (svars, serrs) = check_stmts(
                exec_tc(types@, decls@),
                type_view(*ret),
                in_loop,
                variables_view(old(vars)@),
                stmts_view(ss@),
            );
            &&& variables_view(final(vars)@) == svars
            &&& final(errs)@ == old(errs)@ + serrs
            &&& final(vars)@.len() == old(vars)@.len()
            &&& wf_vars(variables_view(final(vars)@), wfc.n_types)
        }),
    decreases *ss,
{
    let ghost c = exec_tc(types@, decls@);
    let ghost rv = type_view(*ret);
    let ghost full = stmts_view(ss@);
    let ghost vars0 = variables_view(vars@);
    let ghost errs0 = errs@;
    let ghost n = full.len() as int;
    proof {
        lemma_stmts_view(ss@);
        lemma_wf_stmts(full, wfc);
        assert(full.subrange(0, n) =~= full);
    }
    let mut i: usize = 0;
    while i < ss.len()
        invariant
            i <= ss@.len(),
            vars@.len() as int == wfc.n_vars,
            wf_vars(variables_view(vars@), wfc.n_types),
            ({
                let (sv, se) = check_stmts(
                    c,
                    rv,
                    in_loop,
                    variables_view(vars@),
                    full.subrange(i as int, n),
                );
                let (svf, sef) = check_stmts(c, rv, in_loop, vars0, full);
                &&& sv == svf
                &&& errs@ + se == errs0 + sef
            }),
        decreases ss@.len() - i,
    {
        let ghost resid = full.subrange(i as int, n);
        let ghost varsv_i = variables_view(vars@);
        let ghost errsv_i = errs@;
        proof {
            assert(resid[0] == full[i as int]);
            assert(resid.subrange(1, resid.len() as int) =~= full.subrange(i as int + 1, n));
            assert(wf_stmt(full[i as int], wfc));
            assert(decreases_to!(*ss => ss@[i as int]));
        }
        eval_stmt(types, decls, ret, in_loop, vars, &ss[i], errs, Ghost(wfc));
        i += 1;
        proof {
            let (v1, e1) = check_stmt(c, rv, in_loop, varsv_i, full[i as int - 1]);
            let (v2, e2) = check_stmts(c, rv, in_loop, v1, full.subrange(i as int, n));
            assert((errsv_i + e1) + e2 =~= errsv_i + (e1 + e2));
        }
    }
    proof {
        assert(full.subrange(n, n) =~= Seq::<StatementView>::empty());
        let (sv, se) = check_stmts(c, rv, in_loop, variables_view(vars@), full.subrange(n, n));
        assert(se =~= Seq::<TypeError>::empty());
        assert(errs@ + se =~= errs@);
    }
}

pub proof fn lemma_block_returns(ss: Seq<StatementView>)
    ensures
        block_returns(ss) <==> (exists|i: int| 0 <= i < ss.len() && stmt_returns(ss[i])),
    decreases ss.len(),
{
    if ss.len() > 0 {
        let tail = ss.subrange(1, ss.len() as int);
        lemma_block_returns(tail);
        if block_returns(ss) {
            if stmt_returns(ss[0]) {
                assert(0 <= 0 < ss.len() && stmt_returns(ss[0]));
            } else {
                let j = choose|j: int| 0 <= j < tail.len() && stmt_returns(tail[j]);
                assert(tail[j] == ss[j + 1]);
                assert(0 <= j + 1 < ss.len() && stmt_returns(ss[j + 1]));
            }
        }
        if exists|i: int| 0 <= i < ss.len() && stmt_returns(ss[i]) {
            let j = choose|j: int| 0 <= j < ss.len() && stmt_returns(ss[j]);
            if j > 0 {
                assert(tail[j - 1] == ss[j]);
            }
        }
    }
}

fn stmt_returns_exec(s: &Statement) -> (b: bool)
    ensures
        b == stmt_returns(s@),
    decreases *s,
{
    match s {
        Statement::Assign(_, e, _) => matches!(e, Expr::Return(_, _)),
        Statement::Do(e) => matches!(e, Expr::Return(_, _)),
        Statement::Block(b, _) => {
            proof {
                assert(decreases_to!(*s => *b));
                assert(decreases_to!(*b => b.stmts));
            }
            block_returns_exec(&b.stmts)
        },
        Statement::If { block, else_block, .. } => match else_block {
            Some(eb) => {
                proof {
                    assert(decreases_to!(*s => *block));
                    assert(decreases_to!(*block => block.stmts));
                    assert(decreases_to!(*s => *eb));
                    assert(decreases_to!(*eb => eb.stmts));
                }
                let b1 = block_returns_exec(&block.stmts);
                b1 && block_returns_exec(&eb.stmts)
            },
            None => false,
        },
        _ => false,
    }
}

#[verifier::loop_isolation(false)]
fn block_returns_exec(ss: &Vec<Statement>) -> (b: bool)
    ensures
        b == block_returns(stmts_view(ss@)),
    decreases *ss,
{
    let ghost full = stmts_view(ss@);
    proof {
        lemma_stmts_view(ss@);
        lemma_block_returns(full);
    }
    let mut i: usize = 0;
    while i < ss.len()
        invariant
            i <= ss@.len(),
            forall|j: int| 0 <= j < i ==> !stmt_returns(full[j]),
        decreases ss@.len() - i,
    {
        proof {
            assert(decreases_to!(*ss => ss@[i as int]));
        }
        if stmt_returns_exec(&ss[i]) {
            proof {
                assert(0 <= (i as int) < full.len() && stmt_returns(full[i as int]));
            }
            return true;
        }
        i += 1;
    }
    false
}

#[verifier::loop_isolation(false)]
fn eval_uninferred(vars: &Vec<Variable>, errs: &mut Vec<TypeError>)
    ensures
        final(errs)@ == old(errs)@ + uninferred_errors(variables_view(vars@)),
{
    let ghost varsv = variables_view(vars@);
    let ghost errs0 = errs@;
    let ghost n = varsv.len() as int;
    proof {
        assert(varsv.subrange(0, n) =~= varsv);
    }
    let mut i: usize = 0;
    while i < vars.len()
        invariant
            i <= vars@.len(),
            errs@ + uninferred_errors(varsv.subrange(i as int, n)) == errs0 + uninferred_errors(
                varsv,
            ),
        decreases vars@.len() - i,
    {
        let ghost resid = varsv.subrange(i as int, n);
        proof {
            assert(resid[0] == varsv[i as int]);
            assert(resid.subrange(1, resid.len() as int) =~= varsv.subrange(i as int + 1, n));
        }
        let ghost errsv_i = errs@;
        if matches!(vars[i].ty, Type::Undeclared) {
            let sp = vars[i].span;
            errs.push(TypeError::UninferredVariable(sp));
            proof {
                assert(errs@ =~= errsv_i + seq![TypeError::UninferredVariable(varsv[i as int].span)]);
            }
        }
        i += 1;
        proof {
            assert(errs@ + uninferred_errors(varsv.subrange(i as int, n)) =~= errs0
                + uninferred_errors(varsv));
        }
    }
    proof {
        assert(varsv.subrange(n, n) =~= Seq::<VariableView>::empty());
        assert(errs@ + uninferred_errors(varsv.subrange(n, n)) =~= errs@);
    }
}

fn eval_function(
    types: &Vec<DirectType>,
    decls: &Vec<FunctionDecl>,
    decl: &FunctionDecl,
    f: &mut Function,
    errs: &mut Vec<TypeError>,
    Ghost(n_lits): Ghost<int>,
)
    requires
        wf_tc(exec_tc(types@, decls@)),
        wf_vars(variables_view(old(f).variables@), types@.len() as int),
        wf_stmts(
            stmts_view(old(f).body.stmts@),
            WfCtx {
                n_vars: old(f).variables@.len() as int,
                n_lits: n_lits,
                n_types: types@.len() as int,
                n_funcs: decls@.len() as int,
            },
        ),
    ensures
        ({
            let (svars, serrs) = check_function(exec_tc(types@, decls@), old(f)@, decl@);
            &&& variables_view(final(f).variables@) == svars
            &&& stmts_view(final(f).body.stmts@) == stmts_view(old(f).body.stmts@)
            &&& final(errs)@ == old(errs)@ + serrs
        }),
{
    let ghost c = exec_tc(types@, decls@);
    let ghost wfc = WfCtx {
        n_vars: f.variables@.len() as int,
        n_lits: n_lits,
        n_types: types@.len() as int,
        n_funcs: decls@.len() as int,
    };
    let ghost fv = f@;
    let ghost errs0 = errs@;
    eval_block(types, decls, &decl.ret, false, &mut f.variables, &f.body.stmts, errs, Ghost(wfc));
    let ghost pair = check_stmts(c, type_view(decl.ret), false, fv.variables, fv.body);
    let ret_is_unit = matches!(decl.ret, Type::Unit);
    proof {
        assert(ret_is_unit == (decl@.ret is Unit));
    }
    if !ret_is_unit && !block_returns_exec(&f.body.stmts) {
        let sp = if f.body.stmts.len() > 0 {
            proof {
                lemma_stmts_view(f.body.stmts@);
            }
            let r = f.body.last_expr_span();
            proof {
                assert(stmts_view(f.body.stmts@).last() == fv.body.last());
            }
            r
        } else {
            decl.span
        };
        errs.push(TypeError::MissingReturnValue(sp));
        proof {
            assert(errs@ =~= errs0 + pair.1.push(TypeError::MissingReturnValue(sp)));
        }
    }
    let ghost errs2 = errs@.subrange(errs0.len() as int, errs@.len() as int);
    proof {
        assert(errs@ =~= errs0 + errs2);
    }
    eval_uninferred(&f.variables, errs);
    proof {
        assert(errs@ =~= errs0 + (errs2 + uninferred_errors(pair.0)));
    }
}

impl crate::program::Program {
    /// Run type resolution over every function of the program.  Variable
    /// types are resolved in place (best effort, whether or not errors were
    /// found); the returned list holds every `TypeError`, in program order.
    pub fn typecheck(&mut self) -> (errs: Vec<TypeError>)
        requires
            wf_program(old(self)@),
        ensures
            final(self)@ == (ProgramView {
                functions: checked_functions(old(self)@),
                ..old(self)@
            }),
            errs@ == check_all_errors(old(self)@, 0),
    {
        let ghost p0 = self@;
        let mut errs: Vec<TypeError> = Vec::new();
        let n = self.functions.len();
        proof {
            assert(errs@ + check_all_errors(p0, 0) =~= check_all_errors(p0, 0));
        }
        let mut i: usize = 0;
        while i < n
            invariant
                i <= n,
                n == p0.functions.len(),
                wf_program(p0),
                self.functions@.len() == n,
                direct_types_view(self.types@) == p0.types,
                decls_view(self.function_decls@) == p0.function_decls,
                names_view(self.function_names@) == p0.function_names,
                names_view(self.type_names@) == p0.type_names,
                crate::program::literals_view(self.literals@) == p0.literals,
                forall|j: int|
                    i <= j < n ==> crate::program::funcs_view(self.functions@)[j]
                        == p0.functions[j],
                forall|j: int|
                    0 <= j < i ==> crate::program::funcs_view(self.functions@)[j]
                        == checked_functions(p0)[j],
                errs@ + check_all_errors(p0, i as int) == check_all_errors(p0, 0),
            decreases n - i,
        {
            let ghost errsv_i = errs@;
            proof {
                assert(crate::program::funcs_view(self.functions@)[i as int] == p0.functions[
                    i as int
                ]);
                assert(wf_function(p0.functions[i as int], p0));
                assert(decls_view(self.function_decls@)[i as int] == decl_view(
                    self.function_decls@[i as int],
                ));
                assert(exec_tc(self.types@, self.function_decls@) == tc_ctx(p0));
            }
            let decl = &self.function_decls[i];
            let f = &mut self.functions[i];
            eval_function(
                &self.types,
                &self.function_decls,
                decl,
                f,
                &mut errs,
                Ghost(p0.literals.len() as int),
            );
            i += 1;
            proof {
                let (svars, serrs) = check_function(
                    tc_ctx(p0),
                    p0.functions[i as int - 1],
                    p0.function_decls[i as int - 1],
                );
                assert(crate::program::funcs_view(self.functions@) =~= crate::program::funcs_view(
                    self.functions@,
                ));
                assert forall|j: int|
                    0 <= j < i implies crate::program::funcs_view(self.functions@)[j]
                    == checked_functions(p0)[j] by {
                    if j < i - 1 {
                        assert(crate::program::funcs_view(self.functions@)[j]
                            == checked_functions(p0)[j]);
                    }
                }
                assert((errsv_i + serrs) + check_all_errors(p0, i as int) =~= errsv_i + (serrs
                    + check_all_errors(p0, i as int)));
            }
        }
        proof {
            assert(check_all_errors(p0, n as int) =~= Seq::<TypeError>::empty());
            assert(errs@ + check_all_errors(p0, n as int) =~= errs@);
            assert(crate::program::funcs_view(self.functions@) =~= checked_functions(p0));
            assert(self@ =~= ProgramView { functions: checked_functions(p0), ..p0 });
        }
        errs
    }
}

// ---------------------------------------------------------------------------
// Laws of type resolution.
// ---------------------------------------------------------------------------

/// Inference-once: a variable declared without a type and first assigned an
/// expression of type `t` has static type `t` thereafter; a second
/// assignment of an incompatible type `u` (`u != t`, `u` neither `Never`
/// nor the uninit marker) produces exactly one `TypeMismatch`, at the
/// second assignment's span, and leaves the inferred type standing.
pub proof fn lemma_inference_once(
    c: TcCtx,
    ret: TypeView,
    in_loop: bool,
    vars: Seq<VariableView>,
    v: Var,
    e1: ExprView,
    e2: ExprView,
    s1: Span,
    s2: Span,
    t: TypeView,
    u: TypeView,
)
    requires
        0 <= v.idx < vars.len(),
        vars[v.idx as int].ty is Undeclared,
        !(t is Undeclared),
        check_expr(c, ret, in_loop, vars, e1) == (Seq::<TypeError>::empty(), Some(t)),
        ({
            let vars1 = check_stmt(c, ret, in_loop, vars, StatementView::Assign(v, e1, s1)).0;
            check_expr(c, ret, in_loop, vars1, e2) == (Seq::<TypeError>::empty(), Some(u))
        }),
        u != t,
        !(u is Never),
        !(u is Uninit),
    ensures
        ({
            let (vars1, errs1) = check_stmt(
                c,
                ret,
                in_loop,
                vars,
                StatementView::Assign(v, e1, s1),
            );
            let (vars2, errs2) = check_stmt(
                c,
                ret,
                in_loop,
                vars1,
                StatementView::Assign(v, e2, s2),
            );
            &&& vars1[v.idx as int].ty == t
            &&& errs1 == Seq::<TypeError>::empty()
            &&& vars2 == vars1
            &&& errs2 == seq![TypeError::TypeMismatch(s2)]
        }),
{
    let (vars1, errs1) = check_stmt(c, ret, in_loop, vars, StatementView::Assign(v, e1, s1));
    let (vars2, errs2) = check_stmt(c, ret, in_loop, vars1, StatementView::Assign(v, e2, s2));
    assert(errs2 =~= seq![TypeError::TypeMismatch(s2)]);
}

/// Never unifies: an expression of type `Never` may be assigned to a
/// variable of any declared target type without adding any error.
pub proof fn lemma_never_assign(
    c: TcCtx,
    ret: TypeView,
    in_loop: bool,
    vars: Seq<VariableView>,
    v: Var,
    e: ExprView,
    span: Span,
)
    requires
        0 <= v.idx < vars.len(),
        !(vars[v.idx as int].ty is Undeclared),
        check_expr(c, ret, in_loop, vars, e).1 == Some(TypeView::Never),
    ensures
        ({
            let (vars2, errs2) = check_stmt(c, ret, in_loop, vars, StatementView::Assign(v, e, span));
            &&& vars2 == vars
            &&& errs2 == check_expr(c, ret, in_loop, vars, e).0
        }),
{
}

/// Pointer round trip: for a variable `x` of any type `t` — primitive or
/// compound — `AddressOf(x)` types to `Ptr(t)` with no error, and
/// dereferencing any operand of type `Ptr(t)` yields exactly `t` again.
pub proof fn lemma_pointer_round_trip(
    vars: Seq<VariableView>,
    x: Var,
    p: Value,
    t: TypeView,
    s1: Span,
    s2: Span,
)
    requires
        0 <= x.idx < vars.len(),
        vars[x.idx as int].ty == t,
        value_ty(vars, p) == TypeView::Ptr(Box::new(t)),
    ensures
        check_unary(vars, UnaryOp::AddressOf, Value::Var(x, s1), s1) == (
            Seq::<TypeError>::empty(),
            Some(TypeView::Ptr(Box::new(t))),
        ),
        check_unary(vars, UnaryOp::Deref, p, s2) == (Seq::<TypeError>::empty(), Some(t)),
{
}

/// Arity check: calling a function whose declaration has N parameters with
/// any other number of arguments yields exactly one `ArityMismatch`, at the
/// call's span.
pub proof fn lemma_arity_mismatch(
    c: TcCtx,
    ret: TypeView,
    in_loop: bool,
    vars: Seq<VariableView>,
    k: FuncKey,
    args: Seq<Value>,
    span: Span,
)
    requires
        0 <= k.idx < c.decls.len(),
        args.len() != c.decls[k.idx as int].params.len(),
    ensures
        check_expr(c, ret, in_loop, vars, ExprView::FuncCall(k, args, span)) == (
            seq![TypeError::ArityMismatch(span)],
            Some(c.decls[k.idx as int].ret),
        ),
{
}

/// Unknown field: assigning to a field name that the object's struct does
/// not declare yields exactly one `UnknownField` beyond the operand errors,
/// and mutates nothing — the variable types are unchanged (and `check_stmt`
/// never touches the type arena at all).
pub proof fn lemma_unknown_field(
    c: TcCtx,
    ret: TypeView,
    in_loop: bool,
    vars: Seq<VariableView>,
    object: ExprView,
    field: Seq<char>,
    value: ExprView,
    span: Span,
)
    requires
        check_expr(c, ret, in_loop, vars, object).1 is Some,
        struct_fields_of(c, check_expr(c, ret, in_loop, vars, object).1->0) is Some,
        spec_lookup(
            struct_fields_of(c, check_expr(c, ret, in_loop, vars, object).1->0)->0,
            field,
        ) is None,
    ensures
        ({
            let (vars2, errs2) = check_stmt(
                c,
                ret,
                in_loop,
                vars,
                StatementView::FieldAssign { object, field, value, span },
            );
            &&& vars2 == vars
            &&& errs2 == check_expr(c, ret, in_loop, vars, object).0 + check_expr(
                c,
                ret,
                in_loop,
                vars,
                value,
            ).0 + seq![TypeError::UnknownField(span)]
        }),
{
    let (vars2, errs2) = check_stmt(
        c,
        ret,
        in_loop,
        vars,
        StatementView::FieldAssign { object, field, value, span },
    );
    let e1 = check_expr(c, ret, in_loop, vars, object).0;
    let e2 = check_expr(c, ret, in_loop, vars, value).0;
    assert((e1 + e2).push(TypeError::UnknownField(span)) =~= e1 + e2 + seq![
        TypeError::UnknownField(span),
    ]);
}

// ---------------------------------------------------------------------------
// Deciding well-formedness, so that a caller outside verified code can
// establish `typecheck`'s precondition at run time.
// ---------------------------------------------------------------------------

#[verifier::loop_isolation(false)]
fn check_wf_type(t: &Type, n_types: usize) -> (b: bool)
    ensures
        b == wf_type(t@, n_types as int),
    decreases *t,
{
    match t {
        Type::Direct(k) => k.idx < n_types,
        Type::Primitive(_) => true,
        Type::Uninit => true,
        Type::Unit => true,
        Type::Never => true,
        Type::Undeclared => true,
        Type::Ptr(inner) => check_wf_type(&*inner, n_types),
        Type::Slice(inner) => check_wf_type(&*inner, n_types),
        Type::Array { ty, .. } => check_wf_type(&*ty, n_types),
        Type::Func { ret, params } => {
            proof {
                lemma_types_view(params@);
                lemma_wf_types(types_view(params@), n_types as int);
            }
            if !check_wf_type(&*ret, n_types) {
                false
            } else {
                let mut i: usize = 0;
                while i < params.len()
                    invariant
                        i <= params@.len(),
                        forall|j: int| 0 <= j < i ==> wf_type(type_view(params@[j]), n_types as int),
                    decreases params@.len() - i,
                {
                    proof {
                        assert(decreases_to!(*params => params@[i as int]));
                        assert(decreases_to!(*t => params@[i as int]));
                    }
                    if !check_wf_type(&params[i], n_types) {
                        proof {
                            assert(!wf_type(types_view(params@)[i as int], n_types as int));
                            assert(!wf_types(types_view(params@), n_types as int));
                        }
                        return false;
                    }
                    i += 1;
                }
                true
            }
        },
    }
}

#[verifier::loop_isolation(false)]
fn check_wf_fields(fields: &Vec<(String, Type)>, n_types: usize) -> (b: bool)
    ensures
        b == wf_fields(fields_view(fields@), n_types as int),
{
    proof {
        lemma_fields_view(fields@);
    }
    let mut i: usize = 0;
    while i < fields.len()
        invariant
            i <= fields@.len(),
            forall|j: int| 0 <= j < i ==> wf_type(type_view(fields@[j].1), n_types as int),
        decreases fields@.len() - i,
    {
        if !check_wf_type(&fields[i].1, n_types) {
            proof {
                assert(!wf_type(fields_view(fields@)[i as int].1, n_types as int));
            }
            return false;
        }
        i += 1;
    }
    true
}

fn check_wf_direct(d: &DirectType, n_types: usize) -> (b: bool)
    ensures
        b == wf_direct(d@, n_types as int),
{
    match d {
        DirectType::Struct { fields } => check_wf_fields(fields, n_types),
        DirectType::Union { variants } => check_wf_fields(variants, n_types),
        DirectType::Enum { .. } => true,
        DirectType::Type(t) => check_wf_type(t, n_types),
    }
}

fn check_wf_value(v: &Value, n_vars: usize, n_lits: usize, Ghost(wfc): Ghost<WfCtx>) -> (b: bool)
    requires
        wfc.n_vars == n_vars as int,
        wfc.n_lits == n_lits as int,
    ensures
        b == wf_value(*v, wfc),
{
    match v {
        Value::Var(k, _) => k.idx < n_vars,
        Value::Literal(k, _) => k.idx < n_lits,
        _ => true,
    }
}

#[verifier::loop_isolation(false)]
fn check_wf_expr(
    e: &Expr,
    n_vars: usize,
    n_lits: usize,
    n_types: usize,
    n_funcs: usize,
    Ghost(wfc): Ghost<WfCtx>,
) -> (b: bool)
    requires
        wfc.n_vars == n_vars as int,
        wfc.n_lits == n_lits as int,
        wfc.n_types == n_types as int,
        wfc.n_funcs == n_funcs as int,
    ensures
        b == wf_expr(e@, wfc),
{
    match e {
        Expr::Value(v) => check_wf_value(v, n_vars, n_lits, Ghost(wfc)),
        Expr::FieldAccess(v, _, _) => check_wf_value(v, n_vars, n_lits, Ghost(wfc)),
        Expr::PathAccess(k, _, _) => k.idx < n_types,
        Expr::FuncCall(k, args, span) => {
            proof {
                assert(e@ == ExprView::FuncCall(*k, args@, *span));
            }
            if k.idx >= n_funcs {
                return false;
            }
            let mut i: usize = 0;
            while i < args.len()
                invariant
                    i <= args@.len(),
                    forall|j: int| 0 <= j < i ==> wf_value(#[trigger] args@[j], wfc),
                decreases args@.len() - i,
            {
                if !check_wf_value(&args[i], n_vars, n_lits, Ghost(wfc)) {
                    proof {
                        assert(!wf_value(args@[i as int], wfc));
                        if wf_expr(e@, wfc) {
                            lemma_wf_call_arg(*k, args@, *span, wfc, i as int);
                        }
                        assert(!wf_expr(e@, wfc));
                    }
                    return false;
                }
                i += 1;
            }
            true
        },
        Expr::Return(vo, _) => match vo {
            Some(v) => check_wf_value(v, n_vars, n_lits, Ghost(wfc)),
            None => true,
        },
        Expr::Break(_) => true,
        Expr::Continue(_) => true,
        Expr::BinOp(l, _, r, _) => check_wf_value(l, n_vars, n_lits, Ghost(wfc))
            && check_wf_value(r, n_vars, n_lits, Ghost(wfc)),
        Expr::UnaryOp(_, v, _) => check_wf_value(v, n_vars, n_lits, Ghost(wfc)),
    }
}

#[verifier::loop_isolation(false)]
fn check_wf_stmt(
    s: &Statement,
    n_vars: usize,
    n_lits: usize,
    n_types: usize,
    n_funcs: usize,
    Ghost(wfc): Ghost<WfCtx>,
) -> (b: bool)
    requires
        wfc.n_vars == n_vars as int,
        wfc.n_lits == n_lits as int,
        wfc.n_types == n_types as int,
        wfc.n_funcs == n_funcs as int,
    ensures
        b == wf_stmt(s@, wfc),
    decreases *s,
{
    match s {
        Statement::Assign(v, e, _) => v.idx < n_vars && check_wf_expr(
            e,
            n_vars,
            n_lits,
            n_types,
            n_funcs,
            Ghost(wfc),
        ),
        Statement::DerefAssign(t, e, _) => check_wf_expr(
            t,
            n_vars,
            n_lits,
            n_types,
            n_funcs,
            Ghost(wfc),
        ) && check_wf_expr(e, n_vars, n_lits, n_types, n_funcs, Ghost(wfc)),
        Statement::FieldAssign { object, value, .. } => check_wf_expr(
            object,
            n_vars,
            n_lits,
            n_types,
            n_funcs,
            Ghost(wfc),
        ) && check_wf_expr(value, n_vars, n_lits, n_types, n_funcs, Ghost(wfc)),
        Statement::Do(e) => check_wf_expr(e, n_vars, n_lits, n_types, n_funcs, Ghost(wfc)),
        Statement::Block(b, _) => {
            proof {
                assert(decreases_to!(*s => *b));
                assert(decreases_to!(*b => b.stmts));
            }
            check_wf_block(&b.stmts, n_vars, n_lits, n_types, n_funcs, Ghost(wfc))
        },
        Statement::If { cond, block, else_block, .. } => {
            proof {
                assert(decreases_to!(*s => *block));
                assert(decreases_to!(*block => block.stmts));
            }
            if !check_wf_expr(cond, n_vars, n_lits, n_types, n_funcs, Ghost(wfc)) {
                return false;
            }
            if !check_wf_block(&block.stmts, n_vars, n_lits, n_types, n_funcs, Ghost(wfc)) {
                return false;
            }
            match else_block {
                Some(eb) => {
                    proof {
                        assert(decreases_to!(*s => *eb));
                        assert(decreases_to!(*eb => eb.stmts));
                    }
                    check_wf_block(&eb.stmts, n_vars, n_lits, n_types, n_funcs, Ghost(wfc))
                },
                None => true,
            }
        },
        Statement::Loop(b, _) => {
            proof {
                assert(decreases_to!(*s => *b));
                assert(decreases_to!(*b => b.stmts));
            }
            check_wf_block(&b.stmts, n_vars, n_lits, n_types, n_funcs, Ghost(wfc))
        },
    }
}

#[verifier::loop_isolation(false)]
fn check_wf_block(
    ss: &Vec<Statement>,
    n_vars: usize,
    n_lits: usize,
    n_types: usize,
    n_funcs: usize,
    Ghost(wfc): Ghost<WfCtx>,
) -> (b: bool)
    requires
        wfc.n_vars == n_vars as int,
        wfc.n_lits == n_lits as int,
        wfc.n_types == n_types as int,
        wfc.n_funcs == n_funcs as int,
    ensures
        b == wf_stmts(stmts_view(ss@), wfc),
    decreases *ss,
{
    proof {
        lemma_stmts_view(ss@);
        lemma_wf_stmts(stmts_view(ss@), wfc);
    }
    let mut i: usize = 0;
    while i < ss.len()
        invariant
            i <= ss@.len(),
            forall|j: int| 0 <= j < i ==> wf_stmt(stmts_view(ss@)[j], wfc),
        decreases ss@.len() - i,
    {
        proof {
            assert(decreases_to!(*ss => ss@[i as int]));
        }
        if !check_wf_stmt(&ss[i], n_vars, n_lits, n_types, n_funcs, Ghost(wfc)) {
            proof {
                assert(!wf_stmt(stmts_view(ss@)[i as int], wfc));
                assert(!wf_stmts(stmts_view(ss@), wfc));
            }
            return false;
        }
        i += 1;
    }
    true
}

#[verifier::loop_isolation(false)]
fn check_wf_decl(d: &FunctionDecl, n_types: usize) -> (b: bool)
    ensures
        b == wf_decl(d@, n_types as int),
{
    if !check_wf_type(&d.ret, n_types) {
        return false;
    }
    let mut i: usize = 0;
    while i < d.params.len()
        invariant
            i <= d.params@.len(),
            forall|j: int|
                0 <= j < i ==> wf_type(#[trigger] params_view(d.params@)[j].ty, n_types as int),
        decreases d.params@.len() - i,
    {
        if !check_wf_type(&d.params[i].ty, n_types) {
            proof {
                assert(!wf_type(params_view(d.params@)[i as int].ty, n_types as int));
            }
            return false;
        }
        i += 1;
    }
    true
}

impl crate::program::Program {
    /// Decide well-formedness of the whole program: parallel function and
    /// declaration arenas, and every stored key pointing into its arena.
    /// Lowered programs satisfy this; the check lets any caller establish
    /// it before running type resolution.
    #[verifier::loop_isolation(false)]
    pub fn check_wf(&self) -> (b: bool)
        ensures
            b == wf_program(self@),
    {
        let ghost p = self@;
        if self.functions.len() != self.function_decls.len() {
            return false;
        }
        let n_types = self.types.len();
        let n_funcs = self.function_decls.len();
        let n_lits = self.literals.len();
        let mut i: usize = 0;
        while i < self.types.len()
            invariant
                i <= p.types.len(),
                forall|j: int| 0 <= j < i ==> wf_direct(p.types[j], p.types.len() as int),
            decreases p.types.len() - i,
        {
            if !check_wf_direct(&self.types[i], n_types) {
                proof {
                    assert(p.types[i as int] == direct_type_view(self.types@[i as int]));
                    if wf_program(p) {
                        assert(wf_direct(p.types[i as int], p.types.len() as int));
                    }
                }
                return false;
            }
            i += 1;
        }
        let mut i: usize = 0;
        while i < self.function_decls.len()
            invariant
                i <= p.function_decls.len(),
                forall|j: int|
                    0 <= j < i ==> wf_decl(p.function_decls[j], p.types.len() as int),
            decreases p.function_decls.len() - i,
        {
            if !check_wf_decl(&self.function_decls[i], n_types) {
                proof {
                    assert(p.function_decls[i as int] == decl_view(self.function_decls@[i as int]));
                    if wf_program(p) {
                        assert(wf_decl(p.function_decls[i as int], p.types.len() as int));
                    }
                }
                return false;
            }
            i += 1;
        }
        let mut i: usize = 0;
        while i < self.functions.len()
            invariant
                i <= p.functions.len(),
                forall|j: int| 0 <= j < i ==> wf_function(p.functions[j], p),
            decreases p.functions.len() - i,
        {
            let f = &self.functions[i];
            let n_vars = f.variables.len();
            let ghost wfc = WfCtx {
                n_vars: n_vars as int,
                n_lits: n_lits as int,
                n_types: n_types as int,
                n_funcs: n_funcs as int,
            };
            let mut vi: usize = 0;
            while vi < f.variables.len()
                invariant
                    vi <= f.variables@.len(),
                    forall|j: int|
                        0 <= j < vi ==> wf_type(
                            #[trigger] variables_view(f.variables@)[j].ty,
                            p.types.len() as int,
                        ),
                decreases f.variables@.len() - vi,
            {
                if !check_wf_type(&f.variables[vi].ty, n_types) {
                    proof {
                        assert(!wf_type(
                            variables_view(f.variables@)[vi as int].ty,
                            p.types.len() as int,
                        ));
                        assert(p.functions[i as int] == function_view(self.functions@[i as int]));
                        assert(!wf_vars(
                            p.functions[i as int].variables,
                            p.types.len() as int,
                        ));
                        assert(!wf_function(p.functions[i as int], p));
                    }
                    return false;
                }
                vi += 1;
            }
            if !check_wf_block(&f.body.stmts, n_vars, n_lits, n_types, n_funcs, Ghost(wfc)) {
                proof {
                    assert(p.functions[i as int] == function_view(self.functions@[i as int]));
                    assert(wfc == WfCtx {
                        n_vars: p.functions[i as int].variables.len() as int,
                        n_lits: p.literals.len() as int,
                        n_types: p.types.len() as int,
                        n_funcs: p.function_decls.len() as int,
                    });
                    assert(!wf_function(p.functions[i as int], p));
                }
                return false;
            }
            proof {
                assert(wf_function(p.functions[i as int], p));
            }
            i += 1;
        }
        let mut i: usize = 0;
        while i < self.type_names.len()
            invariant
                i <= p.type_names.len(),
                forall|j: int| 0 <= j < i ==> (#[trigger] p.type_names[j]).1.idx < p.types.len(),
            decreases p.type_names.len() - i,
        {
            if self.type_names[i].1.idx >= n_types {
                proof {
                    assert(p.type_names[i as int].1 == self.type_names@[i as int].1);
                    assert(!wf_program(p));
                }
                return false;
            }
            i += 1;
        }
        let mut i: usize = 0;
        while i < self.function_names.len()
            invariant
                i <= p.function_names.len(),
                forall|j: int|
                    0 <= j < i ==> (#[trigger] p.function_names[j]).1.idx < p.functions.len(),
            decreases p.function_names.len() - i,
        {
            if self.function_names[i].1.idx >= self.functions.len() {
                proof {
                    assert(p.function_names[i as int].1 == self.function_names@[i as int].1);
                    assert(!wf_program(p));
                }
                return false;
            }
            i += 1;
        }
        true
    }
}

} // verus!
