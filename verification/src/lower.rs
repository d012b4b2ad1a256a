//! Lowering: translate the external syntax tree into the `Program` IR,
//! resolving every textual name to an arena key.
//!
//! The top level is two-pass: first every type and function name is
//! registered, so mutual and forward references resolve regardless of
//! declaration order; then definitions, signatures and bodies are filled
//! in.  Errors are collected per item and do not stop the pass; lowering as
//! a whole fails iff any error was recorded.

use vstd::prelude::*;

use crate::ast::AstArg;
use crate::ast::AstBlock;
use crate::ast::AstExpr;
use crate::ast::AstItem;
use crate::ast::AstParam;
use crate::ast::AstProgram;
use crate::ast::AstStmt;
use crate::ast::AstType;
use crate::ast::AstValue;
use crate::ir::Block;
use crate::ir::DirectType;
use crate::ir::Expr;
use crate::ir::FuncKey;
use crate::ir::Function;
use crate::ir::FunctionDecl;
use crate::ir::LoweringError;
use crate::ir::Param;
use crate::ir::Statement;
use crate::ir::Type;
use crate::ir::Value;
use crate::ir::Var;
use crate::ir::Variable;
use crate::ir::type_view;
use crate::ir::direct_type_view;
use crate::ir::decl_view;
use crate::ir::variables_view;
use crate::ir::stmts_view;
use crate::ir::stmt_view;
use crate::ir::lemma_stmts_view;
use crate::ir::types_view;
use crate::ir::fields_view;
use crate::ir::params_view;
use crate::ir::lemma_types_view;
use crate::ir::lemma_fields_view;
use crate::program::Program;
use crate::program::ProgramView;
use crate::program::lookup_name;
use crate::program::lemma_lookup_found;
use crate::typecheck::wf_type;
use crate::typecheck::wf_value;
use crate::typecheck::wf_expr;
use crate::typecheck::WfCtx;
use crate::typecheck::lemma_wf_value_grow;
use crate::typecheck::lemma_wf_expr_grow;
use crate::typecheck::wf_fields;
use crate::typecheck::lemma_wf_types;
use crate::typecheck::wf_program;
use crate::typecheck::wf_direct;
use crate::typecheck::wf_decl;
use crate::typecheck::wf_function;
use crate::typecheck::lemma_wf_direct_grow;
use crate::typecheck::lemma_wf_decl_grow;
use crate::ir::DirectTypeView;
use crate::ir::TypeView;
use crate::ir::ExprView;
use crate::ir::StatementView;
use crate::ir::VariableView;
use crate::ir::ParamView;
use crate::ir::TypeKey;
use crate::ir::LiteralKey;
use crate::ir::FunctionView;
use crate::ir::Span;
use crate::program::names_view;
use crate::program::spec_lookup;
use crate::ir::FunctionDeclView;
use crate::program::declares_type;
use crate::program::declares_function;
use crate::typecheck::wf_vars;
use crate::typecheck::wf_stmt;
use crate::typecheck::wf_stmts;

verus! {

/// The name-to-variable scope stack of one function body: one inner vector
/// per open block, innermost last; later entries of a scope shadow earlier
/// ones.
type Scopes = Vec<Vec<(String, Var)>>;

/// The name tables point into their arenas, and the function and
/// declaration arenas are parallel.
pub open spec fn tables_ok(p: ProgramView) -> bool {
    &&& p.functions.len() == p.function_decls.len()
    &&& forall|i: int|
        0 <= i < p.type_names.len() ==> (#[trigger] p.type_names[i]).1.idx < p.types.len()
    &&& forall|i: int|
        0 <= i < p.function_names.len() ==> (#[trigger] p.function_names[i]).1.idx
            < p.functions.len()
}

/// Every variable key on the scope stack points into the variable arena.
pub open spec fn scopes_ok(ss: Seq<Vec<(String, Var)>>, n_vars: int) -> bool {
    forall|i: int, j: int|
        0 <= i < ss.len() && 0 <= j < ss[i]@.len() ==> (#[trigger] ss[i]@[j]).1.idx < n_vars
}

// ---------------------------------------------------------------------------
// The meaning of lowering: spec functions that fix, for every syntax tree,
// exactly which program comes out and exactly which errors are recorded.
// `Program::lower` is proved to return precisely this.
// ---------------------------------------------------------------------------

/// The fixed context of body lowering: the name tables and declarations,
/// complete after the first two passes.
pub ghost struct LowerCtx {
    pub type_names: Seq<(Seq<char>, TypeKey)>,
    pub function_names: Seq<(Seq<char>, FuncKey)>,
    pub function_decls: Seq<FunctionDeclView>,
}

/// The mutable state of body lowering: the literal arena, the variable
/// arena of the function at hand, and the scope stack.
pub ghost struct LowerSt {
    pub literals: Seq<Seq<char>>,
    pub vars: Seq<VariableView>,
    pub scopes: Seq<Seq<(Seq<char>, Var)>>,
}

pub open spec fn scopes_view(ss: Seq<Vec<(String, Var)>>) -> Seq<Seq<(Seq<char>, Var)>> {
    Seq::new(ss.len(), |i: int| names_view(ss[i]@))
}

/// Name resolution within one scope: the latest declaration wins.
pub open spec fn scope_find(s: Seq<(Seq<char>, Var)>, name: Seq<char>) -> Option<Var>
    decreases s.len(),
{
    if s.len() == 0 {
        None
    } else if s.last().0 == name {
        Some(s.last().1)
    } else {
        scope_find(s.drop_last(), name)
    }
}

/// Name resolution against the scope stack: innermost scope first.
pub open spec fn scopes_find(ss: Seq<Seq<(Seq<char>, Var)>>, name: Seq<char>) -> Option<Var>
    decreases ss.len(),
{
    if ss.len() == 0 {
        None
    } else {
        match scope_find(ss.last(), name) {
            Some(k) => Some(k),
            None => scopes_find(ss.drop_last(), name),
        }
    }
}

/// What `lower_type` yields: the resolved type, or `None` with one
/// `UnknownType` per name that the table does not hold, in syntactic order.
pub open spec fn spec_lower_type(table: Seq<(Seq<char>, TypeKey)>, at: AstType) -> (
    Seq<LoweringError>,
    Option<TypeView>,
)
    decreases at,
{
    match at {
        AstType::Primitive(prim) => (Seq::<LoweringError>::empty(), Some(TypeView::Primitive(prim))),
        AstType::Named(name, span) => match spec_lookup(table, name@) {
            Some(k) => (Seq::<LoweringError>::empty(), Some(TypeView::Direct(k))),
            None => (seq![LoweringError::UnknownType(span)], None::<TypeView>),
        },
        AstType::Unit => (Seq::<LoweringError>::empty(), Some(TypeView::Unit)),
        AstType::Ptr(inner) => {
            let (e, t) = spec_lower_type(table, *inner);
            (
                e,
                match t {
                    Some(t) => Some(TypeView::Ptr(Box::new(t))),
                    None => None::<TypeView>,
                },
            )
        },
        AstType::Slice(inner) => {
            let (e, t) = spec_lower_type(table, *inner);
            (
                e,
                match t {
                    Some(t) => Some(TypeView::Slice(Box::new(t))),
                    None => None::<TypeView>,
                },
            )
        },
        AstType::Array { ty, len } => {
            let (e, t) = spec_lower_type(table, *ty);
            (
                e,
                match t {
                    Some(t) => Some(TypeView::Array { ty: Box::new(t), len }),
                    None => None::<TypeView>,
                },
            )
        },
        AstType::Func { ret, params } => {
            let (e0, rt) = spec_lower_type(table, *ret);
            let (e1, ps) = spec_lower_type_list(table, params@);
            (
                e0 + e1,
                match (rt, ps) {
                    (Some(rt), Some(ps)) => Some(TypeView::Func { ret: Box::new(rt), params: ps }),
                    _ => None::<TypeView>,
                },
            )
        },
    }
}

pub open spec fn spec_lower_type_list(table: Seq<(Seq<char>, TypeKey)>, s: Seq<AstType>) -> (
    Seq<LoweringError>,
    Option<Seq<TypeView>>,
)
    decreases s,
{
    if s.len() == 0 {
        (Seq::<LoweringError>::empty(), Some(Seq::<TypeView>::empty()))
    } else {
        let (e0, t0) = spec_lower_type(table, s[0]);
        let (e1, rest) = spec_lower_type_list(table, s.subrange(1, s.len() as int));
        (
            e0 + e1,
            match (t0, rest) {
                (Some(t0), Some(rest)) => Some(seq![t0] + rest),
                _ => None::<Seq<TypeView>>,
            },
        )
    }
}

/// What `lower_value` yields: literals are interned under the next key;
/// an unresolved name is one `UnknownVariable`.
pub open spec fn spec_lower_value(
    lits: Seq<Seq<char>>,
    scopes: Seq<Seq<(Seq<char>, Var)>>,
    v: AstValue,
) -> (Seq<Seq<char>>, Seq<LoweringError>, Option<Value>) {
    match v {
        AstValue::Name(n, sp) => match scopes_find(scopes, n@) {
            Some(k) => (lits, Seq::<LoweringError>::empty(), Some(Value::Var(k, sp))),
            None => (lits, seq![LoweringError::UnknownVariable(sp)], None::<Value>),
        },
        AstValue::Num(x, sp) => (lits, Seq::<LoweringError>::empty(), Some(Value::Num(x, sp))),
        AstValue::Str(s, sp) => (
            lits.push(s@),
            Seq::<LoweringError>::empty(),
            Some(Value::Literal(LiteralKey { idx: lits.len() as usize }, sp)),
        ),
        AstValue::Uninit(sp) => (lits, Seq::<LoweringError>::empty(), Some(Value::Uninit(sp))),
        AstValue::Unit(sp) => (lits, Seq::<LoweringError>::empty(), Some(Value::Unit(sp))),
    }
}

/// The first argument, if any, written with the given outward name.
pub open spec fn first_named(args: Seq<(Option<Seq<char>>, Value)>, name: Seq<char>) -> Option<
    int,
> {
    if exists|i: int| 0 <= i < args.len() && is_first_named(args, name, i) {
        Some(choose|i: int| 0 <= i < args.len() && is_first_named(args, name, i))
    } else {
        None::<int>
    }
}

pub open spec fn is_first_named(
    args: Seq<(Option<Seq<char>>, Value)>,
    name: Seq<char>,
    i: int,
) -> bool {
    &&& 0 <= i < args.len()
    &&& args[i].0 == Some(name)
    &&& forall|j: int| 0 <= j < i ==> (#[trigger] args[j]).0 != Some(name)
}

/// The first argument, if any, written without a name.
pub open spec fn first_positional(args: Seq<(Option<Seq<char>>, Value)>) -> Option<int> {
    if exists|i: int| 0 <= i < args.len() && is_first_positional(args, i) {
        Some(choose|i: int| 0 <= i < args.len() && is_first_positional(args, i))
    } else {
        None::<int>
    }
}

pub open spec fn is_first_positional(args: Seq<(Option<Seq<char>>, Value)>, i: int) -> bool {
    &&& 0 <= i < args.len()
    &&& args[i].0 is None
    &&& forall|j: int| 0 <= j < i ==> (#[trigger] args[j]).0 is Some
}

pub open spec fn values_of(args: Seq<(Option<Seq<char>>, Value)>) -> Seq<Value> {
    Seq::new(args.len(), |i: int| args[i].1)
}

/// Binding of call-site arguments to the declared parameter order: each
/// parameter takes the first remaining argument naming its outward name,
/// else the first remaining positional argument; arguments left over are
/// appended in written order, for the arity check to see.
pub open spec fn spec_bind(
    params: Seq<ParamView>,
    args: Seq<(Option<Seq<char>>, Value)>,
) -> Seq<Value>
    decreases params.len(),
{
    if params.len() == 0 {
        values_of(args)
    } else {
        let named = match params[0].outward_name {
            Some(n) => first_named(args, n),
            None => None::<int>,
        };
        let pick = if named is Some {
            named
        } else {
            first_positional(args)
        };
        match pick {
            Some(i) => seq![args[i].1] + spec_bind(
                params.subrange(1, params.len() as int),
                args.remove(i),
            ),
            None => spec_bind(params.subrange(1, params.len() as int), args),
        }
    }
}

pub open spec fn args_view(s: Seq<(Option<String>, Value)>) -> Seq<(Option<Seq<char>>, Value)> {
    Seq::new(
        s.len(),
        |i: int|
            (
                match s[i].0 {
                    Some(n) => Some(n@),
                    None => None::<Seq<char>>,
                },
                s[i].1,
            ),
    )
}

/// What `lower_expr` yields: the lowered expression, the errors in
/// evaluation order, and the literal arena extended by the interned
/// strings.
pub open spec fn spec_lower_expr(
    c: LowerCtx,
    lits: Seq<Seq<char>>,
    scopes: Seq<Seq<(Seq<char>, Var)>>,
    e: AstExpr,
) -> (Seq<Seq<char>>, Seq<LoweringError>, Option<ExprView>) {
    match e {
        AstExpr::Value(v) => {
            let (l1, e1, r) = spec_lower_value(lits, scopes, v);
            (
                l1,
                e1,
                match r {
                    Some(v2) => Some(ExprView::Value(v2)),
                    None => None::<ExprView>,
                },
            )
        },
        AstExpr::FieldAccess(v, field, span) => {
            let (l1, e1, r) = spec_lower_value(lits, scopes, v);
            (
                l1,
                e1,
                match r {
                    Some(v2) => Some(ExprView::FieldAccess(v2, field@, span)),
                    None => None::<ExprView>,
                },
            )
        },
        AstExpr::PathAccess(tyname, member, span) => match spec_lookup(c.type_names, tyname@) {
            Some(k) => (
                lits,
                Seq::<LoweringError>::empty(),
                Some(ExprView::PathAccess(k, member@, span)),
            ),
            None => (lits, seq![LoweringError::UnknownType(span)], None::<ExprView>),
        },
        AstExpr::Call(fname, args, span) => match spec_lookup(c.function_names, fname@) {
            None => (lits, seq![LoweringError::UnknownFunction(span)], None::<ExprView>),
            Some(k) => {
                let (l1, e1, largs) = spec_lower_arg_list(lits, scopes, args@);
                match largs {
                    None => (l1, e1, None::<ExprView>),
                    Some(la) => {
                        let params = if k.idx < c.function_decls.len() {
                            c.function_decls[k.idx as int].params
                        } else {
                            Seq::<ParamView>::empty()
                        };
                        (l1, e1, Some(ExprView::FuncCall(k, spec_bind(params, la), span)))
                    },
                }
            },
        },
        AstExpr::Return(vo, span) => match vo {
            Some(v) => {
                let (l1, e1, r) = spec_lower_value(lits, scopes, v);
                (
                    l1,
                    e1,
                    match r {
                        Some(v2) => Some(ExprView::Return(Some(v2), span)),
                        None => None::<ExprView>,
                    },
                )
            },
            None => (lits, Seq::<LoweringError>::empty(), Some(ExprView::Return(None, span))),
        },
        AstExpr::Break(span) => (lits, Seq::<LoweringError>::empty(), Some(ExprView::Break(span))),
        AstExpr::Continue(span) => (
            lits,
            Seq::<LoweringError>::empty(),
            Some(ExprView::Continue(span)),
        ),
        AstExpr::BinOp(l, op, r2, span) => {
            let (l1, e1, lv) = spec_lower_value(lits, scopes, l);
            let (l2, e2, rv) = spec_lower_value(l1, scopes, r2);
            (
                l2,
                e1 + e2,
                match (lv, rv) {
                    (Some(lv), Some(rv)) => Some(ExprView::BinOp(lv, op, rv, span)),
                    _ => None::<ExprView>,
                },
            )
        },
        AstExpr::UnaryOp(op, v, span) => {
            let (l1, e1, r) = spec_lower_value(lits, scopes, v);
            (
                l1,
                e1,
                match r {
                    Some(v2) => Some(ExprView::UnaryOp(op, v2, span)),
                    None => None::<ExprView>,
                },
            )
        },
    }
}

/// Arguments of a call, lowered in written order; all are processed so all
/// errors surface, and the list is `None` if any failed.
pub open spec fn spec_lower_arg_list(
    lits: Seq<Seq<char>>,
    scopes: Seq<Seq<(Seq<char>, Var)>>,
    args: Seq<AstArg>,
) -> (Seq<Seq<char>>, Seq<LoweringError>, Option<Seq<(Option<Seq<char>>, Value)>>)
    decreases args.len(),
{
    if args.len() == 0 {
        (
            lits,
            Seq::<LoweringError>::empty(),
            Some(Seq::<(Option<Seq<char>>, Value)>::empty()),
        )
    } else {
        let (l1, e1, v) = spec_lower_value(lits, scopes, args[0].value);
        let (l2, e2, rest) = spec_lower_arg_list(l1, scopes, args.subrange(1, args.len() as int));
        (
            l2,
            e1 + e2,
            match (v, rest) {
                (Some(v), Some(rest)) => Some(
                    seq![
                        (
                            match args[0].name {
                                Some(n) => Some(n@),
                                None => None::<Seq<char>>,
                            },
                            v,
                        ),
                    ] + rest,
                ),
                _ => None::<Seq<(Option<Seq<char>>, Value)>>,
            },
        )
    }
}

/// What `lower_stmt` yields: the updated state, the errors in evaluation
/// order, and the statement, or `None` when a part of it failed to resolve
/// (the statement is then dropped).
pub open spec fn spec_lower_stmt(c: LowerCtx, st: LowerSt, s: AstStmt) -> (
    LowerSt,
    Seq<LoweringError>,
    Option<StatementView>,
)
    decreases s,
{
    match s {
        AstStmt::Declare { name, ty, value, span } => {
            let (ety, vty) = match ty {
                Some(at) => {
                    let (e, t) = spec_lower_type(c.type_names, at);
                    (
                        e,
                        match t {
                            Some(t) => t,
                            None => TypeView::Undeclared,
                        },
                    )
                },
                None => (Seq::<LoweringError>::empty(), TypeView::Undeclared),
            };
            let key = Var { idx: st.vars.len() as usize };
            let vars1 = st.vars.push(VariableView { ty: vty, span });
            let scopes1 = if st.scopes.len() > 0 {
                st.scopes.update(
                    st.scopes.len() - 1,
                    st.scopes.last().push((name@, key)),
                )
            } else {
                st.scopes
            };
            let st1 = LowerSt { vars: vars1, scopes: scopes1, ..st };
            let (l2, e2, r) = spec_lower_expr(c, st1.literals, st1.scopes, value);
            let st2 = LowerSt { literals: l2, ..st1 };
            (
                st2,
                ety + e2,
                match r {
                    Some(e) => Some(StatementView::Assign(key, e, span)),
                    None => None::<StatementView>,
                },
            )
        },
        AstStmt::Assign { name, value, span } => match scopes_find(st.scopes, name@) {
            None => (st, seq![LoweringError::UnknownVariable(span)], None::<StatementView>),
            Some(key) => {
                let (l2, e2, r) = spec_lower_expr(c, st.literals, st.scopes, value);
                (
                    LowerSt { literals: l2, ..st },
                    e2,
                    match r {
                        Some(e) => Some(StatementView::Assign(key, e, span)),
                        None => None::<StatementView>,
                    },
                )
            },
        },
        AstStmt::DerefAssign { target, value, span } => {
            let (l1, e1, t) = spec_lower_expr(c, st.literals, st.scopes, target);
            let (l2, e2, v) = spec_lower_expr(c, l1, st.scopes, value);
            (
                LowerSt { literals: l2, ..st },
                e1 + e2,
                match (t, v) {
                    (Some(t2), Some(v2)) => Some(StatementView::DerefAssign(t2, v2, span)),
                    _ => None::<StatementView>,
                },
            )
        },
        AstStmt::FieldAssign { object, field, value, span } => {
            let (l1, e1, o) = spec_lower_expr(c, st.literals, st.scopes, object);
            let (l2, e2, v) = spec_lower_expr(c, l1, st.scopes, value);
            (
                LowerSt { literals: l2, ..st },
                e1 + e2,
                match (o, v) {
                    (Some(o2), Some(v2)) => Some(
                        StatementView::FieldAssign { object: o2, field: field@, value: v2, span },
                    ),
                    _ => None::<StatementView>,
                },
            )
        },
        AstStmt::Do { expr } => {
            let (l1, e1, r) = spec_lower_expr(c, st.literals, st.scopes, expr);
            (
                LowerSt { literals: l1, ..st },
                e1,
                match r {
                    Some(e) => Some(StatementView::Do(e)),
                    None => None::<StatementView>,
                },
            )
        },
        AstStmt::Block { block, span } => {
            let (st1, e1, ss) = spec_lower_stmts(
                c,
                LowerSt { scopes: st.scopes.push(Seq::empty()), ..st },
                block.stmts@,
            );
            (
                LowerSt { scopes: st1.scopes.drop_last(), ..st1 },
                e1,
                Some(StatementView::Block(ss, span)),
            )
        },
        AstStmt::If { cond, block, else_block, span } => {
            let (l1, e1, cr) = spec_lower_expr(c, st.literals, st.scopes, cond);
            let (st2, e2, ss) = spec_lower_stmts(
                c,
                LowerSt { literals: l1, scopes: st.scopes.push(Seq::empty()), ..st },
                block.stmts@,
            );
            let st2p = LowerSt { scopes: st2.scopes.drop_last(), ..st2 };
            let (st3, e3, eb) = match else_block {
                Some(ebb) => {
                    let (st3, e3, ss2) = spec_lower_stmts(
                        c,
                        LowerSt { scopes: st2p.scopes.push(Seq::empty()), ..st2p },
                        ebb.stmts@,
                    );
                    (
                        LowerSt { scopes: st3.scopes.drop_last(), ..st3 },
                        e3,
                        Some(ss2),
                    )
                },
                None => (st2p, Seq::<LoweringError>::empty(), None::<Seq<StatementView>>),
            };
            (
                st3,
                e1 + e2 + e3,
                match cr {
                    Some(c2) => Some(
                        StatementView::If { cond: c2, block: ss, else_block: eb, span },
                    ),
                    None => None::<StatementView>,
                },
            )
        },
        AstStmt::Loop { block, span } => {
            let (st1, e1, ss) = spec_lower_stmts(
                c,
                LowerSt { scopes: st.scopes.push(Seq::empty()), ..st },
                block.stmts@,
            );
            (
                LowerSt { scopes: st1.scopes.drop_last(), ..st1 },
                e1,
                Some(StatementView::Loop(ss, span)),
            )
        },
    }
}

pub open spec fn spec_lower_stmts(c: LowerCtx, st: LowerSt, ss: Seq<AstStmt>) -> (
    LowerSt,
    Seq<LoweringError>,
    Seq<StatementView>,
)
    decreases ss,
{
    if ss.len() == 0 {
        (st, Seq::<LoweringError>::empty(), Seq::<StatementView>::empty())
    } else {
        let (st1, e1, r) = spec_lower_stmt(c, st, ss[0]);
        let (st2, e2, rest) = spec_lower_stmts(c, st1, ss.subrange(1, ss.len() as int));
        (
            st2,
            e1 + e2,
            match r {
                Some(s2) => seq![s2] + rest,
                None => rest,
            },
        )
    }
}

/// What `lower_block` yields: a fresh scope around the statements.
pub open spec fn spec_lower_block(c: LowerCtx, st: LowerSt, b: AstBlock) -> (
    LowerSt,
    Seq<LoweringError>,
    Seq<StatementView>,
) {
    let (st1, e1, ss) = spec_lower_stmts(
        c,
        LowerSt { scopes: st.scopes.push(Seq::empty()), ..st },
        b.stmts@,
    );
    (LowerSt { scopes: st1.scopes.drop_last(), ..st1 }, e1, ss)
}

pub open spec fn empty_program() -> ProgramView {
    ProgramView {
        functions: Seq::empty(),
        function_decls: Seq::empty(),
        function_names: Seq::empty(),
        types: Seq::empty(),
        type_names: Seq::empty(),
        literals: Seq::empty(),
    }
}

/// First pass, one item: a type-like item registers its name with a
/// placeholder definition, a function item its name with a placeholder
/// declaration and an empty body; a taken name yields the one duplicate
/// error and leaves the store unchanged.
pub open spec fn spec_register_item(p: ProgramView, it: AstItem) -> (
    ProgramView,
    Seq<LoweringError>,
    Option<TypeKey>,
    Option<FuncKey>,
) {
    match it {
        AstItem::Function { name, span, .. } => {
            if spec_lookup(p.function_names, name@) is Some {
                (
                    p,
                    seq![LoweringError::DuplicateFunction(span)],
                    None::<TypeKey>,
                    None::<FuncKey>,
                )
            } else {
                let k = FuncKey { idx: p.functions.len() as usize };
                (
                    ProgramView {
                        functions: p.functions.push(
                            FunctionView { variables: Seq::empty(), body: Seq::empty() },
                        ),
                        function_decls: p.function_decls.push(
                            FunctionDeclView { ret: TypeView::Unit, params: Seq::empty(), span },
                        ),
                        function_names: p.function_names.push((name@, k)),
                        ..p
                    },
                    Seq::<LoweringError>::empty(),
                    None::<TypeKey>,
                    Some(k),
                )
            }
        },
        AstItem::Struct { name, span, .. } | AstItem::Union { name, span, .. }
        | AstItem::Enum { name, span, .. } | AstItem::Alias { name, span, .. } => {
            if spec_lookup(p.type_names, name@) is Some {
                (p, seq![LoweringError::DuplicateType(span)], None::<TypeKey>, None::<FuncKey>)
            } else {
                let k = TypeKey { idx: p.types.len() as usize };
                (
                    ProgramView {
                        types: p.types.push(DirectTypeView::Type(TypeView::Undeclared)),
                        type_names: p.type_names.push((name@, k)),
                        ..p
                    },
                    Seq::<LoweringError>::empty(),
                    Some(k),
                    None::<FuncKey>,
                )
            }
        },
    }
}

/// First pass from item `i` on: names registered in declaration order,
/// duplicate errors in the same order, and the key (or none) each item got.
pub open spec fn spec_register(p: ProgramView, items: Seq<AstItem>, i: int) -> (
    ProgramView,
    Seq<LoweringError>,
    Seq<Option<TypeKey>>,
    Seq<Option<FuncKey>>,
)
    decreases items.len() - i,
{
    if i < 0 || i >= items.len() {
        (
            p,
            Seq::<LoweringError>::empty(),
            Seq::<Option<TypeKey>>::empty(),
            Seq::<Option<FuncKey>>::empty(),
        )
    } else {
        let (p1, e1, tk, fk) = spec_register_item(p, items[i]);
        let (p2, e2, tks, fks) = spec_register(p1, items, i + 1);
        (p2, e1 + e2, seq![tk] + tks, seq![fk] + fks)
    }
}

/// The `(name, type)` list of a struct or union, resolved; a field whose
/// type fails keeps its place with an `Undeclared` placeholder.
pub open spec fn spec_lower_fields(
    table: Seq<(Seq<char>, TypeKey)>,
    s: Seq<(String, AstType)>,
) -> (Seq<LoweringError>, Seq<(Seq<char>, TypeView)>)
    decreases s,
{
    if s.len() == 0 {
        (Seq::<LoweringError>::empty(), Seq::<(Seq<char>, TypeView)>::empty())
    } else {
        let (e0, t0) = spec_lower_type(table, s[0].1);
        let (e1, rest) = spec_lower_fields(table, s.subrange(1, s.len() as int));
        (
            e0 + e1,
            seq![
                (
                    s[0].0@,
                    match t0 {
                        Some(t) => t,
                        None => TypeView::Undeclared,
                    },
                ),
            ] + rest,
        )
    }
}

/// A declared parameter list, resolved, names and outward names kept.
pub open spec fn spec_lower_params(table: Seq<(Seq<char>, TypeKey)>, s: Seq<AstParam>) -> (
    Seq<LoweringError>,
    Seq<ParamView>,
)
    decreases s,
{
    if s.len() == 0 {
        (Seq::<LoweringError>::empty(), Seq::<ParamView>::empty())
    } else {
        let (e0, t0) = spec_lower_type(table, s[0].ty);
        let (e1, rest) = spec_lower_params(table, s.subrange(1, s.len() as int));
        (
            e0 + e1,
            seq![
                ParamView {
                    outward_name: match s[0].outward_name {
                        Some(n) => Some(n@),
                        None => None::<Seq<char>>,
                    },
                    name: s[0].name@,
                    ty: match t0 {
                        Some(t) => t,
                        None => TypeView::Undeclared,
                    },
                },
            ] + rest,
        )
    }
}

/// Second pass, one item: fill the registered slot with the resolved
/// definition or signature; an item that got no key was a duplicate and is
/// skipped.
pub open spec fn spec_fill_item(
    p: ProgramView,
    it: AstItem,
    tk: Option<TypeKey>,
    fk: Option<FuncKey>,
) -> (ProgramView, Seq<LoweringError>) {
    match it {
        AstItem::Struct { fields, .. } => match tk {
            Some(k) => {
                let (e, fv) = spec_lower_fields(p.type_names, fields@);
                (set_type_view(p, k, DirectTypeView::Struct { fields: fv }), e)
            },
            None => (p, Seq::<LoweringError>::empty()),
        },
        AstItem::Union { variants, .. } => match tk {
            Some(k) => {
                let (e, fv) = spec_lower_fields(p.type_names, variants@);
                (set_type_view(p, k, DirectTypeView::Union { variants: fv }), e)
            },
            None => (p, Seq::<LoweringError>::empty()),
        },
        AstItem::Enum { variants, .. } => match tk {
            Some(k) => (
                set_type_view(p, k, DirectTypeView::Enum { variants: names_view(variants@) }),
                Seq::<LoweringError>::empty(),
            ),
            None => (p, Seq::<LoweringError>::empty()),
        },
        AstItem::Alias { ty, .. } => match tk {
            Some(k) => {
                let (e, t) = spec_lower_type(p.type_names, ty);
                (
                    set_type_view(
                        p,
                        k,
                        DirectTypeView::Type(
                            match t {
                                Some(t) => t,
                                None => TypeView::Undeclared,
                            },
                        ),
                    ),
                    e,
                )
            },
            None => (p, Seq::<LoweringError>::empty()),
        },
        AstItem::Function { ret, params, span, .. } => match fk {
            Some(k) => {
                let (e0, rt) = spec_lower_type(p.type_names, ret);
                let (e1, ps) = spec_lower_params(p.type_names, params@);
                let d = FunctionDeclView {
                    ret: match rt {
                        Some(t) => t,
                        None => TypeView::Undeclared,
                    },
                    params: ps,
                    span,
                };
                (set_decl_view(p, k, d), e0 + e1)
            },
            None => (p, Seq::<LoweringError>::empty()),
        },
    }
}

pub open spec fn set_type_view(p: ProgramView, k: TypeKey, dt: DirectTypeView) -> ProgramView {
    if k.idx < p.types.len() {
        ProgramView { types: p.types.update(k.idx as int, dt), ..p }
    } else {
        p
    }
}

pub open spec fn set_decl_view(p: ProgramView, k: FuncKey, d: FunctionDeclView) -> ProgramView {
    if k.idx < p.function_decls.len() {
        ProgramView { function_decls: p.function_decls.update(k.idx as int, d), ..p }
    } else {
        p
    }
}

pub open spec fn spec_fill(
    p: ProgramView,
    items: Seq<AstItem>,
    tks: Seq<Option<TypeKey>>,
    fks: Seq<Option<FuncKey>>,
    i: int,
) -> (ProgramView, Seq<LoweringError>)
    decreases items.len() - i,
{
    if i < 0 || i >= items.len() {
        (p, Seq::<LoweringError>::empty())
    } else {
        let tk = if 0 <= i < tks.len() {
            tks[i]
        } else {
            None::<TypeKey>
        };
        let fk = if 0 <= i < fks.len() {
            fks[i]
        } else {
            None::<FuncKey>
        };
        let (p1, e1) = spec_fill_item(p, items[i], tk, fk);
        let (p2, e2) = spec_fill(p1, items, tks, fks, i + 1);
        (p2, e1 + e2)
    }
}

/// The parameters of a declaration, entered as the first local variables
/// and as the outermost scope of the body.
pub open spec fn spec_param_vars(params: Seq<ParamView>, span: Span) -> (
    Seq<VariableView>,
    Seq<(Seq<char>, Var)>,
) {
    (
        Seq::new(params.len(), |j: int| VariableView { ty: params[j].ty, span }),
        Seq::new(params.len(), |j: int| (params[j].name, Var { idx: j as usize })),
    )
}

/// Third pass, one item: lower the body of a registered function and
/// attach it, the literal arena growing by the interned strings.
pub open spec fn spec_body_item(p: ProgramView, it: AstItem, fk: Option<FuncKey>) -> (
    ProgramView,
    Seq<LoweringError>,
) {
    match it {
        AstItem::Function { body, span, .. } => match fk {
            Some(k) => {
                let (vars0, top0) = if k.idx < p.function_decls.len() {
                    spec_param_vars(p.function_decls[k.idx as int].params, span)
                } else {
                    (Seq::<VariableView>::empty(), Seq::<(Seq<char>, Var)>::empty())
                };
                let c = LowerCtx {
                    type_names: p.type_names,
                    function_names: p.function_names,
                    function_decls: p.function_decls,
                };
                let st0 = LowerSt { literals: p.literals, vars: vars0, scopes: seq![top0] };
                let (st1, e1, ss) = spec_lower_block(c, st0, body);
                let fv = FunctionView { variables: st1.vars, body: ss };
                (
                    ProgramView {
                        literals: st1.literals,
                        functions: if k.idx < p.functions.len() {
                            p.functions.update(k.idx as int, fv)
                        } else {
                            p.functions
                        },
                        ..p
                    },
                    e1,
                )
            },
            None => (p, Seq::<LoweringError>::empty()),
        },
        _ => (p, Seq::<LoweringError>::empty()),
    }
}

pub open spec fn spec_bodies(
    p: ProgramView,
    items: Seq<AstItem>,
    fks: Seq<Option<FuncKey>>,
    i: int,
) -> (ProgramView, Seq<LoweringError>)
    decreases items.len() - i,
{
    if i < 0 || i >= items.len() {
        (p, Seq::<LoweringError>::empty())
    } else {
        let fk = if 0 <= i < fks.len() {
            fks[i]
        } else {
            None::<FuncKey>
        };
        let (p1, e1) = spec_body_item(p, items[i], fk);
        let (p2, e2) = spec_bodies(p1, items, fks, i + 1);
        (p2, e1 + e2)
    }
}

/// The meaning of `Program::lower`: the program that comes out and the
/// errors recorded, pass by pass, as a function of the syntax tree alone.
pub open spec fn spec_lower(ast: AstProgram) -> (ProgramView, Seq<LoweringError>) {
    let (p1, e1, tks, fks) = spec_register(empty_program(), ast.items@, 0);
    let (p2, e2) = spec_fill(p1, ast.items@, tks, fks, 0);
    let (p3, e3) = spec_bodies(p2, ast.items@, fks, 0);
    (p3, e1 + e2 + e3)
}

/// Resolve a variable name against the scope stack, innermost scope first
/// and latest declaration first, so shadowing works.
#[verifier::loop_isolation(false)]
fn lookup_var(scopes: &Scopes, name: &String, Ghost(n_vars): Ghost<int>) -> (r: Option<Var>)
    requires
        scopes_ok(scopes@, n_vars),
    ensures
        r == scopes_find(scopes_view(scopes@), name@),
        r matches Some(k) ==> k.idx < n_vars,
{
    let ghost sv = scopes_view(scopes@);
    let mut si: usize = scopes.len();
    proof {
        assert(sv.subrange(0, sv.len() as int) =~= sv);
    }
    while si > 0
        invariant
            si <= scopes@.len(),
            scopes_find(sv, name@) == scopes_find(sv.subrange(0, si as int), name@),
        decreases si,
    {
        si = si - 1;
        let ghost outer = sv.subrange(0, si as int + 1);
        proof {
            assert(outer.last() == sv[si as int]);
            assert(outer.drop_last() =~= sv.subrange(0, si as int));
            assert(sv[si as int] == names_view(scopes@[si as int]@));
        }
        let scope = &scopes[si];
        let ghost cv = names_view(scope@);
        let mut j: usize = scope.len();
        proof {
            assert(cv.subrange(0, cv.len() as int) =~= cv);
        }
        while j > 0
            invariant
                j <= scope@.len(),
                scope_find(cv, name@) == scope_find(cv.subrange(0, j as int), name@),
            decreases j,
        {
            j = j - 1;
            let ghost pre = cv.subrange(0, j as int + 1);
            proof {
                assert(pre.last() == cv[j as int]);
                assert(pre.drop_last() =~= cv.subrange(0, j as int));
            }
            if scope[j].0 == *name {
                proof {
                    assert(scope_find(pre, name@) == Some(cv[j as int].1));
                    assert(scopes@[si as int]@[j as int].1.idx < n_vars);
                    assert(scopes_find(sv, name@) == Some(scope@[j as int].1));
                }
                return Some(scope[j].1);
            }
        }
        proof {
            assert(cv.subrange(0, 0) =~= Seq::<(Seq<char>, Var)>::empty());
            assert(scope_find(cv, name@) is None);
            assert(scopes_find(outer, name@) == scopes_find(sv.subrange(0, si as int), name@));
        }
    }
    proof {
        assert(sv.subrange(0, 0) =~= Seq::<Seq<(Seq<char>, Var)>>::empty());
    }
    None
}

/// Resolve a syntactic type against the program's type-name table.  An
/// unknown name is recorded and yields `None`.
#[verifier::loop_isolation(false)]
fn lower_type(p: &Program, at: &AstType, errs: &mut Vec<LoweringError>) -> (r: Option<Type>)
    requires
        forall|i: int|
            0 <= i < p@.type_names.len() ==> (#[trigger] p@.type_names[i]).1.idx < p@.types.len(),
    ensures
        r matches Some(t) ==> wf_type(type_view(t), p@.types.len() as int),
        ({
            let (e1, r2) = spec_lower_type(p@.type_names, *at);
            &&& final(errs)@ == old(errs)@ + e1
            &&& crate::typecheck::ty_opt_view(r) == r2
        }),
    decreases *at,
{
    let ghost table = p@.type_names;
    match at {
        AstType::Primitive(prim) => {
            proof {
                assert(errs@ =~= errs@ + Seq::<LoweringError>::empty());
            }
            Some(Type::Primitive(*prim))
        },
        AstType::Named(name, span) => match lookup_name(&p.type_names, name) {
            Some(k) => {
                proof {
                    lemma_lookup_found(p@.type_names, name@);
                    assert(errs@ =~= errs@ + Seq::<LoweringError>::empty());
                }
                Some(Type::Direct(k))
            },
            None => {
                errs.push(LoweringError::UnknownType(*span));
                proof {
                    assert(errs@ =~= old(errs)@ + seq![LoweringError::UnknownType(*span)]);
                }
                None
            },
        },
        AstType::Unit => {
            proof {
                assert(errs@ =~= errs@ + Seq::<LoweringError>::empty());
            }
            Some(Type::Unit)
        },
        AstType::Ptr(inner) => match lower_type(p, &*inner, errs) {
            Some(t) => Some(Type::Ptr(Box::new(t))),
            None => None,
        },
        AstType::Slice(inner) => match lower_type(p, &*inner, errs) {
            Some(t) => Some(Type::Slice(Box::new(t))),
            None => None,
        },
        AstType::Array { ty, len } => match lower_type(p, &*ty, errs) {
            Some(t) => Some(Type::Array { ty: Box::new(t), len: *len }),
            None => None,
        },
        AstType::Func { ret, params } => {
            let rt = lower_type(p, &*ret, errs);
            let ghost errs_after_ret = errs@;
            let mut ps: Vec<Type> = Vec::new();
            let mut ps_ok: bool = true;
            let mut i: usize = 0;
            let ghost n = params@.len() as int;
            proof {
                assert(params@.subrange(0, n) =~= params@);
                assert(types_view(ps@) + Seq::<TypeView>::empty() =~= types_view(ps@));
            }
            while i < params.len()
                invariant
                    i <= n,
                    forall|j: int|
                        0 <= j < ps@.len() ==> wf_type(
                            type_view(#[trigger] ps@[j]),
                            p@.types.len() as int,
                        ),
                    ({
                        let (el, pl) = spec_lower_type_list(table, params@.subrange(i as int, n));
                        let (ef, pf) = spec_lower_type_list(table, params@);
                        &&& errs@ + el == errs_after_ret + ef
                        &&& pf == (if ps_ok {
                            match pl {
                                Some(pl) => Some(types_view(ps@) + pl),
                                None => None::<Seq<TypeView>>,
                            }
                        } else {
                            None::<Seq<TypeView>>
                        })
                    }),
                decreases n - i,
            {
                proof {
                    let sub = params@.subrange(i as int, n);
                    assert(sub[0] == params@[i as int]);
                    assert(sub.subrange(1, sub.len() as int) =~= params@.subrange(i as int + 1, n));
                    assert(decreases_to!(*params => params@[i as int]));
                    assert(decreases_to!(*at => params@[i as int]));
                }
                let ghost ps0 = ps@;
                let ghost errs_b = errs@;
                match lower_type(p, &params[i], errs) {
                    Some(t) => {
                        let ghost tv = t@;
                        ps.push(t);
                        proof {
                            lemma_types_view(ps0);
                            lemma_types_view(ps@);
                            assert(types_view(ps@) =~= types_view(ps0) + seq![tv]);
                        }
                    },
                    None => {
                        ps_ok = false;
                    },
                }
                i += 1;
                proof {
                    let (el, pl) = spec_lower_type_list(table, params@.subrange(i as int, n));
                    let (ei, ti) = spec_lower_type(table, params@[i as int - 1]);
                    assert((errs_b + ei) + el =~= errs_b + (ei + el));
                    if ti is Some && pl is Some {
                        assert((types_view(ps0) + seq![ti->0]) + pl->0 =~= types_view(ps0) + (
                        seq![ti->0] + pl->0));
                    }
                }
            }
            proof {
                assert(params@.subrange(n, n) =~= Seq::<AstType>::empty());
                assert(errs@ + Seq::<LoweringError>::empty() =~= errs@);
                assert(types_view(ps@) + Seq::<TypeView>::empty() =~= types_view(ps@));
            }
            if ps_ok {
                match rt {
                    Some(t) => {
                        proof {
                            lemma_types_view(ps@);
                            lemma_wf_types(types_view(ps@), p@.types.len() as int);
                            assert forall|j: int|
                                0 <= j < types_view(ps@).len() implies wf_type(
                                #[trigger] types_view(ps@)[j],
                                p@.types.len() as int,
                            ) by {
                                assert(types_view(ps@)[j] == type_view(ps@[j]));
                            }
                        }
                        Some(Type::Func { ret: Box::new(t), params: ps })
                    },
                    None => None,
                }
            } else {
                None
            }
        },
    }
}

/// Lower an atomic operand: resolve a name to a local variable, intern a
/// string literal, pass the rest through.
fn lower_value(
    p: &mut Program,
    scopes: &Scopes,
    v: &AstValue,
    errs: &mut Vec<LoweringError>,
    Ghost(n_vars): Ghost<int>,
) -> (r: Option<Value>)
    requires
        scopes_ok(scopes@, n_vars),
    ensures
        final(p)@ == (ProgramView { literals: final(p)@.literals, ..old(p)@ }),
        old(p)@.literals.len() <= final(p)@.literals.len(),
        r matches Some(v2) ==> wf_value(
            v2,
            WfCtx {
                n_vars: n_vars,
                n_lits: final(p)@.literals.len() as int,
                n_types: 0,
                n_funcs: 0,
            },
        ),
        ({
            let (l1, e1, r2) = spec_lower_value(old(p)@.literals, scopes_view(scopes@), *v);
            &&& final(p)@.literals == l1
            &&& final(errs)@ == old(errs)@ + e1
            &&& r == r2
        }),
{
    match v {
        AstValue::Name(name, span) => match lookup_var(scopes, name, Ghost(n_vars)) {
            Some(k) => {
                proof {
                    assert(errs@ =~= errs@ + Seq::<LoweringError>::empty());
                }
                Some(Value::Var(k, *span))
            },
            None => {
                errs.push(LoweringError::UnknownVariable(*span));
                proof {
                    assert(errs@ =~= old(errs)@ + seq![LoweringError::UnknownVariable(*span)]);
                }
                None
            },
        },
        AstValue::Num(n, span) => {
            proof {
                assert(errs@ =~= errs@ + Seq::<LoweringError>::empty());
            }
            Some(Value::Num(*n, *span))
        },
        AstValue::Str(text, span) => {
            let ghost lits0 = p@.literals;
            let k = p.intern_literal(text.clone());
            proof {
                assert(errs@ =~= errs@ + Seq::<LoweringError>::empty());
                assert(k == LiteralKey { idx: lits0.len() as usize });
            }
            Some(Value::Literal(k, *span))
        },
        AstValue::Uninit(span) => {
            proof {
                assert(errs@ =~= errs@ + Seq::<LoweringError>::empty());
            }
            Some(Value::Uninit(*span))
        },
        AstValue::Unit(span) => {
            proof {
                assert(errs@ =~= errs@ + Seq::<LoweringError>::empty());
            }
            Some(Value::Unit(*span))
        },
    }
}

/// First remaining argument written with the given outward name.
#[verifier::loop_isolation(false)]
fn find_named(args: &Vec<(Option<String>, Value)>, name: &String) -> (r: Option<usize>)
    ensures
        match r {
            Some(i) => i < args@.len() && first_named(args_view(args@), name@) == Some(i as int),
            None => first_named(args_view(args@), name@) is None,
        },
{
    let ghost av = args_view(args@);
    let mut i: usize = 0;
    while i < args.len()
        invariant
            i <= av.len(),
            forall|j: int| 0 <= j < i ==> (#[trigger] av[j]).0 != Some(name@),
        decreases av.len() - i,
    {
        let hit = match &args[i].0 {
            Some(n) => *n == *name,
            None => false,
        };
        if hit {
            proof {
                assert(av[i as int].0 == Some(name@));
                assert(is_first_named(av, name@, i as int));
                let x = choose|x: int| 0 <= x < av.len() && is_first_named(av, name@, x);
                assert(is_first_named(av, name@, x));
                if x < i as int {
                    assert(av[x].0 != Some(name@));
                }
                if x > i as int {
                    assert(av[i as int].0 != Some(name@));
                }
                assert(first_named(av, name@) == Some(i as int));
            }
            return Some(i);
        }
        proof {
            assert(av[i as int].0 != Some(name@));
        }
        i += 1;
    }
    proof {
        if first_named(av, name@) is Some {
            let x = choose|x: int| 0 <= x < av.len() && is_first_named(av, name@, x);
            assert(is_first_named(av, name@, x));
            assert(av[x].0 != Some(name@));
        }
    }
    None
}

/// First remaining argument written without a name.
#[verifier::loop_isolation(false)]
fn find_positional(args: &Vec<(Option<String>, Value)>) -> (r: Option<usize>)
    ensures
        match r {
            Some(i) => i < args@.len() && first_positional(args_view(args@)) == Some(i as int),
            None => first_positional(args_view(args@)) is None,
        },
{
    let ghost av = args_view(args@);
    let mut i: usize = 0;
    while i < args.len()
        invariant
            i <= av.len(),
            forall|j: int| 0 <= j < i ==> (#[trigger] av[j]).0 is Some,
        decreases av.len() - i,
    {
        if args[i].0.is_none() {
            proof {
                assert(av[i as int].0 is None);
                assert(is_first_positional(av, i as int));
                let x = choose|x: int| 0 <= x < av.len() && is_first_positional(av, x);
                assert(is_first_positional(av, x));
                if x < i as int {
                    assert(av[x].0 is Some);
                }
                if x > i as int {
                    assert(av[i as int].0 is Some);
                }
                assert(first_positional(av) == Some(i as int));
            }
            return Some(i);
        }
        proof {
            assert(av[i as int].0 is Some);
        }
        i += 1;
    }
    proof {
        if first_positional(av) is Some {
            let x = choose|x: int| 0 <= x < av.len() && is_first_positional(av, x);
            assert(is_first_positional(av, x));
            assert(av[x].0 is Some);
        }
    }
    None
}

/// Bind call-site arguments to the callee's declared parameter order: a
/// named argument fills the first parameter declaring that outward name,
/// a positional argument fills the next parameter left open, in written
/// order.  Arguments left over are appended, so the arity check of type
/// resolution sees them.
#[verifier::loop_isolation(false)]
fn bind_args(
    params: &Vec<Param>,
    largs: Vec<(Option<String>, Value)>,
    Ghost(c): Ghost<WfCtx>,
) -> (r: Vec<Value>)
    requires
        forall|i: int| 0 <= i < largs@.len() ==> wf_value((#[trigger] largs@[i]).1, c),
    ensures
        r@ == spec_bind(params_view(params@), args_view(largs@)),
        forall|j: int| 0 <= j < r@.len() ==> wf_value(#[trigger] r@[j], c),
{
    let ghost pv = params_view(params@);
    let ghost full = spec_bind(pv, args_view(largs@));
    let ghost np = pv.len() as int;
    let mut rem = largs;
    let mut result: Vec<Value> = Vec::new();
    let mut pi: usize = 0;
    proof {
        assert(pv.subrange(0, np) =~= pv);
        assert(result@ + spec_bind(pv.subrange(0, np), args_view(rem@)) =~= full);
    }
    while pi < params.len()
        invariant
            pi <= np,
            forall|j: int| 0 <= j < rem@.len() ==> wf_value((#[trigger] rem@[j]).1, c),
            forall|j: int| 0 <= j < result@.len() ==> wf_value(#[trigger] result@[j], c),
            result@ + spec_bind(pv.subrange(pi as int, np), args_view(rem@)) == full,
        decreases np - pi,
    {
        let ghost sub = pv.subrange(pi as int, np);
        let ghost av = args_view(rem@);
        proof {
            assert(sub[0] == pv[pi as int]);
            assert(sub.subrange(1, sub.len() as int) =~= pv.subrange(pi as int + 1, np));
            assert(pv[pi as int] == crate::ir::param_view(params@[pi as int]));
        }
        let found: Option<usize> = match &params[pi].outward_name {
            Some(nm) => find_named(&rem, nm),
            None => None,
        };
        let found2: Option<usize> = match found {
            Some(i) => Some(i),
            None => find_positional(&rem),
        };
        match found2 {
            Some(ai) => {
                let ghost rem0 = rem@;
                let v = rem.remove(ai);
                result.push(v.1);
                proof {
                    args_view(rem0).remove_ensures(ai as int);
                    assert(args_view(rem@) =~= args_view(rem0).remove(ai as int));
                    assert(v.1 == args_view(rem0)[ai as int].1);
                    assert((result@ + spec_bind(pv.subrange(pi as int + 1, np), args_view(rem@)))
                        =~= full);
                    assert forall|j: int| 0 <= j < rem@.len() implies wf_value(
                        (#[trigger] rem@[j]).1,
                        c,
                    ) by {
                        if j < ai as int {
                            assert(rem@[j] == rem0[j]);
                        } else {
                            assert(rem@[j] == rem0[j + 1]);
                        }
                    }
                }
            },
            None => {},
        }
        pi += 1;
    }
    proof {
        assert(pv.subrange(np, np) =~= Seq::<ParamView>::empty());
        assert(result@ + values_of(args_view(rem@)) == full);
        assert(values_of(args_view(rem@)).subrange(0, rem@.len() as int) =~= values_of(
            args_view(rem@),
        ));
    }
    let ghost av_fin = args_view(rem@);
    let mut ai: usize = 0;
    while ai < rem.len()
        invariant
            ai <= rem@.len(),
            av_fin == args_view(rem@),
            forall|j: int| 0 <= j < rem@.len() ==> wf_value((#[trigger] rem@[j]).1, c),
            forall|j: int| 0 <= j < result@.len() ==> wf_value(#[trigger] result@[j], c),
            result@ + values_of(av_fin).subrange(ai as int, av_fin.len() as int) == full,
        decreases rem@.len() - ai,
    {
        let ghost vs = values_of(av_fin).subrange(ai as int, av_fin.len() as int);
        proof {
            assert(vs[0] == values_of(av_fin)[ai as int]);
            assert(vs.subrange(1, vs.len() as int) =~= values_of(av_fin).subrange(
                ai as int + 1,
                av_fin.len() as int,
            ));
            assert(values_of(av_fin)[ai as int] == av_fin[ai as int].1);
        }
        result.push(rem[ai].1);
        proof {
            assert(result@ + values_of(av_fin).subrange(ai as int + 1, av_fin.len() as int)
                =~= full);
        }
        ai += 1;
    }
    proof {
        assert(values_of(av_fin).subrange(av_fin.len() as int, av_fin.len() as int) =~= Seq::<
            Value,
        >::empty());
        assert(result@ =~= full);
    }
    result
}

/// Lower an expression, resolving variable, function and type names.
#[verifier::loop_isolation(false)]
fn lower_expr(
    p: &mut Program,
    scopes: &Scopes,
    e: &AstExpr,
    errs: &mut Vec<LoweringError>,
    Ghost(n_vars): Ghost<int>,
) -> (r: Option<Expr>)
    requires
        scopes_ok(scopes@, n_vars),
        tables_ok(old(p)@),
    ensures
        final(p)@ == (ProgramView { literals: final(p)@.literals, ..old(p)@ }),
        old(p)@.literals.len() <= final(p)@.literals.len(),
        r matches Some(e2) ==> wf_expr(
            e2@,
            WfCtx {
                n_vars: n_vars,
                n_lits: final(p)@.literals.len() as int,
                n_types: old(p)@.types.len() as int,
                n_funcs: old(p)@.function_decls.len() as int,
            },
        ),
        ({
            let (l1, e1, r2) = spec_lower_expr(
                LowerCtx {
                    type_names: old(p)@.type_names,
                    function_names: old(p)@.function_names,
                    function_decls: old(p)@.function_decls,
                },
                old(p)@.literals,
                scopes_view(scopes@),
                *e,
            );
            &&& final(p)@.literals == l1
            &&& final(errs)@ == old(errs)@ + e1
            &&& match (r, r2) {
                (Some(a), Some(b)) => a@ == b,
                (None, None) => true,
                _ => false,
            }
        }),
{
    let ghost wfc = WfCtx {
        n_vars: n_vars,
        n_lits: 0,
        n_types: p@.types.len() as int,
        n_funcs: p@.function_decls.len() as int,
    };
    let ghost sv = scopes_view(scopes@);
    let ghost lc = LowerCtx {
        type_names: p@.type_names,
        function_names: p@.function_names,
        function_decls: p@.function_decls,
    };
    match e {
        AstExpr::Value(v) => match lower_value(p, scopes, v, errs, Ghost(n_vars)) {
            Some(v2) => Some(v2.expr()),
            None => None,
        },
        AstExpr::FieldAccess(v, field, span) => match lower_value(p, scopes, v, errs, Ghost(n_vars)) {
            Some(v2) => Some(Expr::FieldAccess(v2, field.clone(), *span)),
            None => None,
        },
        AstExpr::PathAccess(tyname, member, span) => match lookup_name(&p.type_names, tyname) {
            Some(k) => {
                proof {
                    lemma_lookup_found(p@.type_names, tyname@);
                    assert(errs@ =~= errs@ + Seq::<LoweringError>::empty());
                }
                Some(Expr::PathAccess(k, member.clone(), *span))
            },
            None => {
                errs.push(LoweringError::UnknownType(*span));
                proof {
                    assert(errs@ =~= old(errs)@ + seq![LoweringError::UnknownType(*span)]);
                }
                None
            },
        },
        AstExpr::Call(fname, args, span) => {
            let k: FuncKey = match lookup_name(&p.function_names, fname) {
                Some(k) => {
                    proof {
                        lemma_lookup_found(p@.function_names, fname@);
                    }
                    k
                },
                None => {
                    errs.push(LoweringError::UnknownFunction(*span));
                    proof {
                        assert(errs@ =~= old(errs)@ + seq![LoweringError::UnknownFunction(*span)]);
                    }
                    return None;
                },
            };
            let ghost lits0 = p@.literals;
            let ghost errs1 = errs@;
            let ghost n = args@.len() as int;
            let mut largs: Vec<(Option<String>, Value)> = Vec::new();
            let mut ok: bool = true;
            let mut i: usize = 0;
            proof {
                assert(args@.subrange(0, n) =~= args@);
                assert(args_view(largs@) + Seq::<(Option<Seq<char>>, Value)>::empty()
                    =~= args_view(largs@));
            }
            while i < args.len()
                invariant
                    i <= n,
                    p@ == (ProgramView { literals: p@.literals, ..old(p)@ }),
                    old(p)@.literals.len() <= p@.literals.len(),
                    forall|j: int|
                        0 <= j < largs@.len() ==> wf_value(
                            (#[trigger] largs@[j]).1,
                            WfCtx { n_lits: p@.literals.len() as int, ..wfc },
                        ),
                    ({
                        let (l_l, e_l, la_l) = spec_lower_arg_list(
                            p@.literals,
                            sv,
                            args@.subrange(i as int, n),
                        );
                        let (l_f, e_f, la_f) = spec_lower_arg_list(lits0, sv, args@);
                        &&& l_f == l_l
                        &&& errs@ + e_l == errs1 + e_f
                        &&& la_f == (if ok {
                            match la_l {
                                Some(rest) => Some(args_view(largs@) + rest),
                                None => None::<Seq<(Option<Seq<char>>, Value)>>,
                            }
                        } else {
                            None::<Seq<(Option<Seq<char>>, Value)>>
                        })
                    }),
                decreases n - i,
            {
                proof {
                    let sub = args@.subrange(i as int, n);
                    assert(sub[0] == args@[i as int]);
                    assert(sub.subrange(1, sub.len() as int) =~= args@.subrange(i as int + 1, n));
                }
                let ghost largs0 = largs@;
                let ghost lits_b = p@.literals;
                let ghost errs_b = errs@;
                let arg = &args[i];
                match lower_value(p, scopes, &arg.value, errs, Ghost(n_vars)) {
                    Some(v2) => {
                        let aname = match &arg.name {
                            Some(nm) => Some(nm.clone()),
                            None => None,
                        };
                        let ghost entry = (
                            match args@[i as int].name {
                                Some(nm) => Some(nm@),
                                None => None::<Seq<char>>,
                            },
                            v2,
                        );
                        largs.push((aname, v2));
                        proof {
                            assert(args_view(largs@) =~= args_view(largs0) + seq![entry]);
                            assert forall|j: int|
                                0 <= j < largs@.len() implies wf_value(
                                (#[trigger] largs@[j]).1,
                                WfCtx { n_lits: p@.literals.len() as int, ..wfc },
                            ) by {
                                if j < largs@.len() - 1 {
                                    assert(largs@[j] == largs0[j]);
                                    lemma_wf_value_grow(
                                        largs@[j].1,
                                        WfCtx { n_lits: lits_b.len() as int, ..wfc },
                                        WfCtx { n_lits: p@.literals.len() as int, ..wfc },
                                    );
                                }
                            }
                        }
                    },
                    None => {
                        ok = false;
                    },
                }
                i += 1;
                proof {
                    let (l_l, e_l, la_l) = spec_lower_arg_list(
                        p@.literals,
                        sv,
                        args@.subrange(i as int, n),
                    );
                    let (l_v, e_v, vr) = spec_lower_value(lits_b, sv, args@[i as int - 1].value);
                    assert((errs_b + e_v) + e_l =~= errs_b + (e_v + e_l));
                    if vr is Some && la_l is Some {
                        assert((args_view(largs0) + seq![
                            (
                                match args@[i as int - 1].name {
                                    Some(nm) => Some(nm@),
                                    None => None::<Seq<char>>,
                                },
                                vr->0,
                            ),
                        ]) + la_l->0 =~= args_view(largs0) + (seq![
                            (
                                match args@[i as int - 1].name {
                                    Some(nm) => Some(nm@),
                                    None => None::<Seq<char>>,
                                },
                                vr->0,
                            ),
                        ] + la_l->0));
                    }
                }
            }
            proof {
                assert(args@.subrange(n, n) =~= Seq::<AstArg>::empty());
                assert(errs@ + Seq::<LoweringError>::empty() =~= errs@);
                assert(args_view(largs@) + Seq::<(Option<Seq<char>>, Value)>::empty()
                    =~= args_view(largs@));
            }
            if !ok {
                return None;
            }
            let ghost cfin = WfCtx { n_lits: p@.literals.len() as int, ..wfc };
            let bound = if k.idx < p.function_decls.len() {
                proof {
                    assert(crate::program::decls_view(p.function_decls@)[k.idx as int]
                        == decl_view(p.function_decls@[k.idx as int]));
                }
                bind_args(&p.function_decls[k.idx].params, largs, Ghost(cfin))
            } else {
                bind_args(&Vec::new(), largs, Ghost(cfin))
            };
            proof {
                assert(params_view(Seq::<Param>::empty()) =~= Seq::<ParamView>::empty());
            }
            Some(Expr::FuncCall(k, bound, *span))
        },
        AstExpr::Return(vo, span) => match vo {
            Some(v) => match lower_value(p, scopes, v, errs, Ghost(n_vars)) {
                Some(v2) => Some(Expr::Return(Some(v2), *span)),
                None => None,
            },
            None => {
                proof {
                    assert(errs@ =~= errs@ + Seq::<LoweringError>::empty());
                }
                Some(Expr::Return(None, *span))
            },
        },
        AstExpr::Break(span) => {
            proof {
                assert(errs@ =~= errs@ + Seq::<LoweringError>::empty());
            }
            Some(Expr::Break(*span))
        },
        AstExpr::Continue(span) => {
            proof {
                assert(errs@ =~= errs@ + Seq::<LoweringError>::empty());
            }
            Some(Expr::Continue(*span))
        },
        AstExpr::BinOp(l, op, r2, span) => {
            let ghost errs_b = errs@;
            let lv = lower_value(p, scopes, l, errs, Ghost(n_vars));
            let ghost lits1 = p@.literals.len() as int;
            let rv = lower_value(p, scopes, r2, errs, Ghost(n_vars));
            proof {
                let (la, ea, va) = spec_lower_value(old(p)@.literals, sv, *l);
                let (lb, eb, vb) = spec_lower_value(la, sv, *r2);
                assert((errs_b + ea) + eb =~= errs_b + (ea + eb));
            }
            match (lv, rv) {
                (Some(l2), Some(r3)) => {
                    proof {
                        lemma_wf_value_grow(
                            l2,
                            WfCtx { n_lits: lits1, ..wfc },
                            WfCtx { n_lits: p@.literals.len() as int, ..wfc },
                        );
                    }
                    Some(Expr::BinOp(l2, *op, r3, *span))
                },
                _ => None,
            }
        },
        AstExpr::UnaryOp(op, v, span) => match lower_value(p, scopes, v, errs, Ghost(n_vars)) {
            Some(v2) => Some(Expr::UnaryOp(*op, v2, *span)),
            None => None,
        },
    }
}

/// Lower one statement.  A statement whose parts fail to resolve is dropped
/// (its errors are already recorded) and lowering continues.
#[verifier::loop_isolation(false)]
#[verifier::rlimit(60)]
fn lower_stmt(
    p: &mut Program,
    vars: &mut Vec<Variable>,
    scopes: &mut Scopes,
    s: &AstStmt,
    errs: &mut Vec<LoweringError>,
) -> (r: Option<Statement>)
    requires
        tables_ok(old(p)@),
        scopes_ok(old(scopes)@, old(vars)@.len() as int),
        wf_vars(variables_view(old(vars)@), old(p)@.types.len() as int),
    ensures
        final(p)@ == (ProgramView { literals: final(p)@.literals, ..old(p)@ }),
        old(p)@.literals.len() <= final(p)@.literals.len(),
        old(vars)@.len() <= final(vars)@.len(),
        wf_vars(variables_view(final(vars)@), old(p)@.types.len() as int),
        final(scopes)@.len() == old(scopes)@.len(),
        scopes_ok(final(scopes)@, final(vars)@.len() as int),
        r matches Some(st) ==> wf_stmt(
            st@,
            WfCtx {
                n_vars: final(vars)@.len() as int,
                n_lits: final(p)@.literals.len() as int,
                n_types: old(p)@.types.len() as int,
                n_funcs: old(p)@.function_decls.len() as int,
            },
        ),
        ({
            let (st1, e1, r2) = spec_lower_stmt(
                LowerCtx {
                    type_names: old(p)@.type_names,
                    function_names: old(p)@.function_names,
                    function_decls: old(p)@.function_decls,
                },
                LowerSt {
                    literals: old(p)@.literals,
                    vars: variables_view(old(vars)@),
                    scopes: scopes_view(old(scopes)@),
                },
                *s,
            );
            &&& final(p)@.literals == st1.literals
            &&& variables_view(final(vars)@) == st1.vars
            &&& scopes_view(final(scopes)@) == st1.scopes
            &&& final(errs)@ == old(errs)@ + e1
            &&& match (r, r2) {
                (Some(a), Some(b)) => a@ == b,
                (None, None) => true,
                _ => false,
            }
        }),
    decreases *s,
{
    let ghost lc = LowerCtx {
        type_names: p@.type_names,
        function_names: p@.function_names,
        function_decls: p@.function_decls,
    };
    let ghost st0 = LowerSt {
        literals: p@.literals,
        vars: variables_view(vars@),
        scopes: scopes_view(scopes@),
    };
    match s {
        AstStmt::Declare { name, ty, value, span } => {
            let ghost errs_b = errs@;
            let vty: Type = match ty {
                Some(at) => match lower_type(p, at, errs) {
                    Some(t) => t,
                    None => Type::Undeclared,
                },
                None => Type::Undeclared,
            };
            let key = Var { idx: vars.len() };
            let ghost vars0 = variables_view(vars@);
            vars.push(Variable { ty: vty, span: *span });
            proof {
                assert(variables_view(vars@) =~= vars0.push(
                    VariableView { ty: type_view(vars@[key.idx as int].ty), span: *span },
                ));
                assert forall|j: int|
                    0 <= j < variables_view(vars@).len() implies wf_type(
                    (#[trigger] variables_view(vars@)[j]).ty,
                    p@.types.len() as int,
                ) by {
                    if j < variables_view(vars@).len() - 1 {
                        assert(variables_view(vars@)[j] == vars0[j]);
                    } else {
                        assert(variables_view(vars@)[j].ty == type_view(vars@[j].ty));
                    }
                }
            }
            let ghost sv0 = scopes_view(scopes@);
            if scopes.len() > 0 {
                let li = scopes.len() - 1;
                let ghost top0 = scopes@[li as int]@;
                let top = &mut scopes[li];
                top.push((name.clone(), key));
                proof {
                    assert(names_view(scopes@[li as int]@) =~= names_view(top0).push(
                        (name@, key),
                    ));
                    assert(scopes_view(scopes@) =~= sv0.update(
                        li as int,
                        sv0.last().push((name@, key)),
                    ));
                }
            }
            match lower_expr(p, scopes, value, errs, Ghost(vars@.len() as int)) {
                Some(e) => {
                    proof {
                        let (ety, vtyv) = match ty {
                            Some(at) => {
                                let (e2, t2) = spec_lower_type(lc.type_names, *at);
                                (
                                    e2,
                                    match t2 {
                                        Some(t2) => t2,
                                        None => TypeView::Undeclared,
                                    },
                                )
                            },
                            None => (Seq::<LoweringError>::empty(), TypeView::Undeclared),
                        };
                        let (l2, e2, r2) = spec_lower_expr(
                            lc,
                            p@.literals,
                            scopes_view(scopes@),
                            *value,
                        );
                        assert((errs_b + ety) + e2 =~= errs_b + (ety + e2));
                    }
                    Some(Statement::Assign(key, e, *span))
                },
                None => {
                    proof {
                        let (ety, _vtyv) = match ty {
                            Some(at) => {
                                let (e2, t2) = spec_lower_type(lc.type_names, *at);
                                (
                                    e2,
                                    match t2 {
                                        Some(t2) => t2,
                                        None => TypeView::Undeclared,
                                    },
                                )
                            },
                            None => (Seq::<LoweringError>::empty(), TypeView::Undeclared),
                        };
                        let (l2, e2, _r2) = spec_lower_expr(
                            lc,
                            p@.literals,
                            scopes_view(scopes@),
                            *value,
                        );
                        assert((errs_b + ety) + e2 =~= errs_b + (ety + e2));
                    }
                    None
                },
            }
        },
        AstStmt::Assign { name, value, span } => {
            let key = match lookup_var(scopes, name, Ghost(vars@.len() as int)) {
                Some(k) => k,
                None => {
                    errs.push(LoweringError::UnknownVariable(*span));
                    proof {
                        assert(errs@ =~= old(errs)@ + seq![LoweringError::UnknownVariable(*span)]);
                    }
                    return None;
                },
            };
            match lower_expr(p, scopes, value, errs, Ghost(vars@.len() as int)) {
                Some(e) => Some(Statement::Assign(key, e, *span)),
                None => None,
            }
        },
        AstStmt::DerefAssign { target, value, span } => {
            let ghost errs_b = errs@;
            let t = lower_expr(p, scopes, target, errs, Ghost(vars@.len() as int));
            let ghost lits1 = p@.literals.len() as int;
            let v = lower_expr(p, scopes, value, errs, Ghost(vars@.len() as int));
            proof {
                let (l1, e1, _t1) = spec_lower_expr(lc, st0.literals, st0.scopes, *target);
                let (l2, e2, _v1) = spec_lower_expr(lc, l1, st0.scopes, *value);
                assert((errs_b + e1) + e2 =~= errs_b + (e1 + e2));
            }
            match (t, v) {
                (Some(t2), Some(v2)) => {
                    proof {
                        lemma_wf_expr_grow(
                            t2@,
                            WfCtx {
                                n_vars: vars@.len() as int,
                                n_lits: lits1,
                                n_types: p@.types.len() as int,
                                n_funcs: p@.function_decls.len() as int,
                            },
                            WfCtx {
                                n_vars: vars@.len() as int,
                                n_lits: p@.literals.len() as int,
                                n_types: p@.types.len() as int,
                                n_funcs: p@.function_decls.len() as int,
                            },
                        );
                    }
                    Some(Statement::DerefAssign(t2, v2, *span))
                },
                _ => None,
            }
        },
        AstStmt::FieldAssign { object, field, value, span } => {
            let ghost errs_b = errs@;
            let o = lower_expr(p, scopes, object, errs, Ghost(vars@.len() as int));
            let ghost lits1 = p@.literals.len() as int;
            let v = lower_expr(p, scopes, value, errs, Ghost(vars@.len() as int));
            proof {
                let (l1, e1, _t1) = spec_lower_expr(lc, st0.literals, st0.scopes, *object);
                let (l2, e2, _v1) = spec_lower_expr(lc, l1, st0.scopes, *value);
                assert((errs_b + e1) + e2 =~= errs_b + (e1 + e2));
            }
            match (o, v) {
                (Some(o2), Some(v2)) => {
                    proof {
                        lemma_wf_expr_grow(
                            o2@,
                            WfCtx {
                                n_vars: vars@.len() as int,
                                n_lits: lits1,
                                n_types: p@.types.len() as int,
                                n_funcs: p@.function_decls.len() as int,
                            },
                            WfCtx {
                                n_vars: vars@.len() as int,
                                n_lits: p@.literals.len() as int,
                                n_types: p@.types.len() as int,
                                n_funcs: p@.function_decls.len() as int,
                            },
                        );
                    }
                    Some(Statement::FieldAssign {
                        object: o2,
                        field: field.clone(),
                        value: v2,
                        span: *span,
                    })
                },
                _ => None,
            }
        },
        AstStmt::Do { expr } => match lower_expr(p, scopes, expr, errs, Ghost(vars@.len() as int)) {
            Some(e) => Some(Statement::Do(e)),
            None => None,
        },
        AstStmt::Block { block, span } => {
            proof {
                assert(decreases_to!(*s => *block));
            }
            let b = lower_block(p, vars, scopes, block, errs);
            Some(Statement::Block(b, *span))
        },
        AstStmt::If { cond, block, else_block, span } => {
            let ghost errs_b = errs@;
            let c = lower_expr(p, scopes, cond, errs, Ghost(vars@.len() as int));
            let ghost vars1 = vars@.len() as int;
            let ghost lits1 = p@.literals.len() as int;
            proof {
                assert(decreases_to!(*s => *block));
            }
            let b = lower_block(p, vars, scopes, block, errs);
            let ghost vars2 = vars@.len() as int;
            let ghost lits2 = p@.literals.len() as int;
            let eb = match else_block {
                Some(ebb) => {
                    proof {
                        assert(decreases_to!(*s => *ebb));
                    }
                    Some(lower_block(p, vars, scopes, ebb, errs))
                },
                None => None,
            };
            proof {
                let (l1, e1, _c1) = spec_lower_expr(lc, st0.literals, st0.scopes, *cond);
                let (stx, e2, _ss1) = spec_lower_stmts(
                    lc,
                    LowerSt { literals: l1, scopes: st0.scopes.push(Seq::empty()), ..st0 },
                    block.stmts@,
                );
                let stxp = LowerSt { scopes: stx.scopes.drop_last(), ..stx };
                match else_block {
                    Some(ebb) => {
                        let (sty, e3, _ss2) = spec_lower_stmts(
                            lc,
                            LowerSt { scopes: stxp.scopes.push(Seq::empty()), ..stxp },
                            ebb.stmts@,
                        );
                        assert(((errs_b + e1) + e2) + e3 =~= errs_b + (e1 + e2 + e3));
                    },
                    None => {
                        assert((errs_b + e1) + e2 =~= errs_b + (e1 + e2));
                        assert(e1 + e2 =~= e1 + e2 + Seq::<LoweringError>::empty());
                    },
                }
            }
            match c {
                Some(c2) => {
                    let ghost cf = WfCtx {
                        n_vars: vars@.len() as int,
                        n_lits: p@.literals.len() as int,
                        n_types: p@.types.len() as int,
                        n_funcs: p@.function_decls.len() as int,
                    };
                    proof {
                        lemma_wf_expr_grow(c2@, WfCtx { n_vars: vars1, n_lits: lits1, ..cf }, cf);
                        crate::typecheck::lemma_wf_stmts_grow(
                            b@,
                            WfCtx { n_vars: vars2, n_lits: lits2, ..cf },
                            cf,
                        );
                    }
                    Some(Statement::If { cond: c2, block: b, else_block: eb, span: *span })
                },
                None => None,
            }
        },
        AstStmt::Loop { block, span } => {
            proof {
                assert(decreases_to!(*s => *block));
            }
            let b = lower_block(p, vars, scopes, block, errs);
            Some(Statement::Loop(b, *span))
        },
    }
}

/// Lower a block: a scope is pushed on entry and popped on exit, so later
/// declarations in the block shadow outer ones for the block's lifetime
/// only.
#[verifier::loop_isolation(false)]
fn lower_block(
    p: &mut Program,
    vars: &mut Vec<Variable>,
    scopes: &mut Scopes,
    b: &AstBlock,
    errs: &mut Vec<LoweringError>,
) -> (r: Block)
    requires
        tables_ok(old(p)@),
        scopes_ok(old(scopes)@, old(vars)@.len() as int),
        wf_vars(variables_view(old(vars)@), old(p)@.types.len() as int),
    ensures
        final(p)@ == (ProgramView { literals: final(p)@.literals, ..old(p)@ }),
        old(p)@.literals.len() <= final(p)@.literals.len(),
        old(vars)@.len() <= final(vars)@.len(),
        wf_vars(variables_view(final(vars)@), old(p)@.types.len() as int),
        final(scopes)@.len() == old(scopes)@.len(),
        scopes_ok(final(scopes)@, final(vars)@.len() as int),
        wf_stmts(
            r@,
            WfCtx {
                n_vars: final(vars)@.len() as int,
                n_lits: final(p)@.literals.len() as int,
                n_types: old(p)@.types.len() as int,
                n_funcs: old(p)@.function_decls.len() as int,
            },
        ),
        ({
            let (st1, e1, ss) = spec_lower_block(
                LowerCtx {
                    type_names: old(p)@.type_names,
                    function_names: old(p)@.function_names,
                    function_decls: old(p)@.function_decls,
                },
                LowerSt {
                    literals: old(p)@.literals,
                    vars: variables_view(old(vars)@),
                    scopes: scopes_view(old(scopes)@),
                },
                *b,
            );
            &&& final(p)@.literals == st1.literals
            &&& variables_view(final(vars)@) == st1.vars
            &&& scopes_view(final(scopes)@) == st1.scopes
            &&& final(errs)@ == old(errs)@ + e1
            &&& r@ == ss
        }),
    decreases *b,
{
    let ghost lc = LowerCtx {
        type_names: p@.type_names,
        function_names: p@.function_names,
        function_decls: p@.function_decls,
    };
    let ghost sv_in = scopes_view(scopes@);
    scopes.push(Vec::new());
    let ghost st_entry = LowerSt {
        literals: p@.literals,
        vars: variables_view(vars@),
        scopes: scopes_view(scopes@),
    };
    proof {
        assert(names_view(Seq::<(String, Var)>::empty()) =~= Seq::<(Seq<char>, Var)>::empty());
        assert(scopes_view(scopes@) =~= sv_in.push(Seq::empty()));
    }
    let mut stmts: Vec<Statement> = Vec::new();
    let mut i: usize = 0;
    let ghost n = b.stmts@.len() as int;
    let ghost errs0 = errs@;
    proof {
        lemma_stmts_view(stmts@);
        assert(b.stmts@.subrange(0, n) =~= b.stmts@);
        assert(stmts_view(stmts@) + Seq::<StatementView>::empty() =~= stmts_view(stmts@));
    }
    while i < b.stmts.len()
        invariant
            i <= n,
            p@ == (ProgramView { literals: p@.literals, ..old(p)@ }),
            old(p)@.literals.len() <= p@.literals.len(),
            old(vars)@.len() <= vars@.len(),
            wf_vars(variables_view(vars@), old(p)@.types.len() as int),
            scopes@.len() == old(scopes)@.len() + 1,
            scopes_ok(scopes@, vars@.len() as int),
            forall|j: int|
                0 <= j < stmts_view(stmts@).len() ==> wf_stmt(
                    #[trigger] stmts_view(stmts@)[j],
                    WfCtx {
                        n_vars: vars@.len() as int,
                        n_lits: p@.literals.len() as int,
                        n_types: old(p)@.types.len() as int,
                        n_funcs: old(p)@.function_decls.len() as int,
                    },
                ),
            stmts_view(stmts@).len() == stmts@.len(),
            ({
                let cur = LowerSt {
                    literals: p@.literals,
                    vars: variables_view(vars@),
                    scopes: scopes_view(scopes@),
                };
                let (st_l, e_l, ss_l) = spec_lower_stmts(lc, cur, b.stmts@.subrange(i as int, n));
                let (st_f, e_f, ss_f) = spec_lower_stmts(lc, st_entry, b.stmts@);
                &&& st_f == st_l
                &&& errs@ + e_l == errs0 + e_f
                &&& ss_f == stmts_view(stmts@) + ss_l
            }),
        decreases n - i,
    {
        let ghost varsb = vars@.len() as int;
        let ghost litsb = p@.literals.len() as int;
        let ghost stmts0 = stmts@;
        let ghost cur_b = LowerSt {
            literals: p@.literals,
            vars: variables_view(vars@),
            scopes: scopes_view(scopes@),
        };
        let ghost errs_b = errs@;
        proof {
            lemma_stmts_view(stmts@);
            let sub = b.stmts@.subrange(i as int, n);
            assert(sub[0] == b.stmts@[i as int]);
            assert(sub.subrange(1, sub.len() as int) =~= b.stmts@.subrange(i as int + 1, n));
            assert(decreases_to!(*b => b.stmts));
            assert(decreases_to!(b.stmts => b.stmts@[i as int]));
        }
        let lowered = lower_stmt(p, vars, scopes, &b.stmts[i], errs);
        match &lowered {
            Some(st) => stmts.push(lowered.unwrap()),
            None => {},
        }
        proof {
            lemma_stmts_view(stmts0);
            lemma_stmts_view(stmts@);
            let cf = WfCtx {
                n_vars: vars@.len() as int,
                n_lits: p@.literals.len() as int,
                n_types: old(p)@.types.len() as int,
                n_funcs: old(p)@.function_decls.len() as int,
            };
            assert forall|j: int| 0 <= j < stmts_view(stmts@).len() implies wf_stmt(
                #[trigger] stmts_view(stmts@)[j],
                cf,
            ) by {
                assert(stmts_view(stmts@)[j] == stmt_view(stmts@[j]));
                if j < stmts0.len() {
                    assert(stmts@[j] == stmts0[j]);
                    assert(stmts_view(stmts0)[j] == stmt_view(stmts0[j]));
                    crate::typecheck::lemma_wf_stmt_grow(
                        stmt_view(stmts@[j]),
                        WfCtx { n_vars: varsb, n_lits: litsb, ..cf },
                        cf,
                    );
                }
            }
            let (st1, e1, r2) = spec_lower_stmt(lc, cur_b, b.stmts@[i as int]);
            let (st_l, e_l, ss_l) = spec_lower_stmts(
                lc,
                st1,
                b.stmts@.subrange(i as int + 1, n),
            );
            assert((errs_b + e1) + e_l =~= errs_b + (e1 + e_l));
            match r2 {
                Some(s2) => {
                    assert(stmts_view(stmts@) =~= stmts_view(stmts0).push(s2));
                    assert((stmts_view(stmts0) + (seq![s2] + ss_l)) =~= (stmts_view(stmts0).push(
                        s2,
                    ) + ss_l));
                },
                None => {},
            }
        }
        i += 1;
    }
    proof {
        assert(b.stmts@.subrange(n, n) =~= Seq::<AstStmt>::empty());
        assert(errs@ + Seq::<LoweringError>::empty() =~= errs@);
        assert(stmts_view(stmts@) + Seq::<StatementView>::empty() =~= stmts_view(stmts@));
    }
    let ghost sv_before_pop = scopes_view(scopes@);
    let _ = scopes.pop();
    proof {
        assert(scopes_view(scopes@) =~= sv_before_pop.drop_last());
        lemma_stmts_view(stmts@);
        crate::typecheck::lemma_wf_stmts(
            stmts_view(stmts@),
            WfCtx {
                n_vars: vars@.len() as int,
                n_lits: p@.literals.len() as int,
                n_types: old(p)@.types.len() as int,
                n_funcs: old(p)@.function_decls.len() as int,
            },
        );
    }
    Block { stmts }
}

impl Program {
    /// Lower a parsed compilation unit into a `Program`.
    ///
    /// The contract fixes the result as a function of the syntax tree:
    /// `spec_lower` says which program comes out and which errors are
    /// recorded; lowering succeeds, with exactly that well-formed program,
    /// iff no error was recorded, and fails with exactly those errors
    /// otherwise.
    #[verifier::loop_isolation(false)]
    #[verifier::rlimit(60)]
    pub fn lower(ast: &AstProgram) -> (r: Result<Program, Vec<LoweringError>>)
        ensures
            r matches Ok(prog) ==> wf_program(prog@),
            ({
                let (pv, es) = spec_lower(*ast);
                match r {
                    Ok(prog) => prog@ == pv && es == Seq::<LoweringError>::empty(),
                    Err(errs2) => errs2@ == es && es.len() > 0,
                }
            }),
    {
        let ghost items = ast.items@;
        let ghost n = items.len() as int;
        let mut p = Program::new();
        let mut errs: Vec<LoweringError> = Vec::new();
        proof {
            assert(p@ =~= empty_program());
            assert(items.subrange(0, n) =~= items);
        }

        // Pass 1: register every type and function name, so forward and
        // mutual references resolve regardless of declaration order.
        let ghost reg = spec_register(empty_program(), items, 0);
        let mut type_keys: Vec<Option<crate::ir::TypeKey>> = Vec::new();
        let mut func_keys: Vec<Option<FuncKey>> = Vec::new();
        let mut i: usize = 0;
        while i < ast.items.len()
            invariant
                i <= n,
                wf_program(p@),
                type_keys@.len() == i,
                func_keys@.len() == i,
                ({
                    let (p_l, e_l, t_l, f_l) = spec_register(p@, items, i as int);
                    &&& reg.0 == p_l
                    &&& errs@ + e_l == reg.1
                    &&& reg.2 == type_keys@ + t_l
                    &&& reg.3 == func_keys@ + f_l
                }),
            decreases n - i,
        {
            let ghost p0 = p@;
            let ghost errs_b = errs@;
            let ghost tks0 = type_keys@;
            let ghost fks0 = func_keys@;
            match &ast.items[i] {
                AstItem::Struct { name, span, .. } | AstItem::Union { name, span, .. }
                | AstItem::Enum { name, span, .. } | AstItem::Alias { name, span, .. } => {
                    let ghost namev = name@;
                    let res = p.declare_type(
                        name.clone(),
                        DirectType::Type(Type::Undeclared),
                        *span,
                    );
                    proof {
                        lemma_declare_type_wf(
                            p0,
                            namev,
                            DirectTypeView::Type(TypeView::Undeclared),
                            *span,
                            p@,
                            res,
                        );
                    }
                    match res {
                        Ok(k) => {
                            type_keys.push(Some(k));
                            func_keys.push(None);
                        },
                        Err(e) => {
                            errs.push(e);
                            type_keys.push(None);
                            func_keys.push(None);
                        },
                    }
                },
                AstItem::Function { name, span, .. } => {
                    let ghost namev = name@;
                    let placeholder = FunctionDecl {
                        ret: Type::Unit,
                        params: Vec::new(),
                        span: *span,
                    };
                    let ghost placev = placeholder@;
                    let res = p.declare_function(name.clone(), placeholder, *span);
                    proof {
                        assert(params_view(Seq::<Param>::empty()) =~= Seq::<ParamView>::empty());
                        assert(placev == FunctionDeclView {
                            ret: TypeView::Unit,
                            params: Seq::empty(),
                            span: *span,
                        });
                        lemma_declare_function_wf(p0, namev, placev, *span, p@, res);
                    }
                    match res {
                        Ok(k) => {
                            type_keys.push(None);
                            func_keys.push(Some(k));
                        },
                        Err(e) => {
                            errs.push(e);
                            type_keys.push(None);
                            func_keys.push(None);
                        },
                    }
                },
            }
            i += 1;
            proof {
                let (st_p, st_e, st_t, st_f) = spec_register_item(p0, items[i as int - 1]);
                let (p_l, e_l, t_l, f_l) = spec_register(p@, items, i as int);
                assert(st_p == p@);
                assert((errs_b + st_e) + e_l =~= errs_b + (st_e + e_l));
                assert((tks0 + seq![st_t]) + t_l =~= tks0 + (seq![st_t] + t_l));
                assert((fks0 + seq![st_f]) + f_l =~= fks0 + (seq![st_f] + f_l));
                assert(type_keys@ =~= tks0 + seq![st_t]);
                assert(func_keys@ =~= fks0 + seq![st_f]);
            }
        }
        proof {
            assert(errs@ + Seq::<LoweringError>::empty() =~= errs@);
            assert(type_keys@ + Seq::<Option<crate::ir::TypeKey>>::empty() =~= type_keys@);
            assert(func_keys@ + Seq::<Option<FuncKey>>::empty() =~= func_keys@);
        }
        let ghost p1v = p@;
        let ghost errs1v = errs@;
        let ghost tks = type_keys@;
        let ghost fks = func_keys@;

        // Pass 2a: fill in type definitions and function signatures.
        let ghost fill = spec_fill(p1v, items, tks, fks, 0);
        let mut i: usize = 0;
        while i < ast.items.len()
            invariant
                i <= n,
                wf_program(p@),
                type_keys@ == tks,
                func_keys@ == fks,
                ({
                    let (p_l, e_l) = spec_fill(p@, items, tks, fks, i as int);
                    &&& fill.0 == p_l
                    &&& errs@ + e_l == errs1v + fill.1
                }),
            decreases n - i,
        {
            let ghost p0 = p@;
            let ghost errs_b = errs@;
            let key_t = if i < type_keys.len() {
                type_keys[i]
            } else {
                None
            };
            let key_f = if i < func_keys.len() {
                func_keys[i]
            } else {
                None
            };
            match &ast.items[i] {
                AstItem::Struct { fields, .. } => match key_t {
                    Some(k) => {
                        let fs = lower_field_list(&p, fields, &mut errs);
                        let ghost dtv = direct_type_view(DirectType::Struct { fields: fs });
                        proof {
                            assert(dtv == DirectTypeView::Struct {
                                fields: spec_lower_fields(p0.type_names, fields@).1,
                            });
                        }
                        p.set_type(k, DirectType::Struct { fields: fs });
                        proof {
                            lemma_set_type_wf(p0, k, dtv, p@);
                        }
                    },
                    None => {},
                },
                AstItem::Union { variants, .. } => match key_t {
                    Some(k) => {
                        let vs = lower_field_list(&p, variants, &mut errs);
                        let ghost dtv = direct_type_view(DirectType::Union { variants: vs });
                        proof {
                            assert(dtv == DirectTypeView::Union {
                                variants: spec_lower_fields(p0.type_names, variants@).1,
                            });
                        }
                        p.set_type(k, DirectType::Union { variants: vs });
                        proof {
                            lemma_set_type_wf(p0, k, dtv, p@);
                        }
                    },
                    None => {},
                },
                AstItem::Enum { variants, .. } => match key_t {
                    Some(k) => {
                        let mut vs: Vec<(String, i32)> = Vec::new();
                        let mut j: usize = 0;
                        while j < variants.len()
                            invariant
                                j <= variants@.len(),
                                vs@.len() == j,
                                forall|x: int| 0 <= x < j ==> #[trigger] vs@[x].0@ == variants@[
                                    x
                                ].0@ && vs@[x].1 == variants@[x].1,
                            decreases variants@.len() - j,
                        {
                            vs.push((variants[j].0.clone(), variants[j].1));
                            j += 1;
                        }
                        let ghost dtv = direct_type_view(DirectType::Enum { variants: vs });
                        proof {
                            assert(names_view(vs@) =~= names_view(variants@));
                            assert(crate::ir::enum_variants_view(vs@) =~= names_view(variants@));
                        }
                        p.set_type(k, DirectType::Enum { variants: vs });
                        proof {
                            lemma_set_type_wf(p0, k, dtv, p@);
                            assert(errs@ =~= errs_b + Seq::<LoweringError>::empty());
                        }
                    },
                    None => {},
                },
                AstItem::Alias { ty, .. } => match key_t {
                    Some(k) => {
                        let t = match lower_type(&p, ty, &mut errs) {
                            Some(t) => t,
                            None => Type::Undeclared,
                        };
                        let ghost dtv = direct_type_view(DirectType::Type(t));
                        p.set_type(k, DirectType::Type(t));
                        proof {
                            lemma_set_type_wf(p0, k, dtv, p@);
                        }
                    },
                    None => {},
                },
                AstItem::Function { ret, params, span, .. } => match key_f {
                    Some(k) => {
                        let rt = match lower_type(&p, ret, &mut errs) {
                            Some(t) => t,
                            None => Type::Undeclared,
                        };
                        let ghost e0 = spec_lower_type(p0.type_names, *ret).0;
                        let ps = lower_param_list(&p, params, &mut errs);
                        let ghost dv = decl_view(FunctionDecl { ret: rt, params: ps, span: *span });
                        proof {
                            let (e1, psv) = spec_lower_params(p0.type_names, params@);
                            assert((errs_b + e0) + e1 =~= errs_b + (e0 + e1));
                        }
                        p.set_decl(k, FunctionDecl { ret: rt, params: ps, span: *span });
                        proof {
                            lemma_set_decl_wf(p0, k, dv, p@);
                        }
                    },
                    None => {},
                },
            }
            i += 1;
            proof {
                let (st_p, st_e) = spec_fill_item(
                    p0,
                    items[i as int - 1],
                    if 0 <= i as int - 1 < tks.len() {
                        tks[i as int - 1]
                    } else {
                        None::<crate::ir::TypeKey>
                    },
                    if 0 <= i as int - 1 < fks.len() {
                        fks[i as int - 1]
                    } else {
                        None::<FuncKey>
                    },
                );
                let (p_l, e_l) = spec_fill(p@, items, tks, fks, i as int);
                assert(st_p =~~= p@);
                assert((errs_b + st_e) + e_l =~= errs_b + (st_e + e_l));
            }
        }
        proof {
            assert(errs@ + Seq::<LoweringError>::empty() =~= errs@);
        }
        let ghost p2v = p@;
        let ghost errs2v = errs@;

        // Pass 2b: lower every function body, with its parameters in scope
        // as the first local variables.
        let ghost bod = spec_bodies(p2v, items, fks, 0);
        let mut i: usize = 0;
        while i < ast.items.len()
            invariant
                i <= n,
                wf_program(p@),
                func_keys@ == fks,
                ({
                    let (p_l, e_l) = spec_bodies(p@, items, fks, i as int);
                    &&& bod.0 == p_l
                    &&& errs@ + e_l == errs2v + bod.1
                }),
            decreases n - i,
        {
            let ghost p0 = p@;
            let ghost errs_b = errs@;
            let key_f = if i < func_keys.len() {
                func_keys[i]
            } else {
                None
            };
            match &ast.items[i] {
                AstItem::Function { body, span, .. } => match key_f {
                    Some(k) => {
                        let mut vars: Vec<Variable> = Vec::new();
                        let mut scopes: Scopes = Vec::new();
                        let mut top: Vec<(String, Var)> = Vec::new();
                        if k.idx < p.function_decls.len() {
                            let decl = &p.function_decls[k.idx];
                            let ghost pvw = p@.function_decls[k.idx as int].params;
                            proof {
                                assert(wf_decl(
                                    p@.function_decls[k.idx as int],
                                    p@.types.len() as int,
                                ));
                                assert(pvw == params_view(decl.params@));
                            }
                            let mut j: usize = 0;
                            while j < decl.params.len()
                                invariant
                                    j <= pvw.len(),
                                    vars@.len() == j,
                                    top@.len() == j,
                                    forall|x: int|
                                        0 <= x < j ==> #[trigger] variables_view(vars@)[x]
                                            == (VariableView { ty: pvw[x].ty, span: *span }),
                                    forall|x: int|
                                        0 <= x < j ==> #[trigger] names_view(top@)[x] == (
                                            pvw[x].name,
                                            Var { idx: x as usize },
                                        ),
                                    forall|x: int|
                                        0 <= x < vars@.len() ==> wf_type(
                                            (#[trigger] variables_view(vars@)[x]).ty,
                                            p@.types.len() as int,
                                        ),
                                    forall|x: int|
                                        0 <= x < top@.len() ==> (#[trigger] top@[x]).1.idx
                                            < vars@.len(),
                                decreases pvw.len() - j,
                            {
                                let ghost vars0 = vars@;
                                let ghost top0 = top@;
                                let key = Var { idx: vars.len() };
                                vars.push(Variable { ty: decl.params[j].ty.clone(), span: *span });
                                top.push((decl.params[j].name.clone(), key));
                                proof {
                                    assert(pvw[j as int].ty == type_view(
                                        decl.params@[j as int].ty,
                                    ));
                                    assert(pvw[j as int].name == decl.params@[j as int].name@);
                                    assert forall|x: int|
                                        0 <= x < j + 1 implies #[trigger] variables_view(vars@)[x]
                                        == (VariableView { ty: pvw[x].ty, span: *span }) by {
                                        assert(variables_view(vars@)[x] == (VariableView {
                                            ty: type_view(vars@[x].ty),
                                            span: vars@[x].span,
                                        }));
                                        if x < j as int {
                                            assert(vars@[x] == vars0[x]);
                                            assert(variables_view(vars0)[x] == (VariableView {
                                                ty: type_view(vars0[x].ty),
                                                span: vars0[x].span,
                                            }));
                                        }
                                    }
                                    assert forall|x: int|
                                        0 <= x < j + 1 implies #[trigger] names_view(top@)[x] == (
                                        pvw[x].name,
                                        Var { idx: x as usize },
                                    ) by {
                                        assert(names_view(top@)[x] == (top@[x].0@, top@[x].1));
                                        if x < j as int {
                                            assert(top@[x] == top0[x]);
                                            assert(names_view(top0)[x] == (top0[x].0@, top0[x].1));
                                        }
                                    }
                                    assert(wf_type(pvw[j as int].ty, p@.types.len() as int));
                                    assert forall|x: int|
                                        0 <= x < vars@.len() implies wf_type(
                                        (#[trigger] variables_view(vars@)[x]).ty,
                                        p@.types.len() as int,
                                    ) by {
                                        assert(variables_view(vars@)[x].ty == type_view(
                                            vars@[x].ty,
                                        ));
                                        if x < vars@.len() - 1 {
                                            assert(vars@[x] == vars0[x]);
                                            assert(variables_view(vars0)[x].ty == type_view(
                                                vars0[x].ty,
                                            ));
                                        }
                                    }
                                }
                                j += 1;
                            }
                            proof {
                                let (sv, st) = spec_param_vars(pvw, *span);
                                assert(variables_view(vars@) =~= sv);
                                assert(names_view(top@) =~= st);
                            }
                        }
                        let ghost top0_all = top;
                        scopes.push(top);
                        proof {
                            let (sv, st) = if k.idx < p@.function_decls.len() {
                                spec_param_vars(p@.function_decls[k.idx as int].params, *span)
                            } else {
                                (Seq::<VariableView>::empty(), Seq::<(Seq<char>, Var)>::empty())
                            };
                            assert(names_view(Seq::<(String, Var)>::empty())
                                =~= Seq::<(Seq<char>, Var)>::empty());
                            assert(variables_view(vars@) =~= sv);
                            assert(names_view(top0_all@) =~= st);
                            assert(scopes_view(scopes@) =~~= seq![st]);
                        }
                        let b = lower_block(&mut p, &mut vars, &mut scopes, body, &mut errs);
                        let ghost p1 = p@;
                        let ghost fv = FunctionView { variables: variables_view(vars@), body: b@ };
                        p.set_function(k, Function { variables: vars, body: b });
                        proof {
                            lemma_pass1_stable(p0, p1);
                            assert(wf_function(fv, p1));
                            lemma_set_function_wf(p1, k, fv, p@);
                            let (st_p, st_e) = spec_body_item(p0, items[i as int], Some(k));
                            assert(st_p =~~= p@);
                        }
                    },
                    None => {},
                },
                _ => {},
            }
            i += 1;
            proof {
                let (st_p, st_e) = spec_body_item(
                    p0,
                    items[i as int - 1],
                    if 0 <= i as int - 1 < fks.len() {
                        fks[i as int - 1]
                    } else {
                        None::<FuncKey>
                    },
                );
                let (p_l, e_l) = spec_bodies(p@, items, fks, i as int);
                assert(st_p =~~= p@);
                assert((errs_b + st_e) + e_l =~= errs_b + (st_e + e_l));
            }
        }
        proof {
            assert(errs@ + Seq::<LoweringError>::empty() =~= errs@);
            let (pv, es) = spec_lower(*ast);
            assert(errs@ =~= (reg.1 + fill.1) + bod.1);
            assert((reg.1 + fill.1) + bod.1 =~= reg.1 + (fill.1 + bod.1));
            assert(es =~= errs@);
            assert(pv == p@);
        }

        if errs.len() > 0 {
            Err(errs)
        } else {
            proof {
                assert(spec_lower(*ast).1 =~= Seq::<LoweringError>::empty());
            }
            Ok(p)
        }
    }
}

/// Declaring a type preserves well-formedness of the store.
proof fn lemma_declare_type_wf(
    p0: ProgramView,
    name: Seq<char>,
    dt: DirectTypeView,
    span: crate::ir::Span,
    p1: ProgramView,
    r: Result<crate::ir::TypeKey, LoweringError>,
)
    requires
        wf_program(p0),
        wf_direct(dt, p0.types.len() as int + 1),
        declares_type(p0, name, dt, span, p1, r),
    ensures
        wf_program(p1),
{
    if p1 != p0 {
        assert forall|i: int| 0 <= i < p1.types.len() implies wf_direct(
            #[trigger] p1.types[i],
            p1.types.len() as int,
        ) by {
            if i < p0.types.len() {
                assert(p1.types[i] == p0.types[i]);
                lemma_wf_direct_grow(p0.types[i], p0.types.len() as int, p1.types.len() as int);
            }
        }
        assert forall|i: int| 0 <= i < p1.function_decls.len() implies wf_decl(
            #[trigger] p1.function_decls[i],
            p1.types.len() as int,
        ) by {
            lemma_wf_decl_grow(p1.function_decls[i], p0.types.len() as int, p1.types.len() as int);
        }
        assert forall|i: int| 0 <= i < p1.functions.len() implies wf_function(
            #[trigger] p1.functions[i],
            p1,
        ) by {
            crate::typecheck::lemma_wf_function_grow(p1.functions[i], p0, p1);
        }
    }
}

/// Declaring a function preserves well-formedness of the store.
proof fn lemma_declare_function_wf(
    p0: ProgramView,
    name: Seq<char>,
    decl: FunctionDeclView,
    span: crate::ir::Span,
    p1: ProgramView,
    r: Result<FuncKey, LoweringError>,
)
    requires
        wf_program(p0),
        wf_decl(decl, p0.types.len() as int),
        declares_function(p0, name, decl, span, p1, r),
    ensures
        wf_program(p1),
{
    if p1 != p0 {
        assert forall|i: int| 0 <= i < p1.functions.len() implies wf_function(
            #[trigger] p1.functions[i],
            p1,
        ) by {
            if i < p0.functions.len() {
                assert(p1.functions[i] == p0.functions[i]);
                crate::typecheck::lemma_wf_function_grow(p0.functions[i], p0, p1);
            } else {
                assert(p1.functions[i] == crate::ir::FunctionView {
                    variables: Seq::empty(),
                    body: Seq::empty(),
                });
            }
        }
    }
}

/// Replacing one nominal-type definition with a well-formed one preserves
/// well-formedness of the store.
proof fn lemma_set_type_wf(p0: ProgramView, k: crate::ir::TypeKey, dt: DirectTypeView, p1: ProgramView)
    requires
        wf_program(p0),
        wf_direct(dt, p0.types.len() as int),
        p1 == if k.idx < p0.types.len() {
            ProgramView { types: p0.types.update(k.idx as int, dt), ..p0 }
        } else {
            p0
        },
    ensures
        wf_program(p1),
{
    if p1 != p0 {
        assert forall|i: int| 0 <= i < p1.types.len() implies wf_direct(
            #[trigger] p1.types[i],
            p1.types.len() as int,
        ) by {
            if i != k.idx as int {
                assert(p1.types[i] == p0.types[i]);
            }
        }
        assert forall|i: int| 0 <= i < p1.functions.len() implies wf_function(
            #[trigger] p1.functions[i],
            p1,
        ) by {
            crate::typecheck::lemma_wf_function_grow(p1.functions[i], p0, p1);
        }
    }
}

/// Replacing one declaration with a well-formed one preserves
/// well-formedness of the store.
proof fn lemma_set_decl_wf(p0: ProgramView, k: FuncKey, d: FunctionDeclView, p1: ProgramView)
    requires
        wf_program(p0),
        wf_decl(d, p0.types.len() as int),
        p1 == if k.idx < p0.function_decls.len() {
            ProgramView { function_decls: p0.function_decls.update(k.idx as int, d), ..p0 }
        } else {
            p0
        },
    ensures
        wf_program(p1),
{
    if p1 != p0 {
        assert forall|i: int| 0 <= i < p1.function_decls.len() implies wf_decl(
            #[trigger] p1.function_decls[i],
            p1.types.len() as int,
        ) by {
            if i != k.idx as int {
                assert(p1.function_decls[i] == p0.function_decls[i]);
            }
        }
        assert forall|i: int| 0 <= i < p1.functions.len() implies wf_function(
            #[trigger] p1.functions[i],
            p1,
        ) by {
            crate::typecheck::lemma_wf_function_grow(p1.functions[i], p0, p1);
        }
    }
}

/// Body lowering only interns literals: everything the well-formedness of
/// the other functions depends on is stable.
proof fn lemma_pass1_stable(p0: ProgramView, p1: ProgramView)
    requires
        wf_program(p0),
        p1 == (ProgramView { literals: p1.literals, ..p0 }),
        p0.literals.len() <= p1.literals.len(),
    ensures
        wf_program(p1),
{
    assert forall|i: int| 0 <= i < p1.functions.len() implies wf_function(
        #[trigger] p1.functions[i],
        p1,
    ) by {
        crate::typecheck::lemma_wf_function_grow(p1.functions[i], p0, p1);
    }
}

/// Attaching a well-formed lowered body to one function slot preserves
/// well-formedness of the store.
proof fn lemma_set_function_wf(
    p1: ProgramView,
    k: FuncKey,
    fv: crate::ir::FunctionView,
    p2: ProgramView,
)
    requires
        wf_program(p1),
        wf_function(fv, p1),
        p2 == if k.idx < p1.functions.len() {
            ProgramView { functions: p1.functions.update(k.idx as int, fv), ..p1 }
        } else {
            p1
        },
    ensures
        wf_program(p2),
{
    if p2 != p1 {
        assert forall|i: int| 0 <= i < p2.functions.len() implies wf_function(
            #[trigger] p2.functions[i],
            p2,
        ) by {
            if i != k.idx as int {
                assert(p2.functions[i] == p1.functions[i]);
                crate::typecheck::lemma_wf_function_grow(p1.functions[i], p1, p2);
            } else {
                crate::typecheck::lemma_wf_function_grow(fv, p1, p2);
            }
        }
    }
}

/// Lower the `(name, type)` list of a struct or union; a field whose type
/// fails to resolve keeps its place with an `Undeclared` placeholder, the
/// error being already recorded.
#[verifier::loop_isolation(false)]
fn lower_field_list(
    p: &Program,
    fields: &Vec<(String, AstType)>,
    errs: &mut Vec<LoweringError>,
) -> (r: Vec<(String, Type)>)
    requires
        forall|i: int|
            0 <= i < p@.type_names.len() ==> (#[trigger] p@.type_names[i]).1.idx < p@.types.len(),
    ensures
        wf_fields(fields_view(r@), p@.types.len() as int),
        ({
            let (e1, fv) = spec_lower_fields(p@.type_names, fields@);
            &&& final(errs)@ == old(errs)@ + e1
            &&& fields_view(r@) == fv
        }),
{
    let ghost table = p@.type_names;
    let ghost n = fields@.len() as int;
    let ghost errs0 = errs@;
    let mut fs: Vec<(String, Type)> = Vec::new();
    let mut j: usize = 0;
    proof {
        assert(fields@.subrange(0, n) =~= fields@);
        assert(fields_view(fs@) + Seq::<(Seq<char>, TypeView)>::empty() =~= fields_view(fs@));
    }
    while j < fields.len()
        invariant
            j <= n,
            forall|i: int|
                0 <= i < fs@.len() ==> wf_type(
                    type_view((#[trigger] fs@[i]).1),
                    p@.types.len() as int,
                ),
            ({
                let (e_l, f_l) = spec_lower_fields(table, fields@.subrange(j as int, n));
                let (e_f, f_f) = spec_lower_fields(table, fields@);
                &&& errs@ + e_l == errs0 + e_f
                &&& f_f == fields_view(fs@) + f_l
            }),
        decreases n - j,
    {
        proof {
            let sub = fields@.subrange(j as int, n);
            assert(sub[0] == fields@[j as int]);
            assert(sub.subrange(1, sub.len() as int) =~= fields@.subrange(j as int + 1, n));
        }
        let ghost fs0 = fs@;
        let ghost errs_b = errs@;
        let t = match lower_type(p, &fields[j].1, errs) {
            Some(t) => t,
            None => Type::Undeclared,
        };
        let ghost tv = t@;
        fs.push((fields[j].0.clone(), t));
        proof {
            lemma_fields_view(fs0);
            lemma_fields_view(fs@);
            assert(fields_view(fs@) =~= fields_view(fs0) + seq![(fields@[j as int].0@, tv)]);
            let (e_i, _t_i) = spec_lower_type(table, fields@[j as int].1);
            let (e_l, f_l) = spec_lower_fields(table, fields@.subrange(j as int + 1, n));
            assert((errs_b + e_i) + e_l =~= errs_b + (e_i + e_l));
            assert((fields_view(fs0) + seq![(fields@[j as int].0@, tv)]) + f_l =~= fields_view(
                fs0,
            ) + (seq![(fields@[j as int].0@, tv)] + f_l));
        }
        j += 1;
    }
    proof {
        assert(fields@.subrange(n, n) =~= Seq::<(String, AstType)>::empty());
        assert(errs@ + Seq::<LoweringError>::empty() =~= errs@);
        assert(fields_view(fs@) + Seq::<(Seq<char>, TypeView)>::empty() =~= fields_view(fs@));
        lemma_fields_view(fs@);
        assert forall|i: int| 0 <= i < fields_view(fs@).len() implies wf_type(
            (#[trigger] fields_view(fs@)[i]).1,
            p@.types.len() as int,
        ) by {
            assert(fields_view(fs@)[i] == (fs@[i].0@, type_view(fs@[i].1)));
        }
    }
    fs
}

/// Lower a declared parameter list, keeping names and outward names.
#[verifier::loop_isolation(false)]
fn lower_param_list(
    p: &Program,
    params: &Vec<AstParam>,
    errs: &mut Vec<LoweringError>,
) -> (r: Vec<Param>)
    requires
        forall|i: int|
            0 <= i < p@.type_names.len() ==> (#[trigger] p@.type_names[i]).1.idx < p@.types.len(),
    ensures
        forall|i: int|
            0 <= i < r@.len() ==> wf_type(
                (#[trigger] params_view(r@)[i]).ty,
                p@.types.len() as int,
            ),
        ({
            let (e1, psv) = spec_lower_params(p@.type_names, params@);
            &&& final(errs)@ == old(errs)@ + e1
            &&& params_view(r@) == psv
        }),
{
    let ghost table = p@.type_names;
    let ghost n = params@.len() as int;
    let ghost errs0 = errs@;
    let mut ps: Vec<Param> = Vec::new();
    let mut j: usize = 0;
    proof {
        assert(params@.subrange(0, n) =~= params@);
        assert(params_view(ps@) + Seq::<ParamView>::empty() =~= params_view(ps@));
    }
    while j < params.len()
        invariant
            j <= n,
            forall|i: int|
                0 <= i < ps@.len() ==> wf_type(
                    type_view((#[trigger] ps@[i]).ty),
                    p@.types.len() as int,
                ),
            ({
                let (e_l, p_l) = spec_lower_params(table, params@.subrange(j as int, n));
                let (e_f, p_f) = spec_lower_params(table, params@);
                &&& errs@ + e_l == errs0 + e_f
                &&& p_f == params_view(ps@) + p_l
            }),
        decreases n - j,
    {
        proof {
            let sub = params@.subrange(j as int, n);
            assert(sub[0] == params@[j as int]);
            assert(sub.subrange(1, sub.len() as int) =~= params@.subrange(j as int + 1, n));
        }
        let ghost ps0 = ps@;
        let ghost errs_b = errs@;
        let t = match lower_type(p, &params[j].ty, errs) {
            Some(t) => t,
            None => Type::Undeclared,
        };
        let ghost tv = t@;
        let on = match &params[j].outward_name {
            Some(n2) => Some(n2.clone()),
            None => None,
        };
        ps.push(Param { outward_name: on, name: params[j].name.clone(), ty: t });
        proof {
            let ghost entry = ParamView {
                outward_name: match params@[j as int].outward_name {
                    Some(n2) => Some(n2@),
                    None => None::<Seq<char>>,
                },
                name: params@[j as int].name@,
                ty: tv,
            };
            assert(params_view(ps@) =~= params_view(ps0) + seq![entry]);
            let (e_i, _t_i) = spec_lower_type(table, params@[j as int].ty);
            let (e_l, p_l) = spec_lower_params(table, params@.subrange(j as int + 1, n));
            assert((errs_b + e_i) + e_l =~= errs_b + (e_i + e_l));
            assert((params_view(ps0) + seq![entry]) + p_l =~= params_view(ps0) + (seq![entry]
                + p_l));
        }
        j += 1;
    }
    proof {
        assert(params@.subrange(n, n) =~= Seq::<AstParam>::empty());
        assert(errs@ + Seq::<LoweringError>::empty() =~= errs@);
        assert(params_view(ps@) + Seq::<ParamView>::empty() =~= params_view(ps@));
        assert forall|i: int| 0 <= i < ps@.len() implies wf_type(
            (#[trigger] params_view(ps@)[i]).ty,
            p@.types.len() as int,
        ) by {
            assert(params_view(ps@)[i] == crate::ir::param_view(ps@[i]));
        }
    }
    ps
}

} // verus!
