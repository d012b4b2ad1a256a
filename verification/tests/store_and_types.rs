use midlang::assignable;
use midlang::type_eq;
use midlang::Block;
use midlang::DirectType;
use midlang::Expr;
use midlang::Function;
use midlang::FunctionDecl;
use midlang::LoweringError;
use midlang::PrimitiveType;
use midlang::Program;
use midlang::Span;
use midlang::Statement;
use midlang::Type;
use midlang::TypeError;
use midlang::TypeKey;
use midlang::Value;
use midlang::Var;
use midlang::Variable;

fn sp(n: usize) -> Span {
    Span { start: n, end: n + 1 }
}

fn i32_ty() -> Type {
    Type::Primitive(PrimitiveType::I32)
}

#[test]
fn type_eq_primitives() {
    assert!(type_eq(&i32_ty(), &i32_ty()));
    assert!(!type_eq(
        &i32_ty(),
        &Type::Primitive(PrimitiveType::F32)
    ));
    assert!(!type_eq(&i32_ty(), &Type::Unit));
    assert!(type_eq(&Type::Never, &Type::Never));
}

#[test]
fn type_eq_compound() {
    let p1 = Type::Ptr(Box::new(Type::Ptr(Box::new(i32_ty()))));
    let p2 = Type::Ptr(Box::new(Type::Ptr(Box::new(i32_ty()))));
    assert!(type_eq(&p1, &p2));
    let p3 = Type::Ptr(Box::new(i32_ty()));
    assert!(!type_eq(&p1, &p3));

    let f1 = Type::Func {
        ret: Box::new(Type::Unit),
        params: vec![i32_ty(), Type::Primitive(PrimitiveType::Bool)],
    };
    let f2 = Type::Func {
        ret: Box::new(Type::Unit),
        params: vec![i32_ty(), Type::Primitive(PrimitiveType::Bool)],
    };
    let f3 = Type::Func {
        ret: Box::new(Type::Unit),
        params: vec![i32_ty()],
    };
    assert!(type_eq(&f1, &f2));
    assert!(!type_eq(&f1, &f3));

    let a1 = Type::Array { ty: Box::new(i32_ty()), len: 3 };
    let a2 = Type::Array { ty: Box::new(i32_ty()), len: 4 };
    assert!(!type_eq(&a1, &a2));
}

#[test]
fn type_eq_direct_keys_by_identity() {
    let d0 = Type::Direct(TypeKey { idx: 0 });
    let d0b = Type::Direct(TypeKey { idx: 0 });
    let d1 = Type::Direct(TypeKey { idx: 1 });
    assert!(type_eq(&d0, &d0b));
    assert!(!type_eq(&d0, &d1));
}

#[test]
fn never_assignable_to_every_type() {
    assert!(assignable(&Type::Never, &i32_ty()));
    assert!(assignable(&Type::Never, &Type::Unit));
    assert!(assignable(
        &Type::Never,
        &Type::Ptr(Box::new(Type::Slice(Box::new(i32_ty()))))
    ));
}

#[test]
fn uninit_assignable_everywhere_but_not_the_reverse() {
    assert!(assignable(&Type::Uninit, &i32_ty()));
    assert!(!assignable(&i32_ty(), &Type::Uninit));
    assert!(!assignable(
        &i32_ty(),
        &Type::Primitive(PrimitiveType::U8)
    ));
}

#[test]
fn duplicate_type_keeps_first_entry() {
    let mut p = Program::new();
    let k1 = p
        .declare_type(
            "Point".to_string(),
            DirectType::Enum { variants: vec![("A".to_string(), 7)] },
            sp(1),
        )
        .unwrap();
    assert_eq!(k1, TypeKey { idx: 0 });
    let r2 = p.declare_type(
        "Point".to_string(),
        DirectType::Type(Type::Unit),
        sp(2),
    );
    assert_eq!(r2, Err(LoweringError::DuplicateType(sp(2))));
    assert_eq!(p.types.len(), 1);
    match &p.types[0] {
        DirectType::Enum { variants } => {
            assert_eq!(variants.len(), 1);
            assert_eq!(variants[0].0, "A");
            assert_eq!(variants[0].1, 7);
        }
        _ => panic!("first declaration was not retained"),
    }
}

#[test]
fn duplicate_function_keeps_first_entry() {
    let mut p = Program::new();
    let d = |n: usize| FunctionDecl { ret: Type::Unit, params: Vec::new(), span: sp(n) };
    let k1 = p.declare_function("f".to_string(), d(1), sp(1)).unwrap();
    assert_eq!(k1.idx, 0);
    let r2 = p.declare_function("f".to_string(), d(2), sp(2));
    assert_eq!(r2, Err(LoweringError::DuplicateFunction(sp(2))));
    assert_eq!(p.functions.len(), 1);
    assert_eq!(p.function_decls.len(), 1);
    assert_eq!(p.function_decls[0].span, sp(1));
}

#[test]
fn literals_are_not_deduplicated() {
    let mut p = Program::new();
    let k1 = p.intern_literal("abc".to_string());
    let k2 = p.intern_literal("abc".to_string());
    assert_ne!(k1, k2);
    assert_eq!(p.literals.len(), 2);
}

#[test]
fn uninferred_variable_is_reported() {
    let mut p = Program::new();
    let decl = FunctionDecl { ret: Type::Unit, params: Vec::new(), span: sp(0) };
    let k = p.declare_function("f".to_string(), decl, sp(0)).unwrap();
    p.set_function(
        k,
        Function {
            variables: vec![Variable { ty: Type::Undeclared, span: sp(9) }],
            body: Block { stmts: Vec::new() },
        },
    );
    assert!(p.check_wf());
    let errs = p.typecheck();
    assert_eq!(errs, vec![TypeError::UninferredVariable(sp(9))]);
}

#[test]
fn span_helpers() {
    let v = Value::Num(3, sp(4));
    assert_eq!(v.span(), sp(4));
    assert_eq!(v.with_span(sp(7)).span(), sp(7));
    let e = v.expr();
    assert_eq!(e.span(), sp(4));
    let st = Statement::Do(Expr::Break(sp(5)));
    assert_eq!(st.span(), sp(5));
    let b = Block {
        stmts: vec![
            Statement::Do(Expr::Continue(sp(1))),
            Statement::Loop(Block { stmts: Vec::new() }, sp(2)),
        ],
    };
    assert_eq!(b.last_expr_span(), sp(2));
    let st2 = Statement::Assign(Var { idx: 0 }, Expr::Value(Value::Unit(sp(9))), sp(6));
    assert_eq!(st2.span(), sp(6));
}
