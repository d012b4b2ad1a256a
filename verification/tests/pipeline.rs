use midlang::AstArg;
use midlang::AstBlock;
use midlang::AstExpr;
use midlang::AstItem;
use midlang::AstParam;
use midlang::AstProgram;
use midlang::AstStmt;
use midlang::AstType;
use midlang::AstValue;
use midlang::BinOp;
use midlang::DirectType;
use midlang::LoweringError;
use midlang::PrimitiveType;
use midlang::Program;
use midlang::Span;
use midlang::TypeError;
use midlang::UnaryOp;

fn sp(n: usize) -> Span {
    Span { start: n, end: n + 1 }
}

fn i32_ast() -> AstType {
    AstType::Primitive(PrimitiveType::I32)
}

fn num(n: i32, k: usize) -> AstExpr {
    AstExpr::Value(AstValue::Num(n, sp(k)))
}

fn var(name: &str, k: usize) -> AstValue {
    AstValue::Name(name.to_string(), sp(k))
}

fn point_struct() -> AstItem {
    AstItem::Struct {
        name: "Point".to_string(),
        fields: vec![("x".to_string(), i32_ast()), ("y".to_string(), i32_ast())],
        span: sp(0),
    }
}

/// `void f(p: Ptr(Point)) { p->x = 5 }`
fn point_field_fn(field: &str) -> AstItem {
    AstItem::Function {
        name: "f".to_string(),
        ret: AstType::Unit,
        params: vec![AstParam {
            outward_name: None,
            name: "p".to_string(),
            ty: AstType::Ptr(Box::new(AstType::Named("Point".to_string(), sp(1)))),
        }],
        body: AstBlock {
            stmts: vec![AstStmt::FieldAssign {
                object: AstExpr::Value(var("p", 2)),
                field: field.to_string(),
                value: num(5, 3),
                span: sp(4),
            }],
        },
        span: sp(1),
    }
}

fn check(ast: AstProgram) -> (Program, Vec<TypeError>) {
    let mut p = Program::lower(&ast).unwrap();
    assert!(p.check_wf());
    let errs = p.typecheck();
    (p, errs)
}

#[test]
fn point_field_assign_through_pointer() {
    let ast = AstProgram { items: vec![point_struct(), point_field_fn("x")] };
    let (_, errs) = check(ast);
    assert_eq!(errs, vec![]);
}

#[test]
fn zero_arg_call_yields_one_arity_mismatch() {
    let caller = AstItem::Function {
        name: "g".to_string(),
        ret: AstType::Unit,
        params: vec![],
        body: AstBlock {
            stmts: vec![AstStmt::Do {
                expr: AstExpr::Call("f".to_string(), vec![], sp(8)),
            }],
        },
        span: sp(7),
    };
    let ast = AstProgram { items: vec![point_struct(), point_field_fn("x"), caller] };
    let (_, errs) = check(ast);
    assert_eq!(errs, vec![TypeError::ArityMismatch(sp(8))]);
}

#[test]
fn loop_break_without_return_yields_one_missing_return_value() {
    let f = AstItem::Function {
        name: "h".to_string(),
        ret: i32_ast(),
        params: vec![],
        body: AstBlock {
            stmts: vec![AstStmt::Loop {
                block: AstBlock {
                    stmts: vec![AstStmt::Do { expr: AstExpr::Break(sp(2)) }],
                },
                span: sp(3),
            }],
        },
        span: sp(1),
    };
    let ast = AstProgram { items: vec![f] };
    let (_, errs) = check(ast);
    // `break` itself is legal inside the loop; the only error is the
    // fall-through of the I32 function, at the last statement's span.
    assert_eq!(errs, vec![TypeError::MissingReturnValue(sp(3))]);
}

#[test]
fn inference_once_then_mismatch() {
    let f = AstItem::Function {
        name: "f".to_string(),
        ret: AstType::Unit,
        params: vec![],
        body: AstBlock {
            stmts: vec![
                AstStmt::Declare {
                    name: "x".to_string(),
                    ty: None,
                    value: num(1, 2),
                    span: sp(2),
                },
                AstStmt::Assign {
                    name: "x".to_string(),
                    value: AstExpr::Value(AstValue::Unit(sp(3))),
                    span: sp(4),
                },
            ],
        },
        span: sp(1),
    };
    let ast = AstProgram { items: vec![f] };
    let (_, errs) = check(ast);
    assert_eq!(errs, vec![TypeError::TypeMismatch(sp(4))]);
}

#[test]
fn never_assigns_into_any_type() {
    let f = AstItem::Function {
        name: "f".to_string(),
        ret: i32_ast(),
        params: vec![],
        body: AstBlock {
            stmts: vec![
                AstStmt::Declare {
                    name: "x".to_string(),
                    ty: Some(i32_ast()),
                    value: num(0, 2),
                    span: sp(2),
                },
                AstStmt::Assign {
                    name: "x".to_string(),
                    value: AstExpr::Return(Some(AstValue::Num(5, sp(3))), sp(4)),
                    span: sp(5),
                },
            ],
        },
        span: sp(1),
    };
    let ast = AstProgram { items: vec![f] };
    let (_, errs) = check(ast);
    assert_eq!(errs, vec![]);
}

#[test]
fn pointer_round_trip_types_back_to_i32() {
    let f = AstItem::Function {
        name: "f".to_string(),
        ret: AstType::Unit,
        params: vec![AstParam { outward_name: None, name: "x".to_string(), ty: i32_ast() }],
        body: AstBlock {
            stmts: vec![
                AstStmt::Declare {
                    name: "p".to_string(),
                    ty: None,
                    value: AstExpr::UnaryOp(UnaryOp::AddressOf, var("x", 2), sp(2)),
                    span: sp(2),
                },
                AstStmt::Declare {
                    name: "y".to_string(),
                    ty: Some(i32_ast()),
                    value: AstExpr::UnaryOp(UnaryOp::Deref, var("p", 3), sp(3)),
                    span: sp(3),
                },
            ],
        },
        span: sp(1),
    };
    let ast = AstProgram { items: vec![f] };
    let (_, errs) = check(ast);
    assert_eq!(errs, vec![]);
}

#[test]
fn unknown_field_assignment_leaves_struct_unchanged() {
    let ast = AstProgram { items: vec![point_struct(), point_field_fn("z")] };
    let (p, errs) = check(ast);
    assert_eq!(errs, vec![TypeError::UnknownField(sp(4))]);
    match &p.types[0] {
        DirectType::Struct { fields } => {
            assert_eq!(fields.len(), 2);
            assert_eq!(fields[0].0, "x");
            assert_eq!(fields[1].0, "y");
        }
        _ => panic!("Point is not a struct"),
    }
}

#[test]
fn named_argument_binds_by_outward_name() {
    let print_fn = AstItem::Function {
        name: "print".to_string(),
        ret: AstType::Unit,
        params: vec![AstParam {
            outward_name: Some("msg".to_string()),
            name: "str".to_string(),
            ty: AstType::Slice(Box::new(AstType::Primitive(PrimitiveType::U8))),
        }],
        body: AstBlock { stmts: vec![] },
        span: sp(1),
    };
    let caller = AstItem::Function {
        name: "main".to_string(),
        ret: AstType::Unit,
        params: vec![],
        body: AstBlock {
            stmts: vec![AstStmt::Do {
                expr: AstExpr::Call(
                    "print".to_string(),
                    vec![AstArg {
                        name: Some("msg".to_string()),
                        value: AstValue::Str("hello".to_string(), sp(3)),
                    }],
                    sp(4),
                ),
            }],
        },
        span: sp(2),
    };
    let ast = AstProgram { items: vec![print_fn, caller] };
    let (p, errs) = check(ast);
    assert_eq!(errs, vec![]);
    assert_eq!(p.literals, vec!["hello".to_string()]);
}

#[test]
fn enum_member_access() {
    let e = AstItem::Enum {
        name: "Color".to_string(),
        variants: vec![("Red".to_string(), 0), ("Blue".to_string(), 7)],
        span: sp(0),
    };
    let f = AstItem::Function {
        name: "f".to_string(),
        ret: AstType::Unit,
        params: vec![],
        body: AstBlock {
            stmts: vec![AstStmt::Declare {
                name: "c".to_string(),
                ty: Some(AstType::Named("Color".to_string(), sp(2))),
                value: AstExpr::PathAccess("Color".to_string(), "Blue".to_string(), sp(3)),
                span: sp(4),
            }],
        },
        span: sp(1),
    };
    let ast = AstProgram { items: vec![e, f] };
    let (_, errs) = check(ast);
    assert_eq!(errs, vec![]);
}

#[test]
fn enum_unknown_member() {
    let e = AstItem::Enum {
        name: "Color".to_string(),
        variants: vec![("Red".to_string(), 0)],
        span: sp(0),
    };
    let f = AstItem::Function {
        name: "f".to_string(),
        ret: AstType::Unit,
        params: vec![],
        body: AstBlock {
            stmts: vec![AstStmt::Do {
                expr: AstExpr::PathAccess("Color".to_string(), "Green".to_string(), sp(3)),
            }],
        },
        span: sp(1),
    };
    let ast = AstProgram { items: vec![e, f] };
    let (_, errs) = check(ast);
    assert_eq!(errs, vec![TypeError::UnknownField(sp(3))]);
}

#[test]
fn if_condition_must_be_bool() {
    let f = AstItem::Function {
        name: "f".to_string(),
        ret: AstType::Unit,
        params: vec![],
        body: AstBlock {
            stmts: vec![AstStmt::If {
                cond: num(1, 2),
                block: AstBlock { stmts: vec![] },
                else_block: None,
                span: sp(3),
            }],
        },
        span: sp(1),
    };
    let ast = AstProgram { items: vec![f] };
    let (_, errs) = check(ast);
    assert_eq!(errs, vec![TypeError::TypeMismatch(sp(2))]);
}

#[test]
fn break_outside_loop_is_illegal() {
    let f = AstItem::Function {
        name: "f".to_string(),
        ret: AstType::Unit,
        params: vec![],
        body: AstBlock {
            stmts: vec![AstStmt::Do { expr: AstExpr::Break(sp(2)) }],
        },
        span: sp(1),
    };
    let ast = AstProgram { items: vec![f] };
    let (_, errs) = check(ast);
    assert_eq!(errs, vec![TypeError::IllegalBreakOrContinue(sp(2))]);
}

#[test]
fn deref_assignment() {
    let ok = AstItem::Function {
        name: "f".to_string(),
        ret: AstType::Unit,
        params: vec![AstParam {
            outward_name: None,
            name: "p".to_string(),
            ty: AstType::Ptr(Box::new(i32_ast())),
        }],
        body: AstBlock {
            stmts: vec![AstStmt::DerefAssign {
                target: AstExpr::Value(var("p", 2)),
                value: num(4, 3),
                span: sp(4),
            }],
        },
        span: sp(1),
    };
    let ast = AstProgram { items: vec![ok] };
    let (_, errs) = check(ast);
    assert_eq!(errs, vec![]);

    let bad = AstItem::Function {
        name: "g".to_string(),
        ret: AstType::Unit,
        params: vec![AstParam { outward_name: None, name: "x".to_string(), ty: i32_ast() }],
        body: AstBlock {
            stmts: vec![AstStmt::DerefAssign {
                target: AstExpr::Value(var("x", 2)),
                value: num(4, 3),
                span: sp(4),
            }],
        },
        span: sp(1),
    };
    let ast = AstProgram { items: vec![bad] };
    let (_, errs) = check(ast);
    assert_eq!(errs, vec![TypeError::NotAPointer(sp(4))]);
}

#[test]
fn lowering_reports_unknown_names() {
    let f = AstItem::Function {
        name: "f".to_string(),
        ret: AstType::Unit,
        params: vec![],
        body: AstBlock {
            stmts: vec![
                AstStmt::Assign { name: "nope".to_string(), value: num(1, 2), span: sp(3) },
                AstStmt::Do { expr: AstExpr::Call("missing".to_string(), vec![], sp(4)) },
                AstStmt::Declare {
                    name: "x".to_string(),
                    ty: Some(AstType::Named("NoSuch".to_string(), sp(5))),
                    value: num(0, 6),
                    span: sp(7),
                },
            ],
        },
        span: sp(1),
    };
    let ast = AstProgram { items: vec![f] };
    let errs = Program::lower(&ast).unwrap_err();
    assert!(errs.contains(&LoweringError::UnknownVariable(sp(3))));
    assert!(errs.contains(&LoweringError::UnknownFunction(sp(4))));
    assert!(errs.contains(&LoweringError::UnknownType(sp(5))));
}

#[test]
fn lowering_reports_duplicate_struct() {
    let ast = AstProgram {
        items: vec![
            point_struct(),
            AstItem::Struct { name: "Point".to_string(), fields: vec![], span: sp(9) },
        ],
    };
    let errs = Program::lower(&ast).unwrap_err();
    assert_eq!(errs, vec![LoweringError::DuplicateType(sp(9))]);
}

#[test]
fn shadowing_resolves_to_innermost_declaration() {
    // { i32 x = 1; { u8 x = ---; x = 3; } x = 4; } -- both assignments
    // check against the declaration in scope at that point.
    let f = AstItem::Function {
        name: "f".to_string(),
        ret: AstType::Unit,
        params: vec![],
        body: AstBlock {
            stmts: vec![
                AstStmt::Declare {
                    name: "x".to_string(),
                    ty: Some(i32_ast()),
                    value: num(1, 2),
                    span: sp(2),
                },
                AstStmt::Block {
                    block: AstBlock {
                        stmts: vec![
                            AstStmt::Declare {
                                name: "x".to_string(),
                                ty: Some(AstType::Primitive(PrimitiveType::U8)),
                                value: AstExpr::Value(AstValue::Uninit(sp(3))),
                                span: sp(3),
                            },
                            AstStmt::Assign {
                                name: "x".to_string(),
                                value: num(3, 4),
                                span: sp(5),
                            },
                        ],
                    },
                    span: sp(6),
                },
                AstStmt::Assign { name: "x".to_string(), value: num(4, 7), span: sp(8) },
            ],
        },
        span: sp(1),
    };
    let ast = AstProgram { items: vec![f] };
    let (_, errs) = check(ast);
    // The inner assignment targets the U8 shadow, so the I32 literal 3 does
    // not fit there; the outer assignment is fine again.
    assert_eq!(errs, vec![TypeError::TypeMismatch(sp(5))]);
}

#[test]
fn fizzbuzz_like_program_typechecks() {
    // The shape of the demo program: a struct, a print function with a
    // named parameter, and a counting loop with else-if chains.
    let vec2 = AstItem::Struct {
        name: "Vec2".to_string(),
        fields: vec![("x".to_string(), i32_ast()), ("y".to_string(), i32_ast())],
        span: sp(0),
    };
    let print_fn = AstItem::Function {
        name: "print".to_string(),
        ret: AstType::Unit,
        params: vec![AstParam {
            outward_name: Some("msg".to_string()),
            name: "str".to_string(),
            ty: AstType::Slice(Box::new(AstType::Primitive(PrimitiveType::U8))),
        }],
        body: AstBlock { stmts: vec![] },
        span: sp(1),
    };
    let print_call = |text: &str, k: usize| AstStmt::Do {
        expr: AstExpr::Call(
            "print".to_string(),
            vec![AstArg {
                name: Some("msg".to_string()),
                value: AstValue::Str(text.to_string(), sp(k)),
            }],
            sp(k),
        ),
    };
    let cond_mod = |n: i32, k: usize| AstStmt::Declare {
        name: format!("m{}", n),
        ty: None,
        value: AstExpr::BinOp(var("i", k), BinOp::Mod, AstValue::Num(n, sp(k)), sp(k)),
        span: sp(k),
    };
    let is_zero = |n: i32, k: usize| {
        AstExpr::BinOp(var(&format!("m{}", n), k), BinOp::Eq, AstValue::Num(0, sp(k)), sp(k))
    };
    let main_fn = AstItem::Function {
        name: "main".to_string(),
        ret: AstType::Unit,
        params: vec![],
        body: AstBlock {
            stmts: vec![
                AstStmt::Declare {
                    name: "i".to_string(),
                    ty: Some(i32_ast()),
                    value: num(0, 3),
                    span: sp(3),
                },
                AstStmt::Loop {
                    block: AstBlock {
                        stmts: vec![
                            AstStmt::Declare {
                                name: "big".to_string(),
                                ty: None,
                                value: AstExpr::BinOp(
                                    var("i", 4),
                                    BinOp::Ge,
                                    AstValue::Num(100, sp(4)),
                                    sp(4),
                                ),
                                span: sp(4),
                            },
                            AstStmt::If {
                                cond: AstExpr::Value(var("big", 5)),
                                block: AstBlock {
                                    stmts: vec![AstStmt::Do { expr: AstExpr::Break(sp(6)) }],
                                },
                                else_block: None,
                                span: sp(5),
                            },
                            cond_mod(15, 7),
                            cond_mod(3, 8),
                            cond_mod(5, 9),
                            AstStmt::If {
                                cond: is_zero(15, 10),
                                block: AstBlock { stmts: vec![print_call("fizzbuzz", 11)] },
                                else_block: Some(AstBlock {
                                    stmts: vec![AstStmt::If {
                                        cond: is_zero(3, 12),
                                        block: AstBlock {
                                            stmts: vec![print_call("fizz", 13)],
                                        },
                                        else_block: Some(AstBlock {
                                            stmts: vec![AstStmt::If {
                                                cond: is_zero(5, 14),
                                                block: AstBlock {
                                                    stmts: vec![print_call("buzz", 15)],
                                                },
                                                else_block: Some(AstBlock {
                                                    stmts: vec![print_call("num", 16)],
                                                }),
                                                span: sp(14),
                                            }],
                                        }),
                                        span: sp(12),
                                    }],
                                }),
                                span: sp(10),
                            },
                        ],
                    },
                    span: sp(17),
                },
            ],
        },
        span: sp(2),
    };
    let ast = AstProgram { items: vec![vec2, print_fn, main_fn] };
    let (p, errs) = check(ast);
    assert_eq!(errs, vec![]);
    assert_eq!(p.functions.len(), 2);
    assert_eq!(p.literals.len(), 4);
}

#[test]
fn operator_typing_rules() {
    // x && 1 is a logic error; -x on Bool is a mismatch; !b on Bool is fine.
    let f = AstItem::Function {
        name: "f".to_string(),
        ret: AstType::Unit,
        params: vec![
            AstParam { outward_name: None, name: "x".to_string(), ty: i32_ast() },
            AstParam {
                outward_name: None,
                name: "b".to_string(),
                ty: AstType::Primitive(PrimitiveType::Bool),
            },
        ],
        body: AstBlock {
            stmts: vec![
                AstStmt::Declare {
                    name: "s".to_string(),
                    ty: None,
                    value: AstExpr::BinOp(var("x", 2), BinOp::Add, var("x", 2), sp(2)),
                    span: sp(2),
                },
                AstStmt::Do {
                    expr: AstExpr::BinOp(var("x", 3), BinOp::LogicAnd, var("x", 3), sp(3)),
                },
                AstStmt::Do { expr: AstExpr::UnaryOp(UnaryOp::Negate, var("b", 4), sp(4)) },
                AstStmt::Do { expr: AstExpr::UnaryOp(UnaryOp::Not, var("b", 5), sp(5)) },
                AstStmt::Do {
                    expr: AstExpr::BinOp(var("x", 6), BinOp::And, var("x", 6), sp(6)),
                },
            ],
        },
        span: sp(1),
    };
    let ast = AstProgram { items: vec![f] };
    let (_, errs) = check(ast);
    assert_eq!(
        errs,
        vec![TypeError::TypeMismatch(sp(3)), TypeError::TypeMismatch(sp(4))]
    );
}

#[test]
fn uninit_marker_keeps_static_type() {
    // i32 x = ---; x = 1 is fine; x = () is still a mismatch.
    let f = AstItem::Function {
        name: "f".to_string(),
        ret: AstType::Unit,
        params: vec![],
        body: AstBlock {
            stmts: vec![
                AstStmt::Declare {
                    name: "x".to_string(),
                    ty: Some(i32_ast()),
                    value: AstExpr::Value(AstValue::Uninit(sp(2))),
                    span: sp(2),
                },
                AstStmt::Assign { name: "x".to_string(), value: num(1, 3), span: sp(3) },
                AstStmt::Assign {
                    name: "x".to_string(),
                    value: AstExpr::Value(AstValue::Unit(sp(4))),
                    span: sp(5),
                },
            ],
        },
        span: sp(1),
    };
    let ast = AstProgram { items: vec![f] };
    let (_, errs) = check(ast);
    assert_eq!(errs, vec![TypeError::TypeMismatch(sp(5))]);
}

#[test]
fn alias_lowering_resolves_named_types() {
    // type P = Ptr(Point); declared before and after Point both resolve.
    let alias = AstItem::Alias {
        name: "P".to_string(),
        ty: AstType::Ptr(Box::new(AstType::Named("Point".to_string(), sp(0)))),
        span: sp(0),
    };
    let ast = AstProgram { items: vec![alias, point_struct()] };
    let mut p = Program::lower(&ast).unwrap();
    assert!(p.check_wf());
    assert_eq!(p.typecheck(), vec![]);
    assert_eq!(p.types.len(), 2);
}
