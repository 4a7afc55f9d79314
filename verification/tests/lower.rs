use swcc::body::Stmt;
use swcc::checker::{CheckCtx, Local};
use swcc::expressions::{AssignOp, Expr, PostfixOp, UnaryOp};
use swcc::lower::{lower_expr, lower_stmt, lower_stmts, BodyLower, Frame, LowerCtx, Sink};
use swcc::lowering::BinaryOp;
use swcc::mir::{MirBinary, MirCallee, MirExpr, MirStmt, MirStmtKind, MirTarget, MirUnary};
use swcc::symbols::{FieldInfo, FunctionSig, ModuleId, ParamSig, Span, StructInfo, SymbolId, TypeTable};
use swcc::types::Type;

fn span() -> Span {
    Span { start: 0, end: 0 }
}

fn sig(name: &str, params: Vec<Type>, ret: Type) -> FunctionSig {
    FunctionSig {
        module: ModuleId(0),
        name: name.to_string(),
        generics: Vec::new(),
        params: params.into_iter().map(|ty| ParamSig { name: "p".to_string(), ty, has_default: false, rest: false }).collect(),
        ret,
        extern_c: false,
        span: span(),
    }
}

fn ctx() -> LowerCtx {
    LowerCtx {
        check: CheckCtx {
            types: TypeTable {
                structs: vec![StructInfo {
                    module: ModuleId(0),
                    name: "P".to_string(),
                    generics: Vec::new(),
                    fields: vec![
                        FieldInfo { name: "x".to_string(), ty: Type::Int, mutable: true, span: span() },
                        FieldInfo { name: "y".to_string(), ty: Type::Int, mutable: true, span: span() },
                    ],
                }],
                enums: Vec::new(),
                classes: Vec::new(),
                interfaces: Vec::new(),
                class_interfaces: Vec::new(),
                generic_struct_instances: Vec::new(),
                generic_class_instances: Vec::new(),
            },
            globals: vec![Local { name: "g".to_string(), ty: Type::Int, mutable: true }],
            functions: vec![("twice".to_string(), vec![(SymbolId(1), sig("twice", vec![Type::Int], Type::Int))])],
            this_class: None,
        },
        module: 0,
        stems: vec!["app".to_string()],
        globals: vec!["g".to_string()],
        type_args: Vec::new(),
    }
}

fn frame() -> Frame {
    Frame {
        slots: vec![vec![("n".to_string(), 0), ("s".to_string(), 1), ("p".to_string(), 2)]],
        scopes: vec![vec![
            Local { name: "n".to_string(), ty: Type::Int, mutable: true },
            Local { name: "s".to_string(), ty: Type::Str, mutable: true },
            Local { name: "p".to_string(), ty: Type::Struct(0), mutable: true },
        ]],
    }
}

fn sink() -> Sink {
    Sink { strings: Vec::new(), errors: Vec::new() }
}

fn id(s: &str) -> Expr {
    Expr::Ident(s.to_string())
}

fn num(n: &str) -> Expr {
    Expr::Integer { text: n.to_string(), suffix: None }
}

fn lower(e: &Expr) -> (MirExpr, Sink) {
    let mut k = sink();
    let r = lower_expr(&ctx(), &frame(), &mut k, e);
    (r, k)
}

fn intrinsic(e: &MirExpr) -> Option<&str> {
    match e {
        MirExpr::Call { callee: MirCallee::Intrinsic { name }, .. } => Some(name.as_str()),
        _ => None,
    }
}

#[test]
fn power_lowers_to_the_runtime() {
    let (r, k) = lower(&Expr::Binary { op: BinaryOp::Pow, left: Box::new(id("n")), right: Box::new(num("3")) });
    assert_eq!(intrinsic(&r), Some("pow_i64"));
    match r {
        MirExpr::Call { args, .. } => assert!(matches!(args.as_slice(), [MirExpr::Local(0), MirExpr::Int(3)])),
        _ => panic!("expected a call"),
    }
    assert!(k.errors.is_empty());
}

#[test]
fn increments_lower_to_assignments_that_yield_a_value() {
    let (r, _) = lower(&Expr::Unary { op: UnaryOp::Inc, expr: Box::new(id("n")) });
    match r {
        MirExpr::Assign { target: MirTarget::Local(0), value } => {
            assert!(matches!(*value, MirExpr::Binary { op: MirBinary::Add, .. }))
        },
        _ => panic!("expected an assignment"),
    }
    let (p, _) = lower(&Expr::Postfix { expr: Box::new(id("g")), op: PostfixOp::Dec });
    assert!(matches!(p, MirExpr::Postfix { target: MirTarget::Global(0), op: MirUnary::Dec }));
}

#[test]
fn compound_assignment_reads_the_target() {
    let e = Expr::Assign { op: AssignOp::Mul, target: Box::new(id("n")), value: Box::new(num("2")) };
    let (r, _) = lower(&e);
    match r {
        MirExpr::Assign { target: MirTarget::Local(0), value } => match *value {
            MirExpr::Binary { op: MirBinary::Mul, left, right } => {
                assert!(matches!(*left, MirExpr::Local(0)));
                assert!(matches!(*right, MirExpr::Int(2)));
            },
            _ => panic!("expected a product"),
        },
        _ => panic!("expected an assignment"),
    }
    let cat = Expr::Assign { op: AssignOp::Add, target: Box::new(id("s")), value: Box::new(num("1")) };
    let (r, _) = lower(&cat);
    match r {
        MirExpr::Assign { value, .. } => assert_eq!(intrinsic(&value), Some("string_concat")),
        _ => panic!("expected an assignment"),
    }
}

#[test]
fn strings_are_interned_once() {
    let mut k = sink();
    let a = lower_expr(&ctx(), &frame(), &mut k, &Expr::Str("hi".to_string()));
    let b = lower_expr(&ctx(), &frame(), &mut k, &Expr::Str("hi".to_string()));
    let c = lower_expr(&ctx(), &frame(), &mut k, &Expr::Str("ho".to_string()));
    assert!(matches!((a, b, c), (MirExpr::Str(0), MirExpr::Str(0), MirExpr::Str(1))));
    assert_eq!(k.strings, vec!["hi".to_string(), "ho".to_string()]);
}

#[test]
fn fields_and_unknown_names() {
    let (r, _) = lower(&Expr::Member { object: Box::new(id("p")), name: "y".to_string(), optional: false });
    assert!(matches!(r, MirExpr::Field { index: 1, .. }));
    let (r, k) = lower(&id("nowhere"));
    assert!(matches!(r, MirExpr::Int(0)));
    assert_eq!(k.errors, vec!["无法降级标识符".to_string()]);
    let (r, _) = lower(&Expr::Member { object: Box::new(id("s")), name: "length".to_string(), optional: false });
    assert_eq!(intrinsic(&r), Some("string_char_len"));
}

#[test]
fn calls_use_stable_symbol_names() {
    let (r, _) = lower(&Expr::Call { name: "twice".to_string(), args: vec![num("4")] });
    match r {
        MirExpr::Call { callee: MirCallee::Function { name, .. }, args } => {
            assert_eq!(name, "sw_fn_app_twice_i");
            assert_eq!(args.len(), 1);
        },
        _ => panic!("expected a call"),
    }
}

#[test]
fn declarations_bind_new_locals() {
    let cx = ctx();
    let mut b = BodyLower { frame: frame(), locals: Vec::new(), sink: sink() };
    let mut out: Vec<MirStmt> = Vec::new();
    let decl = Stmt::Var { name: "m".to_string(), mutable: true, annotation: None, init: Some(num("5")) };
    lower_stmt(&cx, &mut b, &decl, &mut out);
    assert_eq!(b.locals.len(), 1);
    assert_eq!(b.locals[0].ty, Type::Int);
    assert!(matches!(&out[0].kind, MirStmtKind::VarDecl { local: 0, init: Some(MirExpr::Int(5)) }));
    let stmts = vec![Stmt::Expr(Expr::Postfix { expr: Box::new(id("m")), op: PostfixOp::Inc }), Stmt::Return(Some(id("m")))];
    lower_stmts(&cx, &mut b, &stmts, &mut out);
    assert!(matches!(&out[1].kind, MirStmtKind::Assign { target: MirTarget::Local(0), .. }));
    assert!(matches!(&out[2].kind, MirStmtKind::Return(Some(MirExpr::Local(0)))));
}

#[test]
fn blocks_scope_their_bindings() {
    let cx = ctx();
    let mut b = BodyLower { frame: frame(), locals: Vec::new(), sink: sink() };
    let mut out: Vec<MirStmt> = Vec::new();
    let block = Stmt::Block(vec![Stmt::Var { name: "n".to_string(), mutable: true, annotation: Some(Type::Bool), init: None }]);
    lower_stmt(&cx, &mut b, &block, &mut out);
    assert_eq!(b.frame.slots.len(), 1);
    let mut k = sink();
    let r = lower_expr(&cx, &b.frame, &mut k, &id("n"));
    assert!(matches!(r, MirExpr::Local(0)));
    let w = Stmt::While { cond: Expr::Bool(true), body: Box::new(Stmt::Break) };
    lower_stmt(&cx, &mut b, &w, &mut out);
    assert!(matches!(&out[1].kind, MirStmtKind::While { cond: MirExpr::Bool(true), .. }));
}

use swcc::lower::lower_function;

#[test]
fn functions_put_parameters_first() {
    let cx = ctx();
    let mut k = sink();
    let f = sig("twice", vec![Type::Int], Type::Int);
    let body = vec![Stmt::Return(Some(Expr::Binary { op: BinaryOp::Mul, left: Box::new(id("p")), right: Box::new(num("2")) }))];
    let m = lower_function(&cx, "sw_fn_app_twice_i", "twice", false, &f, &body, &mut k);
    assert_eq!(m.locals.len(), 1);
    assert_eq!(m.locals[0].name, "p");
    assert_eq!(m.params.len(), 1);
    match &m.body[0].kind {
        MirStmtKind::Return(Some(MirExpr::Binary { op: MirBinary::Mul, left, .. })) => {
            assert!(matches!(**left, MirExpr::Local(0)))
        },
        _ => panic!("expected a return"),
    }
    assert!(k.errors.is_empty());
}
