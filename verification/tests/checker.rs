use swcc::checker::{check_call, check_expr, check_lvalue, CheckCtx, Local};
use swcc::expressions::{AssignOp, Expr, PostfixOp};
use swcc::finalize::{finalize_module, EnumMember, Item, ENUM_BOTH_MESSAGE, ENUM_VALUE_MESSAGE, SELF_FIELD_MESSAGE};
use swcc::lowering::BinaryOp;
use swcc::symbols::{
    ClassInfo, FieldInfo, FunctionSig, ModuleId, ParamSig, Span, StructInfo, SymbolId, TypeTable,
};
use swcc::types::Type;
use swcc::typing::MAIN_RET_MESSAGE;

fn span() -> Span {
    Span { start: 0, end: 0 }
}

fn sig(name: &str, params: Vec<Type>, ret: Type) -> FunctionSig {
    FunctionSig {
        module: ModuleId(0),
        name: name.to_string(),
        generics: Vec::new(),
        params: params
            .into_iter()
            .map(|ty| ParamSig { name: "p".to_string(), ty, has_default: false, rest: false })
            .collect(),
        ret,
        extern_c: false,
        span: span(),
    }
}

fn local(name: &str, ty: Type, mutable: bool) -> Local {
    Local { name: name.to_string(), ty, mutable }
}

fn num(n: &str) -> Expr {
    Expr::Integer { text: n.to_string(), suffix: None }
}

fn text(s: &str) -> Expr {
    Expr::Str(s.to_string())
}

fn ident(s: &str) -> Expr {
    Expr::Ident(s.to_string())
}

fn call(name: &str, args: Vec<Expr>) -> Expr {
    Expr::Call { name: name.to_string(), args }
}

fn table() -> TypeTable {
    TypeTable {
        structs: vec![StructInfo {
            module: ModuleId(0),
            name: "Point".to_string(),
            generics: Vec::new(),
            fields: vec![
                FieldInfo { name: "x".to_string(), ty: Type::Int, mutable: true, span: span() },
                FieldInfo { name: "tag".to_string(), ty: Type::Str, mutable: false, span: span() },
            ],
        }],
        enums: Vec::new(),
        classes: vec![ClassInfo {
            module: ModuleId(0),
            name: "Shape".to_string(),
            generics: Vec::new(),
            base: None,
            fields: Vec::new(),
            methods: Vec::new(),
            final_: false,
        }],
        interfaces: Vec::new(),
        class_interfaces: Vec::new(),
        generic_struct_instances: Vec::new(),
        generic_class_instances: Vec::new(),
    }
}

fn context() -> CheckCtx {
    CheckCtx {
        types: table(),
        globals: vec![local("limit", Type::Int, false)],
        functions: vec![
            ("twice".to_string(), vec![(SymbolId(1), sig("twice", vec![Type::Int], Type::Bool))]),
            ("nothing".to_string(), Vec::new()),
        ],
        this_class: None,
    }
}

fn scopes() -> Vec<Vec<Local>> {
    vec![
        vec![
            local("p", Type::Int, false),
            local("cb", Type::Function { params: vec![Type::Int], ret: Box::new(Type::Str) }, true),
        ],
        vec![local("n", Type::Int, true), local("pt", Type::Struct(0), true), local("xs", Type::Array(Box::new(Type::Int)), true)],
    ]
}

fn check(cx: &CheckCtx, e: &Expr) -> (Type, Vec<String>) {
    let mut out = Vec::new();
    let t = check_expr(cx, &scopes(), e, &mut out);
    (t, out)
}

#[test]
fn names_resolve_innermost_first() {
    let cx = context();
    assert_eq!(check(&cx, &ident("n")), (Type::Int, vec![]));
    assert_eq!(check(&cx, &ident("limit")), (Type::Int, vec![]));
    let (t, errs) = check(&cx, &ident("twice"));
    assert_eq!(t, Type::Function { params: vec![Type::Int], ret: Box::new(Type::Bool) });
    assert!(errs.is_empty());
    assert_eq!(check(&cx, &ident("missing")), (Type::Error, vec!["未定义的名称 `missing`".to_string()]));
}

#[test]
fn this_and_super_need_a_class() {
    let mut cx = context();
    assert_eq!(check(&cx, &Expr::This), (Type::Error, vec!["`this` 只能在类方法中使用".to_string()]));
    cx.this_class = Some(0);
    assert_eq!(check(&cx, &Expr::This), (Type::Class(0), vec![]));
    assert_eq!(check(&cx, &Expr::Super), (Type::Error, vec!["`super` 只能在有基类的类中使用".to_string()]));
}

#[test]
fn calls_choose_an_overload() {
    let cx = context();
    assert_eq!(check(&cx, &call("twice", vec![num("2")])), (Type::Bool, vec![]));
    assert_eq!(
        check(&cx, &call("twice", vec![text("a")])),
        (Type::Error, vec!["没有找到匹配的重载函数".to_string()])
    );
    assert_eq!(check(&cx, &call("gone", vec![])), (Type::Error, vec!["未定义的函数 `gone`".to_string()]));
    assert_eq!(check(&cx, &call("limit", vec![])), (Type::Error, vec!["`limit` 不是函数".to_string()]));
    assert_eq!(check(&cx, &call("nothing", vec![])), (Type::Error, vec!["`nothing` 不是函数".to_string()]));
}

#[test]
fn call_errors_follow_argument_errors() {
    let cx = context();
    let mut out = vec!["earlier".to_string()];
    let t = check_call(&cx, &scopes(), "twice", &vec![ident("ghost")], &mut out);
    // An argument whose check failed has the error type, which fits any parameter.
    assert_eq!(t, Type::Bool);
    assert_eq!(out, vec!["earlier".to_string(), "未定义的名称 `ghost`".to_string()]);
    let t = check_call(&cx, &scopes(), "twice", &vec![text("s"), ident("ghost")], &mut out);
    assert_eq!(t, Type::Error);
    assert_eq!(
        out[2..],
        ["未定义的名称 `ghost`".to_string(), "没有找到匹配的重载函数".to_string()]
    );
}

#[test]
fn function_values_are_called_directly() {
    let cx = context();
    assert_eq!(check(&cx, &call("cb", vec![num("1")])), (Type::Str, vec![]));
    assert_eq!(
        check(&cx, &call("cb", vec![num("1"), num("2")])),
        (Type::Error, vec!["闭包调用参数数量不匹配：需要 1 个，实际 2 个".to_string()])
    );
    assert_eq!(
        check(&cx, &call("cb", vec![text("x")])),
        (Type::Str, vec!["闭包参数类型不匹配：string 不能赋给 int".to_string()])
    );
}

#[test]
fn spread_arrays_pass_their_items() {
    let cx = context();
    let spread = Expr::Spread(Box::new(Expr::Array(vec![num("3")])));
    assert_eq!(check(&cx, &call("twice", vec![spread])), (Type::Bool, vec![]));
    let other = Expr::Spread(Box::new(ident("xs")));
    assert_eq!(check(&cx, &call("twice", vec![other])), (Type::Bool, vec!["调用展开暂只支持数组字面量".to_string()]));
}

#[test]
fn assignments_need_a_writable_target() {
    let cx = context();
    let to_param = Expr::Assign { op: AssignOp::Assign, target: Box::new(ident("p")), value: Box::new(num("1")) };
    assert_eq!(check(&cx, &to_param), (Type::Int, vec!["赋值目标不可写".to_string()]));
    let to_local = Expr::Assign { op: AssignOp::Assign, target: Box::new(ident("n")), value: Box::new(num("1")) };
    assert_eq!(check(&cx, &to_local), (Type::Int, vec![]));
    let to_field = Expr::Assign {
        op: AssignOp::Assign,
        target: Box::new(Expr::Member { object: Box::new(ident("pt")), name: "tag".to_string(), optional: false }),
        value: Box::new(text("t")),
    };
    assert_eq!(check(&cx, &to_field), (Type::Str, vec!["赋值目标不可写".to_string()]));
}

#[test]
fn lvalues_are_mutable_variables_fields_and_elements() {
    let cx = context();
    let sc = scopes();
    let mut out = Vec::new();
    assert!(check_lvalue(&cx, &sc, &ident("n"), &mut out));
    assert!(!check_lvalue(&cx, &sc, &ident("p"), &mut out));
    assert!(!check_lvalue(&cx, &sc, &ident("twice"), &mut out));
    let x = Expr::Member { object: Box::new(ident("pt")), name: "x".to_string(), optional: false };
    assert!(check_lvalue(&cx, &sc, &x, &mut out));
    let elem = Expr::Index { object: Box::new(ident("xs")), index: Box::new(num("0")), optional: false };
    assert!(check_lvalue(&cx, &sc, &elem, &mut out));
    assert!(out.is_empty());
}

#[test]
fn increments_of_writable_numbers_pass() {
    let cx = context();
    let inc = Expr::Postfix { expr: Box::new(ident("n")), op: PostfixOp::Inc };
    assert_eq!(check(&cx, &inc), (Type::Int, vec![]));
}

#[test]
fn array_literals_take_their_first_element_type() {
    let cx = context();
    assert_eq!(check(&cx, &Expr::Array(vec![num("1"), num("2")])), (Type::Array(Box::new(Type::Int)), vec![]));
    assert_eq!(
        check(&cx, &Expr::Array(vec![num("1"), text("a")])),
        (Type::Array(Box::new(Type::Int)), vec!["数组元素类型不一致：int 与 string".to_string()])
    );
    assert_eq!(check(&cx, &Expr::Array(vec![])), (Type::Array(Box::new(Type::Error)), vec![]));
    let spread = Expr::Array(vec![Expr::Spread(Box::new(ident("xs"))), num("4")]);
    assert_eq!(check(&cx, &spread), (Type::Array(Box::new(Type::Int)), vec![]));
}

#[test]
fn spreads_belong_in_literals_and_calls() {
    let cx = context();
    let (t, errs) = check(&cx, &Expr::Spread(Box::new(ident("missing"))));
    assert_eq!(t, Type::Error);
    assert_eq!(
        errs,
        vec!["`...` 展开只能用于数组/对象字面量或调用参数".to_string(), "未定义的名称 `missing`".to_string()]
    );
}

#[test]
fn operators_combine_their_operands() {
    let cx = context();
    let sum = Expr::Binary { op: BinaryOp::Add, left: Box::new(ident("n")), right: Box::new(num("1")) };
    assert_eq!(check(&cx, &sum), (Type::Int, vec![]));
    let field = Expr::Member { object: Box::new(ident("pt")), name: "x".to_string(), optional: false };
    assert_eq!(check(&cx, &field), (Type::Int, vec![]));
    let cast = Expr::Cast { expr: Box::new(ident("n")), ty: Type::F64 };
    assert_eq!(check(&cx, &cast), (Type::F64, vec![]));
}

#[test]
fn finalizing_reports_declaration_errors_in_order() {
    let items = vec![
        Item::Struct { id: 0, fields: vec![Type::Int, Type::Struct(0)] },
        Item::Enum {
            members: vec![
                EnumMember { value: None, has_fields: false },
                EnumMember { value: Some(Expr::Integer { text: "10".to_string(), suffix: None }), has_fields: false },
                EnumMember { value: None, has_fields: false },
                EnumMember { value: Some(Expr::Str("x".to_string())), has_fields: true },
            ],
        },
        Item::Class { extends: Some(Type::Int) },
        Item::Class { extends: Some(Type::Class(0)) },
        Item::Function(sig("main", vec![], Type::Void)),
        Item::Function(sig("helper", vec![], Type::Void)),
        Item::Other,
    ];
    let (errs, enums) = finalize_module(&items);
    assert_eq!(
        errs,
        vec![
            SELF_FIELD_MESSAGE.to_string(),
            ENUM_VALUE_MESSAGE.to_string(),
            ENUM_BOTH_MESSAGE.to_string(),
            "`extends` 只能继承 class，实际为 int".to_string(),
            MAIN_RET_MESSAGE.to_string(),
        ]
    );
    assert_eq!(enums, vec![vec![0, 10, 11, 12]]);
}

#[test]
fn finalizing_a_clean_module_reports_nothing() {
    let items = vec![
        Item::Struct { id: 0, fields: vec![Type::Int] },
        Item::Function(sig("main", vec![Type::Array(Box::new(Type::Str))], Type::Int)),
    ];
    let (errs, enums) = finalize_module(&items);
    assert!(errs.is_empty());
    assert!(enums.is_empty());
}

use swcc::body::{check_list, check_stmt, BodyState, Stmt};
use swcc::statements::ReturnState;

fn fresh_state(ret: Type) -> BodyState {
    BodyState { in_loop: false, in_switch: false, ret: ReturnState { ret, saw_return_value: false } }
}

fn var(name: &str, mutable: bool, annotation: Option<Type>, init: Option<Expr>) -> Stmt {
    Stmt::Var { name: name.to_string(), mutable, annotation, init }
}

#[test]
fn declarations_enter_the_innermost_scope() {
    let cx = context();
    let mut sc = scopes();
    let mut st = fresh_state(Type::Void);
    let mut out = Vec::new();
    check_stmt(&cx, &mut sc, &mut st, &var("k", true, None, Some(text("s"))), &mut out);
    assert!(out.is_empty());
    assert_eq!(sc[1].len(), 4);
    assert_eq!(sc[1][3].name, "k");
    assert_eq!(sc[1][3].ty, Type::Str);
    check_stmt(&cx, &mut sc, &mut st, &var("k", false, Some(Type::Int), None), &mut out);
    assert_eq!(out, vec!["变量 `k` 重复声明".to_string()]);
    assert_eq!(sc[1].len(), 4);
}

#[test]
fn blocks_close_their_scope() {
    let cx = context();
    let mut sc = scopes();
    let mut st = fresh_state(Type::Void);
    let mut out = Vec::new();
    let block = Stmt::Block(vec![var("inner", true, Some(Type::Int), Some(num("1"))), Stmt::Expr(ident("inner"))]);
    check_stmt(&cx, &mut sc, &mut st, &block, &mut out);
    assert!(out.is_empty());
    assert_eq!(sc.len(), 2);
    check_stmt(&cx, &mut sc, &mut st, &Stmt::Expr(ident("inner")), &mut out);
    assert_eq!(out, vec!["未定义的名称 `inner`".to_string()]);
}

#[test]
fn conditions_loops_and_jumps() {
    let cx = context();
    let mut sc = scopes();
    let mut st = fresh_state(Type::Void);
    let mut out = Vec::new();
    let stmts = vec![
        Stmt::Break,
        Stmt::While { cond: num("1"), body: Box::new(Stmt::Block(vec![Stmt::Break, Stmt::Continue])) },
        Stmt::Continue,
        Stmt::If { cond: Expr::Bool(true), then: Box::new(Stmt::Block(vec![])), else_: None },
    ];
    check_list(&cx, &mut sc, &mut st, &stmts, &mut out);
    assert_eq!(
        out,
        vec![
            "break 只能在循环或 switch 内使用".to_string(),
            "while 条件必须是 bool，实际为 int".to_string(),
            "continue 只能在循环内使用".to_string(),
        ]
    );
    assert!(!st.in_loop);
}

#[test]
fn return_statements_settle_the_return_type() {
    let cx = context();
    let mut sc = scopes();
    let mut st = fresh_state(Type::Unknown);
    let mut out = Vec::new();
    check_stmt(&cx, &mut sc, &mut st, &Stmt::Return(Some(num("3"))), &mut out);
    assert_eq!(st.ret.ret, Type::Int);
    assert!(st.ret.saw_return_value);
    check_stmt(&cx, &mut sc, &mut st, &Stmt::Return(Some(text("x"))), &mut out);
    assert_eq!(out, vec!["return 类型 string 与函数返回类型 int 不匹配".to_string()]);
}
