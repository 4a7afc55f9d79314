use swcc::lowering::{
    ancestor_field_count, binary_op_name, concatable_with_string, mir_binary, optional_fallback, parse_int,
    placeholder_sig, stable_function_name, string_method, to_string_expr, type_abbrev, vararg_tag, BinaryOp,
};
use swcc::mir::{MirBinary, MirCallee, MirExpr};
use swcc::symbols::{ClassInfo, FieldInfo, FunctionSig, ModuleId, ParamSig, Span, TypeTable};
use swcc::types::Type;
use swcc::lowering::intern_string;
use swcc::lowering::{declare_local, lookup_local};
use swcc::lowering::build_test_main;
use swcc::mir::MirStmtKind;

fn p(ty: Type) -> ParamSig {
    ParamSig { name: "a".to_string(), ty, has_default: false, rest: false }
}

fn sig(name: &str, params: Vec<ParamSig>) -> FunctionSig {
    FunctionSig { module: ModuleId(0), name: name.to_string(), generics: Vec::new(), params, ret: Type::Void, extern_c: false, span: Span { start: 0, end: 0 } }
}

#[test]
fn names_operators() {
    assert_eq!(binary_op_name(&BinaryOp::Pow), "**");
    assert_eq!(binary_op_name(&BinaryOp::Coalesce), "??");
    assert_eq!(binary_op_name(&BinaryOp::Shr), ">>");
    assert_eq!(mir_binary(&BinaryOp::Coalesce), MirBinary::Coalesce);
    assert_eq!(mir_binary(&BinaryOp::Le), MirBinary::Le);
}

#[test]
fn string_methods_and_aliases() {
    let (name, params, ret) = string_method("substring_chars").unwrap();
    assert_eq!(name, "utf8_substring");
    assert_eq!(params, vec![Type::Int, Type::Int]);
    assert_eq!(ret, Type::Str);
    let (name, params, ret) = string_method("取文本中间反向").unwrap();
    assert_eq!(name, "substring_between_last");
    assert_eq!(params, vec![Type::Str, Type::Str]);
    assert_eq!(ret, Type::Str);
    let (name, params, ret) = string_method("split").unwrap();
    assert_eq!(name, "split");
    assert_eq!(params, vec![Type::Str]);
    assert_eq!(ret, Type::Array(Box::new(Type::Str)));
    assert_eq!(string_method("结尾为").unwrap().0, "ends_with");
    assert_eq!(string_method("parse_float").unwrap().2, Type::F64);
    assert!(string_method("frobnicate").is_none());
}

#[test]
fn chinese_aliases_are_their_english_methods() {
    for (alias, english) in [
        ("转大写", "to_upper"),
        ("是否包含", "contains"),
        ("取文本左边", "before"),
        ("取文本中间", "substring_between"),
        ("取字符代码", "char_code"),
        ("结尾为", "ends_with"),
    ] {
        assert_eq!(string_method(alias), string_method(english));
    }
    assert!(string_method("utf8_substring").is_none());
}

#[test]
fn parses_integer_literals() {
    assert_eq!(parse_int("1_000"), Some(1000));
    assert_eq!(parse_int("0xff"), Some(255));
    assert_eq!(parse_int("0b1010"), Some(10));
    assert_eq!(parse_int("0o17"), Some(15));
    assert_eq!(parse_int("-42"), Some(-42));
    assert_eq!(parse_int("+7"), Some(7));
    assert_eq!(parse_int("9223372036854775807"), Some(i64::MAX));
    assert_eq!(parse_int("-9223372036854775808"), Some(i64::MIN));
    assert_eq!(parse_int("9223372036854775808"), None);
    assert_eq!(parse_int("12a"), None);
    assert_eq!(parse_int(""), None);
    assert_eq!(parse_int("0x"), None);
    assert_eq!(parse_int("-"), None);
}

#[test]
fn stable_names_tell_overloads_apart() {
    assert_eq!(stable_function_name(&sig("main", vec![p(Type::Int)]), "app"), "sw_user_main");
    assert_eq!(stable_function_name(&sig("run", vec![]), "app"), "sw_fn_app_run");
    assert_eq!(
        stable_function_name(&sig("add", vec![p(Type::I32), p(Type::Nullable(Box::new(Type::Array(Box::new(Type::F64))))), p(Type::Class(1))]), "math"),
        "sw_fn_math_add_I32nafC1_"
    );
    assert_eq!(stable_function_name(&sig("add", vec![p(Type::Int), p(Type::F64)]), "math"), "sw_fn_math_add_if");
    assert_ne!(
        stable_function_name(&sig("f", vec![p(Type::Int)]), "m"),
        stable_function_name(&sig("f", vec![p(Type::I64)]), "m")
    );
    assert_ne!(
        stable_function_name(&sig("f", vec![p(Type::F32)]), "m"),
        stable_function_name(&sig("f", vec![p(Type::F64)]), "m")
    );
    assert_ne!(
        stable_function_name(&sig("f", vec![p(Type::Class(1))]), "m"),
        stable_function_name(&sig("f", vec![p(Type::Class(2))]), "m")
    );
    assert_eq!(type_abbrev(&Type::Usize), "Usz");
    assert_eq!(type_abbrev(&Type::U8), "U08");
    assert_eq!(type_abbrev(&Type::TypeParam("T".to_string())), "T1_T");
    assert_eq!(
        type_abbrev(&Type::Function { params: vec![Type::Int, Type::Str], ret: Box::new(Type::Bool) }),
        "F2_isb"
    );
    assert_eq!(type_abbrev(&Type::Struct(12)), "S12_");
    assert_eq!(type_abbrev(&Type::Array(Box::new(Type::Array(Box::new(Type::Str))))), "aas");
    assert_eq!(type_abbrev(&Type::Void), "v");
    assert_eq!(type_abbrev(&Type::Char), "c");
}

#[test]
fn values_by_type() {
    assert_eq!(vararg_tag(&Type::F32), 1);
    assert_eq!(vararg_tag(&Type::Nullable(Box::new(Type::Str))), 2);
    assert_eq!(vararg_tag(&Type::Bool), 3);
    assert_eq!(vararg_tag(&Type::Char), 4);
    assert_eq!(vararg_tag(&Type::Int), 0);
    assert!(matches!(optional_fallback(&Type::Nullable(Box::new(Type::F64))), MirExpr::Float(0)));
    assert!(matches!(optional_fallback(&Type::Nullable(Box::new(Type::Str))), MirExpr::Null));
    assert!(matches!(optional_fallback(&Type::Int), MirExpr::Int(0)));
    assert!(concatable_with_string(&Type::Char));
    assert!(!concatable_with_string(&Type::I64));
}

#[test]
fn converts_to_strings() {
    assert!(matches!(to_string_expr(MirExpr::Local(3), &Type::Str), MirExpr::Local(3)));
    match to_string_expr(MirExpr::Local(1), &Type::Bool) {
        MirExpr::Call { callee: MirCallee::Intrinsic { name }, args } => {
            assert_eq!(name, "bool_to_string");
            assert_eq!(args.len(), 1);
            assert!(matches!(args[0], MirExpr::Local(1)));
        }
        _ => panic!("expected a call"),
    }
    match to_string_expr(MirExpr::Int(5), &Type::U8) {
        MirExpr::Call { callee: MirCallee::Intrinsic { name }, .. } => assert_eq!(name, "int_to_string"),
        _ => panic!("expected a call"),
    }
}

#[test]
fn counts_inherited_fields_and_placeholder() {
    let f = |n: &str| FieldInfo { name: n.to_string(), ty: Type::Int, mutable: true, span: Span { start: 0, end: 0 } };
    let t = TypeTable {
        structs: Vec::new(),
        enums: Vec::new(),
        classes: vec![
            ClassInfo { module: ModuleId(0), name: "A".to_string(), generics: Vec::new(), base: None, fields: vec![f("a"), f("b")], methods: Vec::new(), final_: false },
            ClassInfo { module: ModuleId(0), name: "B".to_string(), generics: Vec::new(), base: Some(0), fields: vec![f("c")], methods: Vec::new(), final_: false },
            ClassInfo { module: ModuleId(0), name: "C".to_string(), generics: Vec::new(), base: Some(1), fields: vec![f("d")], methods: Vec::new(), final_: false },
        ],
        interfaces: Vec::new(),
        class_interfaces: Vec::new(),
        generic_struct_instances: Vec::new(),
        generic_class_instances: Vec::new(),
    };
    assert_eq!(ancestor_field_count(&t, 2), 3);
    assert_eq!(ancestor_field_count(&t, 0), 0);
    let s = placeholder_sig();
    assert_eq!(s.ret, Type::Error);
    assert!(s.name.is_empty() && s.params.is_empty());
}

#[test]
fn interns_strings_once() {
    let mut pool = vec!["a".to_string()];
    assert_eq!(intern_string(&mut pool, "b"), 1);
    assert_eq!(intern_string(&mut pool, "a"), 0);
    assert_eq!(intern_string(&mut pool, "b"), 1);
    assert_eq!(pool, vec!["a".to_string(), "b".to_string()]);
}

#[test]
fn declares_and_finds_locals() {
    let mut locals = Vec::new();
    let args = vec![("T".to_string(), Type::F64)];
    assert_eq!(declare_local(&mut locals, &args, "x", Type::Array(Box::new(Type::TypeParam("T".to_string()))), true), 0);
    assert_eq!(declare_local(&mut locals, &args, "y", Type::Int, false), 1);
    assert_eq!(locals[0].name, "x");
    assert_eq!(locals[0].ty, Type::Array(Box::new(Type::F64)));
    assert!(!locals[1].mutable);
    let scopes = vec![
        vec![("x".to_string(), 0), ("y".to_string(), 1)],
        vec![("x".to_string(), 5)],
    ];
    assert_eq!(lookup_local(&scopes, "x"), Some(5));
    assert_eq!(lookup_local(&scopes, "y"), Some(1));
    assert_eq!(lookup_local(&scopes, "z"), None);
}

#[test]
fn builds_the_test_entry_point() {
    let mut pool = vec!["[ok] ".to_string(), "x".to_string()];
    let tests = vec![
        ("sw_fn_t_a".to_string(), sig("a", vec![])),
        ("sw_fn_t_b".to_string(), FunctionSig { ret: Type::Int, ..sig("b", vec![]) }),
    ];
    let f = build_test_main(&mut pool, 4, &tests).unwrap();
    assert_eq!(pool, vec!["[ok] ", "x", "[FAIL] ", "a", "b"]);
    assert_eq!(f.name, "sw_user_main");
    assert_eq!(f.ret, Type::Int);
    assert_eq!(f.locals.len(), 4);
    assert_eq!(f.locals[2].name, "$frame");
    assert_eq!(f.locals[2].ty, Type::Ptr(Box::new(Type::I8)));
    assert_eq!(f.body.len(), 6);
    assert!(matches!(f.body[0].kind, MirStmtKind::VarDecl { local: 0, init: Some(MirExpr::Int(0)) }));
    assert!(matches!(f.body[5].kind, MirStmtKind::Return(Some(MirExpr::Local(0)))));
    match &f.body[4].kind {
        MirStmtKind::If { then, else_, .. } => {
            assert_eq!(then.len(), 4);
            assert_eq!(else_.len(), 3);
            assert!(matches!(else_[0].kind, MirStmtKind::VarDecl { local: 1, .. }));
            match &else_[1].kind {
                MirStmtKind::If { then, else_, .. } => {
                    assert_eq!(then.len(), 2);
                    match &else_[0].kind {
                        MirStmtKind::Expr(MirExpr::Call { args, .. }) => match &args[0] {
                            MirExpr::Call { args, .. } => {
                                assert!(matches!(args[0], MirExpr::Str(0)));
                                assert!(matches!(args[1], MirExpr::Str(4)));
                            }
                            _ => panic!("expected the concatenation"),
                        },
                        _ => panic!("expected the print"),
                    }
                }
                _ => panic!("expected the verdict"),
            }
        }
        _ => panic!("expected the branch"),
    }
    match &f.body[2].kind {
        MirStmtKind::If { else_, .. } => assert!(matches!(else_[0].kind, MirStmtKind::Expr(_))),
        _ => panic!("expected the branch"),
    }
    let mut empty_pool = Vec::new();
    let g = build_test_main(&mut empty_pool, 0, &Vec::new()).unwrap();
    assert_eq!(g.body.len(), 2);
    assert_eq!(empty_pool, vec!["[ok] ", "[FAIL] "]);
}

use swcc::lowering::{lower_assign_expr, lower_binary, lower_postfix_step, lower_prefix_step, STEP_TARGET_MESSAGE};
use swcc::mir::{MirTarget, MirUnary};

fn intrinsic_name(e: &MirExpr) -> Option<&str> {
    match e {
        MirExpr::Call { callee: MirCallee::Intrinsic { name }, .. } => Some(name.as_str()),
        _ => None,
    }
}

#[test]
fn power_lowers_to_the_runtime_power() {
    let r = lower_binary(BinaryOp::Pow, &Type::Int, &Type::Int, MirExpr::Int(2), MirExpr::Int(10)).unwrap();
    assert_eq!(intrinsic_name(&r), Some("pow_i64"));
    match &r {
        MirExpr::Call { args, .. } => assert!(matches!(args.as_slice(), [MirExpr::Int(2), MirExpr::Int(10)])),
        _ => panic!("expected a call"),
    }
    let f = lower_binary(BinaryOp::Pow, &Type::F64, &Type::Int, MirExpr::Local(0), MirExpr::Int(2)).unwrap();
    assert_eq!(intrinsic_name(&f), Some("pow_f64"));
}

#[test]
fn binary_operators_pick_runtime_helpers() {
    let rem = lower_binary(BinaryOp::Rem, &Type::F64, &Type::F64, MirExpr::Local(0), MirExpr::Local(1)).unwrap();
    assert_eq!(intrinsic_name(&rem), Some("frem_f64"));
    let eq = lower_binary(BinaryOp::Ne, &Type::Str, &Type::Str, MirExpr::Str(0), MirExpr::Str(1)).unwrap();
    assert_eq!(intrinsic_name(&eq), Some("string_ne"));
    let cat = lower_binary(BinaryOp::Add, &Type::Str, &Type::Int, MirExpr::Str(0), MirExpr::Int(3)).unwrap();
    assert_eq!(intrinsic_name(&cat), Some("string_concat"));
    match &cat {
        MirExpr::Call { args, .. } => {
            assert!(matches!(args[0], MirExpr::Str(0)));
            assert_eq!(intrinsic_name(&args[1]), Some("int_to_string"));
        },
        _ => panic!("expected a call"),
    }
    let plain = lower_binary(BinaryOp::Add, &Type::Int, &Type::Int, MirExpr::Int(1), MirExpr::Int(2)).unwrap();
    assert!(matches!(plain, MirExpr::Binary { op: MirBinary::Add, .. }));
    assert!(lower_binary(BinaryOp::Eq, &Type::Struct(0), &Type::Struct(0), MirExpr::Local(0), MirExpr::Local(1)).is_none());
}

#[test]
fn increments_lower_as_assignments() {
    let (e, err) = lower_prefix_step(false, Some(MirTarget::Local(3)), MirExpr::Local(3));
    assert!(err.is_none());
    match e {
        MirExpr::Assign { target: MirTarget::Local(3), value } => {
            assert!(matches!(*value, MirExpr::Binary { op: MirBinary::Add, ref right, .. } if matches!(**right, MirExpr::Int(1))));
        },
        _ => panic!("expected an assignment"),
    }
    let (p, err) = lower_postfix_step(true, Some(MirTarget::Global(1)));
    assert!(err.is_none());
    assert!(matches!(p, MirExpr::Postfix { target: MirTarget::Global(1), op: MirUnary::Dec }));
    let (z, err) = lower_postfix_step(false, None);
    assert!(matches!(z, MirExpr::Int(0)));
    assert_eq!(err.as_deref(), Some(STEP_TARGET_MESSAGE));
    let (a, err) = lower_assign_expr(Some((MirTarget::Local(0), MirExpr::Int(5))));
    assert!(err.is_none());
    assert!(matches!(a, MirExpr::Assign { target: MirTarget::Local(0), .. }));
}
