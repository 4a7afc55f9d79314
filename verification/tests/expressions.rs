use swcc::expressions::{
    check_array, check_assign, check_cast, check_index, check_slice, check_conditional, check_unary, literal_type, AssignOp, FloatSuffix, IntegerSuffix,
    adapt_literal_operands, check_binary, binary_type_message, check_globals, const_int, const_type, literal_target_ok, Expr, UnaryOp,
};
use swcc::lowering::BinaryOp;
use swcc::symbols::TypeTable;
use swcc::types::Type;

fn lit(text: &str) -> Expr {
    Expr::Integer { text: text.to_string(), suffix: None }
}

fn float(text: &str) -> Expr {
    Expr::Float { text: text.to_string(), suffix: None, bits: 0 }
}

fn bin(op: BinaryOp, l: Expr, r: Expr) -> Expr {
    Expr::Binary { op, left: Box::new(l), right: Box::new(r) }
}

fn un(op: UnaryOp, e: Expr) -> Expr {
    Expr::Unary { op, expr: Box::new(e) }
}

#[test]
fn evaluates_integer_constants() {
    assert_eq!(const_int(&bin(BinaryOp::Add, lit("40"), lit("2"))), Some(42));
    assert_eq!(const_int(&un(UnaryOp::Neg, lit("0x10"))), Some(-16));
    assert_eq!(const_int(&bin(BinaryOp::Div, lit("-7"), lit("2"))), Some(-3));
    assert_eq!(const_int(&bin(BinaryOp::Div, un(UnaryOp::Neg, lit("7")), lit("2"))), Some(-3));
    assert_eq!(const_int(&bin(BinaryOp::Rem, un(UnaryOp::Neg, lit("7")), lit("2"))), Some(-1));
    assert_eq!(const_int(&bin(BinaryOp::Rem, lit("7"), un(UnaryOp::Neg, lit("2")))), Some(1));
    assert_eq!(const_int(&bin(BinaryOp::Div, lit("1"), lit("0"))), None);
    assert_eq!(const_int(&bin(BinaryOp::Mul, lit("9223372036854775807"), lit("2"))), None);
    assert_eq!(const_int(&bin(BinaryOp::Mul, lit("3037000499"), lit("3037000499"))), Some(9223372030926249001));
    assert_eq!(const_int(&bin(BinaryOp::Shl, lit("1"), lit("2"))), None);
    assert_eq!(const_int(&un(UnaryOp::Pos, lit("1_000"))), Some(1000));
    assert_eq!(const_int(&Expr::Typed(Type::Void)), None);
    let min = bin(BinaryOp::Sub, un(UnaryOp::Neg, lit("9223372036854775807")), lit("1"));
    assert_eq!(const_int(&bin(BinaryOp::Rem, bin(BinaryOp::Sub, un(UnaryOp::Neg, lit("9223372036854775807")), lit("1")), un(UnaryOp::Neg, lit("1")))), None);
    assert_eq!(const_int(&bin(BinaryOp::Div, min, un(UnaryOp::Neg, lit("1")))), None);
}

#[test]
fn types_constants() {
    assert_eq!(const_type(&bin(BinaryOp::Add, float("1.5"), lit("2"))), Some(Type::F64));
    assert_eq!(const_type(&bin(BinaryOp::Lt, Expr::Str("a".to_string()), Expr::Bool(true))), Some(Type::Bool));
    assert_eq!(const_type(&bin(BinaryOp::Add, Expr::Str("a".to_string()), lit("1"))), None);
    assert_eq!(const_type(&un(UnaryOp::Not, Expr::Bool(false))), Some(Type::Bool));
    assert_eq!(const_type(&un(UnaryOp::Not, lit("1"))), None);
    assert_eq!(const_type(&un(UnaryOp::BitNot, Expr::Char('a'))), Some(Type::Char));
    assert_eq!(const_type(&un(UnaryOp::Inc, lit("1"))), None);
    assert_eq!(const_type(&Expr::Typed(Type::Void)), None);
    assert_eq!(check_globals(&vec![Some(lit("1")), None, Some(Expr::Typed(Type::Void)), Some(bin(BinaryOp::And, lit("1"), lit("2")))]), vec![2, 3]);
}

#[test]
fn literals_take_the_other_operand_type() {
    assert!(literal_target_ok(&lit("1"), &Type::U8));
    assert!(!literal_target_ok(&lit("1"), &Type::F32));
    assert!(literal_target_ok(&float("1.0"), &Type::F32));
    assert!(!literal_target_ok(&Expr::Typed(Type::Void), &Type::Int));
    assert_eq!(adapt_literal_operands(&lit("1"), &Expr::Typed(Type::Void), Type::Int, Type::U8), (Type::U8, Type::U8));
    assert_eq!(adapt_literal_operands(&Expr::Typed(Type::Void), &float("1.0"), Type::F32, Type::F64), (Type::F32, Type::F32));
    assert_eq!(adapt_literal_operands(&Expr::Typed(Type::Void), &Expr::Typed(Type::Void), Type::Int, Type::Str), (Type::Int, Type::Str));
    assert_eq!(binary_type_message(&BinaryOp::Add, &Type::Str, &Type::Bool), "二元运算 `+` 的操作数类型不匹配：string 与 bool");
}

fn no_types() -> TypeTable {
    TypeTable {
        structs: Vec::new(),
        enums: Vec::new(),
        classes: Vec::new(),
        interfaces: Vec::new(),
        class_interfaces: Vec::new(),
        generic_struct_instances: Vec::new(),
        generic_class_instances: Vec::new(),
    }
}

fn nullable(t: Type) -> Type {
    Type::Nullable(Box::new(t))
}

#[test]
fn types_binary_operators() {
    let t = no_types();
    let o = Expr::Typed(Type::Void);
    let check = |op: BinaryOp, l: &Expr, r: &Expr, lt: Type, rt: Type| check_binary(&t, &op, l, r, &lt, &rt);
    assert_eq!(check(BinaryOp::Add, &o, &o, Type::Str, Type::Int), (Type::Str, None));
    assert_eq!(check(BinaryOp::Add, &o, &o, Type::I32, Type::I32), (Type::I32, None));
    assert_eq!(check(BinaryOp::Add, &lit("1"), &o, Type::Int, Type::U8), (Type::U8, None));
    assert_eq!(
        check(BinaryOp::Sub, &o, &o, Type::Int, Type::Str),
        (Type::Error, Some("二元运算 `-` 的操作数类型不匹配：int 与 string".to_string()))
    );
    assert_eq!(check(BinaryOp::Eq, &o, &o, Type::Null, nullable(Type::Int)), (Type::Bool, None));
    assert_eq!(check(BinaryOp::Eq, &o, &o, Type::Int, Type::Bool).1.is_some(), true);
    assert_eq!(check(BinaryOp::Lt, &o, &lit("2"), Type::F64, Type::Int), (Type::Bool, None));
    assert_eq!(check(BinaryOp::And, &o, &o, Type::Bool, Type::Bool), (Type::Bool, None));
    assert_eq!(check(BinaryOp::Shl, &o, &o, Type::U32, Type::U32), (Type::U32, None));
    assert_eq!(check(BinaryOp::Coalesce, &o, &o, nullable(Type::Str), Type::Str), (Type::Str, None));
    assert_eq!(
        check(BinaryOp::Coalesce, &o, &o, Type::Str, Type::Str),
        (Type::Error, Some("`??` 左侧必须是可空类型，实际为 string".to_string()))
    );
}

#[test]
fn types_literals() {
    assert_eq!(literal_type(&Expr::Integer { text: "1".to_string(), suffix: Some(IntegerSuffix::U16) }), Some(Type::U16));
    assert_eq!(literal_type(&lit("1")), Some(Type::Int));
    assert_eq!(literal_type(&Expr::Float { text: "1.5".to_string(), suffix: Some(FloatSuffix::F32), bits: 0x3ff8000000000000 }), Some(Type::F32));
    assert_eq!(literal_type(&float("1.5")), Some(Type::F64));
    assert_eq!(literal_type(&Expr::Null), Some(Type::Null));
    assert_eq!(literal_type(&Expr::Typed(Type::Void)), None);
}

#[test]
fn checks_casts_and_prefix_operators() {
    assert_eq!(check_cast(&Type::Int, &Type::F64), None);
    assert_eq!(check_cast(&Type::Char, &Type::U32), None);
    assert_eq!(check_cast(&Type::Ptr(Box::new(Type::U8)), &Type::Usize), None);
    assert_eq!(check_cast(&Type::Str, &Type::Int).as_deref(), Some("不能把 string 转换为 int"));
    assert_eq!(check_unary(&UnaryOp::Not, &Type::Int, true), (Type::Bool, Some("`!` 需要 bool，实际为 int".to_string())));
    assert_eq!(check_unary(&UnaryOp::Neg, &Type::F32, false), (Type::F32, None));
    assert_eq!(check_unary(&UnaryOp::BitNot, &Type::F32, false).1.as_deref(), Some("`~` 需要整数，实际为 f32"));
    assert_eq!(check_unary(&UnaryOp::Inc, &Type::Int, false).1.as_deref(), Some("`++`/`--` 需要可赋值的数值目标"));
    assert_eq!(check_unary(&UnaryOp::Inc, &Type::Int, true), (Type::Int, None));
}

#[test]
fn checks_conditionals_and_assignments() {
    let t = no_types();
    assert_eq!(check_conditional(&t, &Type::Bool, &Type::Null, &nullable(Type::Int)), (nullable(Type::Int), vec![]));
    assert_eq!(
        check_conditional(&t, &Type::Int, &Type::Str, &Type::Bool),
        (
            Type::Error,
            vec!["三元条件必须是 bool，实际为 int".to_string(), "三元表达式分支类型不一致：string 与 bool".to_string()]
        )
    );
    assert!(check_assign(&t, &AssignOp::Assign, true, &Type::U8, &lit("1"), &Type::Int).is_empty());
    assert_eq!(
        check_assign(&t, &AssignOp::Assign, false, &Type::U8, &Expr::Typed(Type::Void), &Type::Str),
        vec!["赋值目标不可写".to_string(), "不能把 string 赋给 u8".to_string()]
    );
    assert!(check_assign(&t, &AssignOp::Add, true, &Type::Str, &Expr::Typed(Type::Void), &Type::Int).is_empty());
    assert_eq!(
        check_assign(&t, &AssignOp::Add, true, &Type::Str, &Expr::Typed(Type::Void), &Type::U8),
        vec!["不能把 u8 拼接到 string".to_string()]
    );
    assert_eq!(check_assign(&t, &AssignOp::Mul, true, &Type::Str, &Expr::Typed(Type::Void), &Type::Str), vec!["复合赋值需要数值目标".to_string()]);
    assert_eq!(
        check_assign(&t, &AssignOp::LogicalOr, true, &Type::Int, &Expr::Typed(Type::Void), &Type::Int),
        vec!["`&&=`/`||=` 需要 bool 目标，实际为 int".to_string()]
    );
}

#[test]
fn checks_indexing_and_slices() {
    let ints = Type::Array(Box::new(Type::Int));
    assert_eq!(check_index(&ints, &Type::Usize, false), (Type::Int, vec![]));
    assert_eq!(check_index(&Type::Str, &Type::Int, false), (Type::Char, vec![]));
    assert_eq!(check_index(&nullable(ints.clone()), &Type::Int, false), (nullable(Type::Int), vec![]));
    assert_eq!(check_index(&ints, &Type::Int, true), (nullable(Type::Int), vec![]));
    assert_eq!(
        check_index(&Type::Bool, &Type::Str, false),
        (Type::Error, vec!["索引必须是整数，实际为 string".to_string(), "类型 bool 不能索引".to_string()])
    );
    assert_eq!(check_slice(&ints, &vec![Type::Int, Type::U8]), (ints.clone(), vec![]));
    assert_eq!(
        check_slice(&Type::Str, &vec![Type::F64]),
        (Type::Error, vec!["切片边界必须是整数，实际为 f64".to_string(), "切片只能用于数组，实际为 string".to_string()])
    );
}

#[test]
fn types_array_literals() {
    let ints = Type::Array(Box::new(Type::Int));
    assert_eq!(check_array(&vec![(false, Type::Int), (true, ints.clone())]), (ints.clone(), vec![]));
    assert_eq!(check_array(&vec![]), (Type::Array(Box::new(Type::Error)), vec![]));
    assert_eq!(
        check_array(&vec![(false, Type::Int), (false, Type::Str), (true, Type::Bool)]),
        (
            ints.clone(),
            vec![
                "数组元素类型不一致：int 与 string".to_string(),
                "展开目标必须是数组，实际为 bool".to_string(),
                "数组元素类型不一致：int 与 错误类型".to_string(),
            ]
        )
    );
}
