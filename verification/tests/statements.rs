use swcc::expressions::Expr;
use swcc::statements::{
    check_array_pattern, check_declared_type, check_object_pattern, break_misplaced, check_case, check_condition, check_foreach, check_return, check_throw, continue_misplaced,
    CondKind, ReturnState,
};
use swcc::symbols::{FieldInfo, ModuleId, Span, StructInfo, TypeTable};
use swcc::types::Type;

fn no_types() -> TypeTable {
    TypeTable {
        structs: Vec::new(),
        enums: Vec::new(),
        classes: Vec::new(),
        interfaces: Vec::new(),
        class_interfaces: Vec::new(),
        generic_struct_instances: Vec::new(),
        generic_class_instances: Vec::new(),
    }
}

#[test]
fn conditions_must_be_bool() {
    assert_eq!(check_condition(CondKind::If, &Type::Bool), None);
    assert_eq!(check_condition(CondKind::While, &Type::Int).as_deref(), Some("while 条件必须是 bool，实际为 int"));
    assert_eq!(check_condition(CondKind::For, &Type::Str).as_deref(), Some("for 条件必须是 bool，实际为 string"));
}

#[test]
fn for_of_iterates_arrays_and_strings() {
    assert_eq!(check_foreach(&Type::Array(Box::new(Type::U8))), (Type::U8, None));
    assert_eq!(check_foreach(&Type::Str), (Type::Char, None));
    assert_eq!(
        check_foreach(&Type::Nullable(Box::new(Type::Str))),
        (Type::Str, Some("for-of 迭代值可能为空，请先判空".to_string()))
    );
    assert_eq!(check_foreach(&Type::Int), (Type::Error, Some("for-of 只能迭代 T[] 或 string，实际为 int".to_string())));
}

#[test]
fn cases_throws_and_jumps() {
    let t = no_types();
    assert_eq!(check_case(&t, &Type::Int, &Type::Isize), None);
    assert_eq!(check_case(&t, &Type::Str, &Type::Int).as_deref(), Some("case 类型 string 与 switch 值类型 int 不匹配"));
    assert_eq!(check_throw(&Type::Str), None);
    assert_eq!(check_throw(&Type::Class(3)), None);
    assert_eq!(check_throw(&Type::Int).as_deref(), Some("throw 的值必须是 string 或 class 实例，实际为 int"));
    assert!(break_misplaced(0, 0));
    assert!(!break_misplaced(0, 1));
    assert!(continue_misplaced(0));
    assert!(!continue_misplaced(2));
}

#[test]
fn returns_settle_the_return_type() {
    let t = no_types();
    let mut s = ReturnState { ret: Type::Unknown, saw_return_value: false };
    assert_eq!(check_return(&t, &mut s, Some(&Type::Int)), None);
    assert_eq!(s.ret, Type::Int);
    assert!(s.saw_return_value);
    assert_eq!(check_return(&t, &mut s, Some(&Type::Str)).as_deref(), Some("return 类型 string 与函数返回类型 int 不匹配"));
    assert_eq!(check_return(&t, &mut s, None).as_deref(), Some("函数声明返回 int，但 return 缺少表达式"));
    let mut v = ReturnState { ret: Type::Unknown, saw_return_value: false };
    assert_eq!(check_return(&t, &mut v, None), None);
    assert_eq!(v.ret, Type::Void);
    assert!(!v.saw_return_value);
}

fn point_table() -> TypeTable {
    let mut t = no_types();
    t.structs.push(StructInfo {
        module: ModuleId(0),
        name: "Point".to_string(),
        generics: Vec::new(),
        fields: vec![
            FieldInfo { name: "x".to_string(), ty: Type::F64, mutable: true, span: Span { start: 0, end: 0 } },
            FieldInfo { name: "tag".to_string(), ty: Type::Str, mutable: false, span: Span { start: 0, end: 0 } },
        ],
    });
    t
}

#[test]
fn declarations_take_their_annotation_or_initialiser() {
    let t = no_types();
    let one = Expr::Integer { text: "1".to_string(), suffix: None };
    assert_eq!(check_declared_type(&t, Some(&Type::U8), Some((&one, &Type::Int))), (Type::U8, None));
    assert_eq!(
        check_declared_type(&t, Some(&Type::U8), Some((&Expr::Typed(Type::Void), &Type::Str))),
        (Type::U8, Some("初始化式类型 string 不能赋给 u8".to_string()))
    );
    assert_eq!(check_declared_type(&t, None, Some((&Expr::Typed(Type::Void), &Type::Bool))), (Type::Bool, None));
    assert_eq!(check_declared_type(&t, Some(&Type::Str), None), (Type::Str, None));
    assert_eq!(
        check_declared_type(&t, None, None),
        (Type::Error, Some("变量声明缺少类型标注或初始化表达式".to_string()))
    );
}

#[test]
fn destructuring_binds_elements_and_fields() {
    assert_eq!(check_array_pattern(&Type::Array(Box::new(Type::Str))), Ok(Type::Str));
    assert_eq!(check_array_pattern(&Type::Int), Err("数组解构目标必须是数组，实际为 int".to_string()));
    let t = point_table();
    let names = vec!["tag".to_string(), "y".to_string()];
    assert_eq!(
        check_object_pattern(&t, &Type::Struct(0), &names),
        Ok(vec![Ok(Type::Str), Err("struct Point 没有字段 `y`".to_string())])
    );
    assert_eq!(
        check_object_pattern(&t, &Type::Bool, &names),
        Err("对象解构目标必须是 struct，实际为 bool".to_string())
    );
}
